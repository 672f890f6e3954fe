//! The properties the pipeline promises, proved of its specification.
//!
//! Each law here is stated over the same specification functions that the
//! executable pipeline is verified against, so what holds of these functions
//! holds of what `run_sync` leaves in the store.

use vstd::prelude::*;
use crate::extract::{
    artist_names_of, distinct_albums, lemma_artist_names_of_contains,
    lemma_distinct_albums_from_plays, lemma_distinct_albums_has,
};
use crate::pipeline::{
    album_items_spec, log_items_spec, stage_albums, stage_artists, stage_logs, stage_tracks,
    sync_spec, track_items_spec,
};
use crate::remote::PlayV;
use crate::store::{
    add_artists, album_items_ok, album_titled, artist_named, distinct_names, has_album,
    has_album_artist, has_album_track, has_artist, has_play, has_track, lemma_add_albums_frame,
    lemma_add_albums_noop, lemma_add_albums_props, lemma_add_artists, lemma_add_artists_noop,
    lemma_add_artists_wf, lemma_add_play_logs_noop, lemma_add_play_logs_props,
    lemma_add_tracks_frame, lemma_add_tracks_noop, lemma_add_tracks_props,
    lemma_artist_named_stable, lemma_distinct_names_has, lemma_distinct_names_unique,
    lemma_named_row, lemma_titled_album_row, lemma_titled_track_row, play_items_ok,
    resolved_artists, track_items_ok, track_titled, ArtistRowV, StoreV,
};

verus! {

/// Every id the album stage's items carry names a real artist row.
proof fn lemma_album_items_ok_for(artists: Seq<ArtistRowV>, p: Seq<PlayV>)
    requires
        forall|i: int| 0 <= i < artists.len() ==> #[trigger] artists[i].id == i,
        forall|k: int|
            0 <= k < artist_names_of(p).len() ==> has_artist(
                artists,
                #[trigger] artist_names_of(p)[k],
            ),
    ensures
        album_items_ok(album_items_spec(p, artists), artists.len() as int),
{
    let items = album_items_spec(p, artists);
    assert forall|i: int, j: int|
        0 <= i < items.len() && 0 <= j < items[i].artist_ids.len() implies 0 <= #[trigger] items[
        i
    ].artist_ids[j] < artists.len() by {
        lemma_distinct_albums_from_plays(p, i);
        let m = choose|m: int|
            0 <= m < p.len() && #[trigger] p[m].album_title == distinct_albums(p)[i].title
                && p[m].release_date == distinct_albums(p)[i].release_date && p[m].artist_names
                == distinct_albums(p)[i].artist_names;
        lemma_artist_names_of_contains(p, m, j);
        let nm = distinct_albums(p)[i].artist_names[j];
        let w = choose|w: int|
            0 <= w < artist_names_of(p).len() && #[trigger] artist_names_of(p)[w] == nm;
        lemma_named_row(artists, nm);
    }
}

/// How one run builds its store, stage by stage: what each stage adds, what
/// it promises the next, and that the result is well formed.
proof fn lemma_sync_stages(s: StoreV, p: Seq<PlayV>)
    requires
        s.wf(),
    ensures
        ({
            let s1 = stage_artists(s, p);
            let s2 = stage_albums(s1, p);
            let s3 = stage_tracks(s2, p);
            let s4 = sync_spec(s, p);
            &&& s4 == stage_logs(s3, p)
            &&& s4.artists == s1.artists
            &&& s4.albums == s2.albums
            &&& s4.album_artists == s2.album_artists
            &&& s4.tracks == s3.tracks
            &&& s4.album_tracks == s3.album_tracks
            &&& s1.wf()
            &&& s2.wf()
            &&& s3.wf()
            &&& s4.wf()
            &&& s.artists.is_prefix_of(s4.artists)
            &&& s.albums.is_prefix_of(s4.albums)
            &&& s.tracks.is_prefix_of(s4.tracks)
            &&& forall|k: int|
                0 <= k < artist_names_of(p).len() ==> has_artist(
                    s4.artists,
                    #[trigger] artist_names_of(p)[k],
                )
            &&& forall|k: int|
                0 <= k < album_items_spec(p, s1.artists).len() ==> has_album(
                    s4.albums,
                    #[trigger] album_items_spec(p, s1.artists)[k].title,
                )
            &&& forall|k: int, j: int|
                0 <= k < album_items_spec(p, s1.artists).len() && 0 <= j < album_items_spec(
                    p,
                    s1.artists,
                )[k].artist_ids.len() ==> has_album_artist(
                    s4.album_artists,
                    album_titled(s4.albums, album_items_spec(p, s1.artists)[k].title).id,
                    #[trigger] album_items_spec(p, s1.artists)[k].artist_ids[j],
                )
            &&& forall|k: int|
                0 <= k < track_items_spec(p, s2.albums).len() ==> has_track(
                    s4.tracks,
                    #[trigger] track_items_spec(p, s2.albums)[k].title,
                )
            &&& forall|k: int|
                0 <= k < track_items_spec(p, s2.albums).len() ==> has_album_track(
                    s4.album_tracks,
                    #[trigger] track_items_spec(p, s2.albums)[k].album_id,
                    track_titled(s4.tracks, track_items_spec(p, s2.albums)[k].title).id,
                )
            &&& forall|k: int|
                0 <= k < log_items_spec(p, s3.tracks).len() ==> has_play(
                    s4.play_logs,
                    #[trigger] log_items_spec(p, s3.tracks)[k].track_id,
                    log_items_spec(p, s3.tracks)[k].played_at,
                )
        }),
{
    let s1 = stage_artists(s, p);
    let s2 = stage_albums(s1, p);
    let s3 = stage_tracks(s2, p);
    let s4 = stage_logs(s3, p);
    let names = artist_names_of(p);

    // stage one
    lemma_add_artists(s.artists, names);
    lemma_add_artists_wf(s.artists, names);
    assert(s1.wf());

    // stage two
    let aitems = album_items_spec(p, s1.artists);
    lemma_album_items_ok_for(s1.artists, p);
    lemma_add_albums_props(s1, aitems, s1.artists.len() as int);
    lemma_add_albums_frame(s1, aitems);
    assert(s2.wf()) by {
        assert(s2.artists == s1.artists);
        assert(s2.tracks == s1.tracks);
        assert(s2.album_tracks == s1.album_tracks);
        assert(s2.play_logs == s1.play_logs);
        assert forall|i: int|
            0 <= i < s2.album_tracks.len() implies 0 <= #[trigger] s2.album_tracks[i].album_id
            < s2.albums.len() && 0 <= s2.album_tracks[i].track_id < s2.tracks.len() by {
            assert(s1.album_tracks[i] == s2.album_tracks[i]);
            assert(s1.albums.is_prefix_of(s2.albums));
        }
    }

    // stage three
    let titems = track_items_spec(p, s2.albums);
    assert(track_items_ok(titems, s2.albums.len() as int)) by {
        assert forall|k: int| 0 <= k < titems.len() implies 0 <= #[trigger] titems[k].album_id
            < s2.albums.len() by {
            lemma_distinct_albums_has(p, p[k].album_title);
            let di = choose|i: int|
                0 <= i < distinct_albums(p).len() && #[trigger] distinct_albums(p)[i].title == p[
                    k
                ].album_title;
            assert(aitems[di].title == distinct_albums(p)[di].title);
            assert(has_album(s2.albums, p[k].album_title));
            lemma_titled_album_row(s2.albums, p[k].album_title);
        }
    }
    lemma_add_tracks_props(s2, titems, s2.albums.len() as int);
    lemma_add_tracks_frame(s2, titems);
    assert(s3.wf()) by {
        assert(s3.artists == s2.artists);
        assert(s3.albums == s2.albums);
        assert(s3.album_artists == s2.album_artists);
        assert(s3.play_logs == s2.play_logs);
        assert forall|i: int|
            0 <= i < s3.play_logs.len() implies 0 <= #[trigger] s3.play_logs[i].track_id
            < s3.tracks.len() by {
            assert(s2.play_logs[i] == s3.play_logs[i]);
            assert(s2.tracks.is_prefix_of(s3.tracks));
        }
    }

    // stage four
    let litems = log_items_spec(p, s3.tracks);
    assert(play_items_ok(litems, s3.tracks.len() as int)) by {
        assert forall|k: int| 0 <= k < litems.len() implies 0 <= #[trigger] litems[k].track_id
            < s3.tracks.len() by {
            assert(titems[k].title == p[k].track_title);
            assert(has_track(s3.tracks, p[k].track_title));
            lemma_titled_track_row(s3.tracks, p[k].track_title);
        }
    }
    lemma_add_play_logs_props(s3.play_logs, litems, s3.tracks.len() as int);
    assert(s4.wf());
    assert(sync_spec(s, p) == s4);
}

/// Idempotence.  Running the full pipeline a second time over the same plays
/// changes nothing: every artist, album, link, track, and play-log entry the
/// second run would write is already present, so the store after two runs is
/// the store after one.
pub proof fn lemma_sync_idempotent(s: StoreV, p: Seq<PlayV>)
    requires
        s.wf(),
    ensures
        sync_spec(sync_spec(s, p), p) == sync_spec(s, p),
{
    lemma_sync_stages(s, p);
    let s1 = stage_artists(s, p);
    let s2 = stage_albums(s1, p);
    let s3 = stage_tracks(s2, p);
    let big = sync_spec(s, p);
    let names = artist_names_of(p);

    // second artist stage: every name is already there
    lemma_add_artists_noop(big.artists, names);
    let t1 = stage_artists(big, p);
    assert(t1 =~= big);

    // second album stage: items are computed against the same artist table,
    // and every album and link is already there
    let aitems = album_items_spec(p, s1.artists);
    assert(album_items_spec(p, t1.artists) == aitems);
    assert forall|k: int| 0 <= k < aitems.len() implies has_album(
        big.albums,
        #[trigger] aitems[k].title,
    ) by {}
    lemma_add_albums_noop(big, aitems);
    let t2 = stage_albums(t1, p);
    assert(t2 == big);

    // second track stage: same items, every track and link already there
    let titems = track_items_spec(p, s2.albums);
    assert(track_items_spec(p, t2.albums) == titems);
    lemma_add_tracks_noop(big, titems);
    let t3 = stage_tracks(t2, p);
    assert(t3 == big);

    // second play-log stage: every entry already recorded
    let litems = log_items_spec(p, s3.tracks);
    assert(log_items_spec(p, t3.tracks) == litems);
    lemma_add_play_logs_noop(big.play_logs, litems);
    let t4 = stage_logs(t3, p);
    assert(t4 =~= big);
    assert(sync_spec(big, p) == t4);
}

/// Ordering invariant.  In the store a run leaves behind, every album-artist
/// link references an artist the artist stage had committed and an album the
/// album stage had committed; every album-track link references rows those
/// stages committed; and every play-log entry references a track the track
/// stage had committed.  No later stage grows the tables an earlier stage
/// wrote, so a reference is never ahead of its stage.
pub proof fn lemma_sync_ordering(s: StoreV, p: Seq<PlayV>)
    requires
        s.wf(),
    ensures
        sync_spec(s, p).wf(),
        sync_spec(s, p).artists == stage_artists(s, p).artists,
        sync_spec(s, p).albums == stage_albums(stage_artists(s, p), p).albums,
        sync_spec(s, p).tracks == stage_tracks(stage_albums(stage_artists(s, p), p), p).tracks,
        forall|i: int|
            0 <= i < sync_spec(s, p).album_artists.len() ==> 0 <= #[trigger] sync_spec(
                s,
                p,
            ).album_artists[i].artist_id < stage_artists(s, p).artists.len() && 0 <= sync_spec(
                s,
                p,
            ).album_artists[i].album_id < stage_albums(stage_artists(s, p), p).albums.len(),
        forall|i: int|
            0 <= i < sync_spec(s, p).album_tracks.len() ==> 0 <= #[trigger] sync_spec(
                s,
                p,
            ).album_tracks[i].album_id < stage_albums(stage_artists(s, p), p).albums.len() && 0
                <= sync_spec(s, p).album_tracks[i].track_id < stage_tracks(
                stage_albums(stage_artists(s, p), p),
                p,
            ).tracks.len(),
        forall|i: int|
            0 <= i < sync_spec(s, p).play_logs.len() ==> 0 <= #[trigger] sync_spec(
                s,
                p,
            ).play_logs[i].track_id < stage_tracks(stage_albums(stage_artists(s, p), p), p).tracks.len(),
{
    lemma_sync_stages(s, p);
    let s4 = sync_spec(s, p);
    assert forall|i: int| 0 <= i < s4.album_artists.len() implies 0 <= #[trigger] s4.album_artists[
        i
    ].artist_id < stage_artists(s, p).artists.len() && 0 <= s4.album_artists[i].album_id
        < stage_albums(stage_artists(s, p), p).albums.len() by {
        assert(0 <= s4.album_artists[i].album_id < s4.albums.len() && 0 <= s4.album_artists[
            i
        ].artist_id < s4.artists.len());
    }
    assert forall|i: int| 0 <= i < s4.album_tracks.len() implies 0 <= #[trigger] s4.album_tracks[
        i
    ].album_id < stage_albums(stage_artists(s, p), p).albums.len() && 0 <= s4.album_tracks[
        i
    ].track_id < stage_tracks(stage_albums(stage_artists(s, p), p), p).tracks.len() by {
        assert(0 <= s4.album_tracks[i].album_id < s4.albums.len() && 0 <= s4.album_tracks[
            i
        ].track_id < s4.tracks.len());
    }
    assert forall|i: int| 0 <= i < s4.play_logs.len() implies 0 <= #[trigger] s4.play_logs[
        i
    ].track_id < stage_tracks(stage_albums(stage_artists(s, p), p), p).tracks.len() by {
        assert(0 <= s4.play_logs[i].track_id < s4.tracks.len());
    }
}

/// Natural-key resolution.  After the bulk insert-ignore of a list of names,
/// the follow-up lookup resolves each distinct requested name to exactly one
/// row, in first-appearance order; a name that already had a row keeps the
/// very row — and so the id — it had before the insert.
pub proof fn lemma_natural_key_resolution(rows: Seq<ArtistRowV>, names: Seq<Seq<char>>)
    requires
        forall|i: int| 0 <= i < rows.len() ==> #[trigger] rows[i].id == i,
        forall|i: int, j: int|
            0 <= i < j < rows.len() ==> #[trigger] rows[i].name != #[trigger] rows[j].name,
    ensures
        resolved_artists(add_artists(rows, names), names).len() == distinct_names(names).len(),
        forall|i: int|
            0 <= i < distinct_names(names).len() ==> #[trigger] resolved_artists(
                add_artists(rows, names),
                names,
            )[i].name == distinct_names(names)[i],
        forall|i: int, j: int|
            0 <= i < j < resolved_artists(add_artists(rows, names), names).len()
                ==> #[trigger] resolved_artists(add_artists(rows, names), names)[i]
                != #[trigger] resolved_artists(add_artists(rows, names), names)[j],
        forall|i: int|
            0 <= i < distinct_names(names).len() && has_artist(
                rows,
                #[trigger] distinct_names(names)[i],
            ) ==> resolved_artists(add_artists(rows, names), names)[i] == artist_named(
                rows,
                distinct_names(names)[i],
            ),
{
    let table = add_artists(rows, names);
    let dn = distinct_names(names);
    let res = resolved_artists(table, names);
    lemma_add_artists(rows, names);
    lemma_add_artists_wf(rows, names);
    lemma_distinct_names_unique(names);
    assert forall|i: int| 0 <= i < dn.len() implies #[trigger] res[i].name == dn[i] && res[i]
        == artist_named(table, dn[i]) by {
        lemma_distinct_names_has(names, dn[i]);
        assert(dn.contains(dn[i]));
        let k = choose|k: int| 0 <= k < names.len() && #[trigger] names[k] == dn[i];
        assert(has_artist(table, dn[i]));
        lemma_named_row(table, dn[i]);
        assert(res[i] == artist_named(table, dn[i]));
    }
    assert forall|i: int, j: int| 0 <= i < j < res.len() implies #[trigger] res[i]
        != #[trigger] res[j] by {
        assert(res[i].name == dn[i]);
        assert(res[j].name == dn[j]);
    }
    assert forall|i: int|
        0 <= i < dn.len() && has_artist(rows, #[trigger] dn[i]) implies res[i] == artist_named(
        rows,
        dn[i],
    ) by {
        lemma_artist_named_stable(rows, table, dn[i]);
    }
}

} // verus!
