//! The synchronization run: one pass from fetched plays to persisted rows.
//!
//! The run performs four ordered stages — artists, albums with their artist
//! links, tracks with their album links, play-log entries — each against the
//! store, each fully complete before the next begins.  A malformed date or
//! timestamp aborts the run before its stage writes anything; stages already
//! committed stay persisted, and the idempotent store operations make
//! re-running the whole pipeline safe.

use vstd::prelude::*;
use crate::client::FailureKind;
use crate::dates::{parse_played_at, parse_stamp_spec, ParseError};
use crate::extract::{
    album_extracts_v, dates_ok, extract_albums, extract_artists, extract_tracks, extracted_albums,
    extracted_tracks, spec_date, spec_stamp, stamps_ok, AlbumV, distinct_albums,
    lemma_artist_names_of_contains, lemma_distinct_albums_from_plays, artist_names_of,
    track_extracts_v,
};
use crate::remote::{plays_v, PlayV, RecentTrack, SpotifyError};
use crate::store::{
    add_albums, add_artists, add_play_logs, add_tracks, album_inserts_v, album_items_ok,
    album_titled, artist_named, artists_v, albums_v, find_album, find_artist, find_track,
    has_album, has_artist, has_track, lemma_add_artists, lemma_distinct_names_has,
    lemma_distinct_names_unique, names_v, play_inserts_v, play_items_ok, resolved_artists,
    distinct_names, track_inserts_v, track_items_ok, track_titled, tracks_v, upsert_artists,
    upsert_albums_with_artists, upsert_playlogs, upsert_tracks_with_albums, AlbumInsert,
    AlbumInsertV, ArtistRow, DBError, PlayLogInsert, PlayLogInsertV, StoreV, SyncStore,
    TrackInsert, TrackInsertV, TrackRow,
};

verus! {

/// A natural-key match the resolver owed but could not find; fatal, never
/// silently ignored.
#[derive(Clone, Copy, PartialEq, Eq, Structural, Debug)]
pub struct IntegrityError;

/// Why a run failed, with what the route boundary needs to report it.
#[derive(Debug)]
pub enum SyncError {
    /// The remote exchange failed, or its credentials did.
    Auth { kind: FailureKind, error: SpotifyError },
    /// A date or timestamp in the remote data was malformed.
    Parse(ParseError),
    /// The storage layer refused a write or a lookup.
    Storage(DBError),
    /// A resolved row the pipeline owed was missing.
    Integrity(IntegrityError),
}

/// The HTTP status the route boundary answers with for a failed run: 401
/// where the service finally refused the credentials, 422 where the refresh
/// could not be carried out, 500 for every other failure.
pub fn http_status_of(e: &SyncError) -> (r: u16)
    ensures
        match *e {
            SyncError::Auth { kind, .. } => r == (match kind {
                FailureKind::AuthUnrecoverable => 401u16,
                FailureKind::RefreshFailed => 422u16,
                FailureKind::Other => 500u16,
            }),
            _ => r == 500,
        },
{
    match e {
        SyncError::Auth { kind, .. } => match kind {
            FailureKind::AuthUnrecoverable => 401,
            FailureKind::RefreshFailed => 422,
            FailureKind::Other => 500,
        },
        _ => 500,
    }
}

/// The credentials a caller starts a run with.
pub struct Tokens {
    pub access_token: String,
    pub refresh_token: Option<String>,
}

/// What a successful run answers: the refreshed access token, where one was
/// obtained.
pub struct CollectionResponse {
    pub updated_token: Option<String>,
}

/// Resolves each requested artist name to the id of its persisted row.
/// Succeeds exactly when every name has a row; a missing name is an integrity
/// failure, since the insert that preceded the lookup should have covered it.
pub fn resolve_artist_ids(names: &Vec<String>, rows: &Vec<ArtistRow>) -> (r: Result<
    Vec<usize>,
    SyncError,
>)
    requires
        forall|i: int, j: int|
            0 <= i < j < rows@.len() ==> #[trigger] artists_v(rows@)[i].name
                != #[trigger] artists_v(rows@)[j].name,
    ensures
        match r {
            Ok(ids) => {
                &&& ids@.len() == names@.len()
                &&& forall|j: int|
                    0 <= j < names@.len() ==> has_artist(
                        artists_v(rows@),
                        #[trigger] names_v(names@)[j],
                    )
                &&& forall|j: int|
                    0 <= j < names@.len() ==> #[trigger] ids@[j] as int == artist_named(
                        artists_v(rows@),
                        names_v(names@)[j],
                    ).id
            },
            Err(e) => e is Integrity && exists|j: int|
                0 <= j < names@.len() && !has_artist(artists_v(rows@), #[trigger] names_v(names@)[j]),
        },
{
    let mut ids: Vec<usize> = Vec::new();
    let mut j: usize = 0;
    while j < names.len()
        invariant
            j <= names.len(),
            ids@.len() == j,
            forall|i: int, t: int|
                0 <= i < t < rows@.len() ==> #[trigger] artists_v(rows@)[i].name
                    != #[trigger] artists_v(rows@)[t].name,
            forall|i: int|
                0 <= i < j ==> has_artist(artists_v(rows@), #[trigger] names_v(names@)[i]),
            forall|i: int|
                0 <= i < j ==> #[trigger] ids@[i] as int == artist_named(
                    artists_v(rows@),
                    names_v(names@)[i],
                ).id,
        decreases names.len() - j,
    {
        match find_artist(rows, &names[j]) {
            Some(i) => {
                proof {
                    assert(artists_v(rows@)[i as int].name == names_v(names@)[j as int]);
                    assert(has_artist(artists_v(rows@), names_v(names@)[j as int]));
                    let w = choose|w: int|
                        0 <= w < artists_v(rows@).len() && #[trigger] artists_v(rows@)[w].name
                            == names_v(names@)[j as int];
                    if w < i as int {
                        assert(artists_v(rows@)[w].name != artists_v(rows@)[i as int].name);
                    } else if (i as int) < w {
                        assert(artists_v(rows@)[i as int].name != artists_v(rows@)[w].name);
                    }
                    assert(artist_named(artists_v(rows@), names_v(names@)[j as int]) == artists_v(
                        rows@,
                    )[i as int]);
                }
                let id = rows[i].id;
                ids.push(id);
            },
            None => {
                proof {
                    assert(names_v(names@)[j as int] == names@[j as int]@);
                    assert(!has_artist(artists_v(rows@), names_v(names@)[j as int]));
                }
                return Err(SyncError::Integrity(IntegrityError));
            },
        }
        j = j + 1;
    }
    Ok(ids)
}

/// One play-log entry per play: the play's track resolved among the given
/// rows by exact title, its timestamp parsed and normalized.  A malformed
/// timestamp is a parse failure; a title with no row is an integrity failure.
pub fn extract_play_logs(plays: &Vec<RecentTrack>, tracks: &Vec<TrackRow>) -> (r: Result<
    Vec<PlayLogInsert>,
    SyncError,
>)
    requires
        forall|i: int, j: int|
            0 <= i < tracks@.len() && 0 <= j < tracks@.len() && #[trigger] tracks_v(
                tracks@,
            )[i].title == #[trigger] tracks_v(tracks@)[j].title ==> tracks_v(tracks@)[i]
                == tracks_v(tracks@)[j],
    ensures
        match r {
            Ok(v) => {
                &&& stamps_ok(plays_v(plays@))
                &&& v@.len() == plays@.len()
                &&& forall|k: int|
                    0 <= k < plays@.len() ==> #[trigger] play_inserts_v(v@)[k].played_at
                        == spec_stamp(plays_v(plays@)[k].played_at)
                &&& forall|k: int|
                    0 <= k < plays@.len() ==> has_track(
                        tracks_v(tracks@),
                        #[trigger] plays_v(plays@)[k].track_title,
                    )
                &&& forall|k: int|
                    0 <= k < plays@.len() ==> #[trigger] play_inserts_v(v@)[k].track_id
                        == track_titled(tracks_v(tracks@), plays_v(plays@)[k].track_title).id
            },
            Err(e) => {
                &&& (e is Parse ==> !stamps_ok(plays_v(plays@)))
                &&& (e is Integrity ==> exists|k: int|
                    0 <= k < plays@.len() && !has_track(
                        tracks_v(tracks@),
                        #[trigger] plays_v(plays@)[k].track_title,
                    ))
                &&& (e is Parse || e is Integrity)
            },
        },
{
    let ghost pv = plays_v(plays@);
    let mut out: Vec<PlayLogInsert> = Vec::new();
    let mut k: usize = 0;
    while k < plays.len()
        invariant
            k <= plays.len(),
            pv == plays_v(plays@),
            out@.len() == k,
            forall|i: int, j: int|
                0 <= i < tracks@.len() && 0 <= j < tracks@.len() && #[trigger] tracks_v(
                    tracks@,
                )[i].title == #[trigger] tracks_v(tracks@)[j].title ==> tracks_v(tracks@)[i]
                    == tracks_v(tracks@)[j],
            forall|i: int|
                0 <= i < k ==> parse_stamp_spec(#[trigger] pv[i].played_at) is Some,
            forall|i: int|
                0 <= i < k ==> #[trigger] play_inserts_v(out@)[i].played_at == spec_stamp(
                    pv[i].played_at,
                ),
            forall|i: int|
                0 <= i < k ==> has_track(tracks_v(tracks@), #[trigger] pv[i].track_title),
            forall|i: int|
                0 <= i < k ==> #[trigger] play_inserts_v(out@)[i].track_id == track_titled(
                    tracks_v(tracks@),
                    pv[i].track_title,
                ).id,
        decreases plays.len() - k,
    {
        let found: usize = match find_track(tracks, &plays[k].track.name) {
            Some(i) => i,
            None => {
                proof {
                    assert(!has_track(tracks_v(tracks@), pv[k as int].track_title));
                }
                return Err(SyncError::Integrity(IntegrityError));
            },
        };
        proof {
            assert(tracks_v(tracks@)[found as int].title == pv[k as int].track_title);
            assert(has_track(tracks_v(tracks@), pv[k as int].track_title));
            let w = choose|w: int|
                0 <= w < tracks_v(tracks@).len() && #[trigger] tracks_v(tracks@)[w].title == pv[
                    k as int
                ].track_title;
            assert(tracks_v(tracks@)[w] == tracks_v(tracks@)[found as int]);
            assert(track_titled(tracks_v(tracks@), pv[k as int].track_title) == tracks_v(
                tracks@,
            )[found as int]);
        }
        let track_id: usize = tracks[found].id;
        let played_at = match parse_played_at(plays[k].played_at.as_str()) {
            Ok(t) => t,
            Err(pe) => {
                proof {
                    assert(parse_stamp_spec(pv[k as int].played_at) is None);
                }
                return Err(SyncError::Parse(pe));
            },
        };
        let ghost out_pre = out@;
        out.push(PlayLogInsert { track_id, played_at });
        proof {
            assert(play_inserts_v(out@) =~= play_inserts_v(out_pre).push(
                PlayLogInsertV { track_id: track_id as int, played_at: played_at as int },
            ));
        }
        k = k + 1;
    }
    Ok(out)
}

/// The store after the artist stage: every artist name the plays mention,
/// inserted unless already present.
pub open spec fn stage_artists(s: StoreV, p: Seq<PlayV>) -> StoreV {
    StoreV { artists: add_artists(s.artists, artist_names_of(p)), ..s }
}

/// The album rows the album stage owes, artists resolved against the artist
/// table by name.
pub open spec fn album_items_spec(p: Seq<PlayV>, artists: Seq<crate::store::ArtistRowV>) -> Seq<
    AlbumInsertV,
> {
    distinct_albums(p).map_values(
        |a: AlbumV|
            AlbumInsertV {
                title: a.title,
                release_date: spec_date(a.release_date),
                artist_ids: a.artist_names.map_values(|n: Seq<char>| artist_named(artists, n).id),
            },
    )
}

/// The store after the album stage.
pub open spec fn stage_albums(s: StoreV, p: Seq<PlayV>) -> StoreV {
    add_albums(s, album_items_spec(p, s.artists))
}

/// The track rows the track stage owes — one per play — with each album
/// resolved against the album table by title.
pub open spec fn track_items_spec(p: Seq<PlayV>, albums: Seq<crate::store::AlbumRowV>) -> Seq<
    TrackInsertV,
> {
    p.map_values(
        |x: PlayV|
            TrackInsertV { title: x.track_title, album_id: album_titled(albums, x.album_title).id },
    )
}

/// The store after the track stage.
pub open spec fn stage_tracks(s: StoreV, p: Seq<PlayV>) -> StoreV {
    add_tracks(s, track_items_spec(p, s.albums))
}

/// The play-log entries the final stage owes — one per play — with each
/// track resolved against the track table by title.
pub open spec fn log_items_spec(p: Seq<PlayV>, tracks: Seq<crate::store::TrackRowV>) -> Seq<
    PlayLogInsertV,
> {
    p.map_values(
        |x: PlayV|
            PlayLogInsertV {
                track_id: track_titled(tracks, x.track_title).id,
                played_at: spec_stamp(x.played_at),
            },
    )
}

/// The store after the play-log stage.
pub open spec fn stage_logs(s: StoreV, p: Seq<PlayV>) -> StoreV {
    StoreV { play_logs: add_play_logs(s.play_logs, log_items_spec(p, s.tracks)), ..s }
}

/// The store a whole successful run leaves behind: the four stages in their
/// hard dependency order.
pub open spec fn sync_spec(s: StoreV, p: Seq<PlayV>) -> StoreV {
    stage_logs(stage_tracks(stage_albums(stage_artists(s, p), p), p), p)
}

/// Looking a name up among the resolver's returned rows agrees with looking
/// it up in the table the rows were resolved from.
proof fn lemma_resolved_lookup(
    table: Seq<crate::store::ArtistRowV>,
    requested: Seq<Seq<char>>,
    n: Seq<char>,
)
    requires
        forall|i: int, j: int|
            0 <= i < j < table.len() ==> #[trigger] table[i].name != #[trigger] table[j].name,
        forall|k: int| 0 <= k < requested.len() ==> has_artist(table, #[trigger] requested[k]),
        requested.contains(n),
    ensures
        has_artist(resolved_artists(table, requested), n),
        artist_named(resolved_artists(table, requested), n) == artist_named(table, n),
{
    let rows = resolved_artists(table, requested);
    let dn = distinct_names(requested);
    lemma_distinct_names_has(requested, n);
    assert forall|i: int| 0 <= i < dn.len() implies #[trigger] rows[i].name == dn[i] by {
        lemma_distinct_names_has(requested, dn[i]);
        assert(dn.contains(dn[i]));
        let k = choose|k: int| 0 <= k < requested.len() && #[trigger] requested[k] == dn[i];
        assert(has_artist(table, dn[i]));
        let w = choose|w: int| 0 <= w < table.len() && #[trigger] table[w].name == dn[i];
        assert(rows[i] == artist_named(table, dn[i]));
    }
    let di = choose|i: int| 0 <= i < dn.len() && #[trigger] dn[i] == n;
    assert(rows[di].name == n);
    assert(has_artist(rows, n));
    let w2 = choose|i: int| 0 <= i < rows.len() && #[trigger] rows[i].name == n;
    assert(rows[w2] == artist_named(table, dn[w2]));
    assert(dn[w2] == n) by {
        lemma_distinct_names_has(requested, dn[w2]);
        assert(dn.contains(dn[w2]));
        let k2 = choose|k: int| 0 <= k < requested.len() && #[trigger] requested[k] == dn[w2];
        assert(has_artist(table, dn[w2]));
        let wt = choose|w: int| 0 <= w < table.len() && #[trigger] table[w].name == dn[w2];
        assert(artist_named(table, dn[w2]).name == dn[w2]);
    }
}

/// The resolver's returned rows carry the distinct requested names, in
/// first-appearance order, one row each.
proof fn lemma_resolved_rows_named(table: Seq<crate::store::ArtistRowV>, requested: Seq<Seq<char>>)
    requires
        forall|k: int| 0 <= k < requested.len() ==> has_artist(table, #[trigger] requested[k]),
    ensures
        resolved_artists(table, requested).len() == distinct_names(requested).len(),
        forall|i: int|
            0 <= i < distinct_names(requested).len() ==> #[trigger] resolved_artists(
                table,
                requested,
            )[i].name == distinct_names(requested)[i],
        forall|i: int, j: int|
            0 <= i < j < resolved_artists(table, requested).len() ==> #[trigger] resolved_artists(
                table,
                requested,
            )[i].name != #[trigger] resolved_artists(table, requested)[j].name,
{
    let rows = resolved_artists(table, requested);
    let dn = distinct_names(requested);
    lemma_distinct_names_unique(requested);
    assert forall|i: int| 0 <= i < dn.len() implies #[trigger] rows[i].name == dn[i] by {
        lemma_distinct_names_has(requested, dn[i]);
        assert(dn.contains(dn[i]));
        let k = choose|k: int| 0 <= k < requested.len() && #[trigger] requested[k] == dn[i];
        assert(has_artist(table, dn[i]));
        let w = choose|w: int| 0 <= w < table.len() && #[trigger] table[w].name == dn[i];
        assert(rows[i] == artist_named(table, dn[i]));
    }
}

/// One full synchronization run against the store: artists, then albums with
/// their artist links, then tracks with their album links, then the play
/// log, each stage complete before the next begins.  A malformed release
/// date fails the run before any album is written; a malformed timestamp
/// fails it before any play-log entry is written; stages already committed
/// stay.  No other failure arises from the store model, so every error a run
/// returns is a parse error.
pub fn run_sync(store: &mut SyncStore, plays: &Vec<RecentTrack>) -> (r: Result<(), SyncError>)
    requires
        old(store)@.wf(),
    ensures
        final(store)@.wf(),
        ({
            let p = plays_v(plays@);
            match r {
                Ok(()) => dates_ok(p) && stamps_ok(p) && final(store)@ == sync_spec(
                    old(store)@,
                    p,
                ),
                Err(e) => {
                    &&& e is Parse
                    &&& (!dates_ok(p) ==> final(store)@ == stage_artists(old(store)@, p))
                    &&& (dates_ok(p) ==> !stamps_ok(p) && final(store)@ == stage_tracks(
                        stage_albums(stage_artists(old(store)@, p), p),
                        p,
                    ))
                },
            }
        }),
{
    let ghost s0 = store@;
    let ghost p = plays_v(plays@);

    // Stage one: artists.
    let names = extract_artists(plays);
    let artist_rows = upsert_artists(store, &names);
    let ghost s1 = stage_artists(s0, p);
    proof {
        assert(store@ =~= s1);
        lemma_add_artists(s0.artists, artist_names_of(p));
        lemma_resolved_rows_named(s1.artists, artist_names_of(p));
    }

    // Stage two: albums and their artist links.
    let album_list = match extract_albums(plays) {
        Ok(v) => v,
        Err(pe) => {
            return Err(SyncError::Parse(pe));
        },
    };
    let ghost items_spec = album_items_spec(p, s1.artists);
    proof {
        assert(album_extracts_v(album_list@).len() == album_list@.len());
        assert(extracted_albums(p).len() == distinct_albums(p).len());
        assert(album_list@.len() == distinct_albums(p).len());
        assert(items_spec.len() == distinct_albums(p).len());
    }
    let mut album_items: Vec<AlbumInsert> = Vec::new();
    let mut k: usize = 0;
    while k < album_list.len()
        invariant
            k <= album_list.len(),
            album_list@.len() == distinct_albums(p).len(),
            store@ == s1,
            s1 == stage_artists(s0, p),
            s1.wf(),
            p == plays_v(plays@),
            items_spec == album_items_spec(p, s1.artists),
            album_extracts_v(album_list@) == extracted_albums(p),
            artists_v(artist_rows@) == resolved_artists(s1.artists, artist_names_of(p)),
            forall|i: int, j: int|
                0 <= i < j < artist_rows@.len() ==> #[trigger] artists_v(artist_rows@)[i].name
                    != #[trigger] artists_v(artist_rows@)[j].name,
            forall|i: int|
                0 <= i < artist_names_of(p).len() ==> has_artist(
                    s1.artists,
                    #[trigger] artist_names_of(p)[i],
                ),
            album_items@.len() == k,
            forall|i: int|
                0 <= i < k ==> #[trigger] album_inserts_v(album_items@)[i] == items_spec[i],
        decreases album_list.len() - k,
    {
        let item = &album_list[k];
        let ghost entry = distinct_albums(p)[k as int];
        proof {
            assert(item@ == album_extracts_v(album_list@)[k as int]);
            assert(item@ == extracted_albums(p)[k as int]);
            assert(extracted_albums(p)[k as int] == (crate::extract::AlbumExtractV {
                title: entry.title,
                release_date: spec_date(entry.release_date),
                artist_names: entry.artist_names,
            }));
            assert(names_v(item.artist_names@) =~= item@.artist_names);
            assert(names_v(item.artist_names@) == entry.artist_names);
            lemma_distinct_albums_from_plays(p, k as int);
            let m = choose|m: int|
                0 <= m < p.len() && #[trigger] p[m].album_title == distinct_albums(p)[k as int].title
                    && p[m].release_date == distinct_albums(p)[k as int].release_date
                    && p[m].artist_names == distinct_albums(p)[k as int].artist_names;
            assert forall|j: int| 0 <= j < entry.artist_names.len() implies has_artist(
                artists_v(artist_rows@),
                #[trigger] entry.artist_names[j],
            ) && artist_named(artists_v(artist_rows@), entry.artist_names[j]) == artist_named(
                s1.artists,
                entry.artist_names[j],
            ) by {
                lemma_artist_names_of_contains(p, m, j);
                lemma_resolved_lookup(s1.artists, artist_names_of(p), entry.artist_names[j]);
            }
        }
        let ids = match resolve_artist_ids(&item.artist_names, &artist_rows) {
            Ok(v) => v,
            Err(e) => {
                proof {
                    let j = choose|j: int|
                        0 <= j < item.artist_names@.len() && !has_artist(
                            artists_v(artist_rows@),
                            #[trigger] names_v(item.artist_names@)[j],
                        );
                    assert(names_v(item.artist_names@)[j] == entry.artist_names[j]);
                    assert(false);
                }
                unreached()
            },
        };
        let ghost items_pre = album_items@;
        album_items.push(
            AlbumInsert {
                title: item.title.clone(),
                release_date: item.release_date,
                artist_ids: ids,
            },
        );
        proof {
            assert(album_inserts_v(album_items@) =~= album_inserts_v(items_pre).push(
                album_items@[k as int]@,
            ));
            assert(ids@.len() == entry.artist_names.len());
            assert forall|j: int| 0 <= j < ids@.len() implies #[trigger] ids@[j] as int
                == artist_named(s1.artists, entry.artist_names[j]).id by {
                assert(ids@[j] as int == artist_named(
                    artists_v(artist_rows@),
                    names_v(item.artist_names@)[j],
                ).id);
                assert(names_v(item.artist_names@)[j] == entry.artist_names[j]);
                assert(artist_named(artists_v(artist_rows@), entry.artist_names[j])
                    == artist_named(s1.artists, entry.artist_names[j]));
            }
            assert forall|i: int| 0 <= i < k + 1 implies #[trigger] album_inserts_v(
                album_items@,
            )[i] == items_spec[i] by {
                if i < k {
                    assert(album_inserts_v(album_items@)[i] == album_inserts_v(items_pre)[i]);
                } else {
                    assert(album_items@[i]@.title == entry.title);
                    assert(album_items@[i]@.release_date == spec_date(entry.release_date));
                    assert(album_items@[i]@.artist_ids =~= entry.artist_names.map_values(
                        |n: Seq<char>| artist_named(s1.artists, n).id,
                    ));
                    assert(items_spec[i] == (AlbumInsertV {
                        title: entry.title,
                        release_date: spec_date(entry.release_date),
                        artist_ids: entry.artist_names.map_values(
                            |n: Seq<char>| artist_named(s1.artists, n).id,
                        ),
                    }));
                }
            }
        }
        k = k + 1;
    }
    proof {
        assert(album_inserts_v(album_items@) =~= items_spec);
        assert(album_items_ok(items_spec, s1.artists.len() as int)) by {
            assert forall|i: int, j: int|
                0 <= i < items_spec.len() && 0 <= j < items_spec[i].artist_ids.len() implies 0
                <= #[trigger] items_spec[i].artist_ids[j] < s1.artists.len() by {
                let entry = distinct_albums(p)[i];
                lemma_distinct_albums_from_plays(p, i);
                let m = choose|m: int|
                    0 <= m < p.len() && #[trigger] p[m].album_title == distinct_albums(p)[i].title
                        && p[m].release_date == distinct_albums(p)[i].release_date
                        && p[m].artist_names == distinct_albums(p)[i].artist_names;
                lemma_artist_names_of_contains(p, m, j);
                let nm = entry.artist_names[j];
                let w = choose|w: int|
                    0 <= w < artist_names_of(p).len() && #[trigger] artist_names_of(p)[w] == nm;
                crate::store::lemma_named_row(s1.artists, nm);
            }
        }
    }
    let album_rows = upsert_albums_with_artists(store, &album_items);
    let ghost s2 = stage_albums(s1, p);
    proof {
        assert(store@ == s2);
        assert(album_rows@.len() == distinct_albums(p).len());
        assert forall|i: int| 0 <= i < album_rows@.len() implies #[trigger] albums_v(
            album_rows@,
        )[i] == album_titled(s2.albums, distinct_albums(p)[i].title) && has_album(
            s2.albums,
            distinct_albums(p)[i].title,
        ) by {
            assert(album_rows@.len() == album_items@.len());
            assert(album_inserts_v(album_items@).len() == album_items@.len());
            assert(album_rows@[i]@ == album_titled(store@.albums, album_items@[i]@.title));
            assert(has_album(store@.albums, album_items@[i]@.title));
            assert(album_inserts_v(album_items@)[i] == items_spec[i]);
            assert(album_items@[i]@.title == distinct_albums(p)[i].title);
        }
    }

    // Stage three: tracks and their album links.
    let track_list = extract_tracks(plays);
    let ghost titems_spec = track_items_spec(p, s2.albums);
    proof {
        assert(track_extracts_v(track_list@).len() == track_list@.len());
        assert(extracted_tracks(p).len() == p.len());
        assert(track_list@.len() == p.len());
        assert(titems_spec.len() == p.len());
    }
    let mut track_items: Vec<TrackInsert> = Vec::new();
    let mut k2: usize = 0;
    while k2 < track_list.len()
        invariant
            k2 <= track_list.len(),
            store@ == s2,
            s2 == stage_albums(s1, p),
            s2.wf(),
            p == plays_v(plays@),
            titems_spec == track_items_spec(p, s2.albums),
            track_extracts_v(track_list@) == extracted_tracks(p),
            track_list@.len() == p.len(),
            album_rows@.len() == distinct_albums(p).len(),
            forall|i: int|
                0 <= i < album_rows@.len() ==> #[trigger] albums_v(album_rows@)[i] == album_titled(
                    s2.albums,
                    distinct_albums(p)[i].title,
                ) && has_album(s2.albums, distinct_albums(p)[i].title),
            track_items@.len() == k2,
            forall|i: int|
                0 <= i < k2 ==> #[trigger] track_inserts_v(track_items@)[i] == titems_spec[i],
        decreases track_list.len() - k2,
    {
        proof {
            assert(track_extracts_v(track_list@)[k2 as int] == extracted_tracks(p)[k2 as int]);
            crate::extract::lemma_distinct_albums_has(p, p[k2 as int].album_title);
            assert(crate::extract::has_album_entry(distinct_albums(p), p[k2 as int].album_title));
            let di = choose|i: int|
                0 <= i < distinct_albums(p).len() && #[trigger] distinct_albums(p)[i].title == p[
                    k2 as int
                ].album_title;
            assert(albums_v(album_rows@)[di] == album_titled(
                s2.albums,
                distinct_albums(p)[di].title,
            ));
            assert(has_album(s2.albums, distinct_albums(p)[di].title));
            crate::store::lemma_titled_album_row(s2.albums, distinct_albums(p)[di].title);
            assert(albums_v(album_rows@)[di].title == p[k2 as int].album_title);
            assert(has_album(albums_v(album_rows@), p[k2 as int].album_title));
        }
        let entry = &track_list[k2];
        proof {
            assert(entry@ == track_extracts_v(track_list@)[k2 as int]);
            assert(entry@ == extracted_tracks(p)[k2 as int]);
            assert(entry.album_title@ == p[k2 as int].album_title);
            assert(entry.title@ == p[k2 as int].track_title);
        }
        let aid: usize = match find_album(&album_rows, &entry.album_title) {
            Some(i) => {
                proof {
                    assert(albums_v(album_rows@)[i as int].title == p[k2 as int].album_title);
                    assert(albums_v(album_rows@)[i as int] == album_titled(
                        s2.albums,
                        distinct_albums(p)[i as int].title,
                    ));
                    crate::store::lemma_titled_album_row(
                        s2.albums,
                        distinct_albums(p)[i as int].title,
                    );
                    assert(albums_v(album_rows@)[i as int].title == distinct_albums(
                        p,
                    )[i as int].title);
                    assert(albums_v(album_rows@)[i as int] == album_titled(
                        s2.albums,
                        p[k2 as int].album_title,
                    ));
                }
                album_rows[i].id
            },
            None => {
                proof {
                    assert(false);
                }
                unreached()
            },
        };
        let ghost titems_pre = track_items@;
        track_items.push(TrackInsert { title: entry.title.clone(), album_id: aid });
        proof {
            assert(track_inserts_v(track_items@) =~= track_inserts_v(titems_pre).push(
                track_items@[k2 as int]@,
            ));
            assert forall|i: int| 0 <= i < k2 + 1 implies #[trigger] track_inserts_v(
                track_items@,
            )[i] == titems_spec[i] by {
                if i < k2 {
                    assert(track_inserts_v(track_items@)[i] == track_inserts_v(titems_pre)[i]);
                } else {
                    assert(track_items@[i]@.title == p[i].track_title);
                    assert(track_items@[i]@.album_id == album_titled(
                        s2.albums,
                        p[i].album_title,
                    ).id);
                    assert(titems_spec[i] == (TrackInsertV {
                        title: p[i].track_title,
                        album_id: album_titled(s2.albums, p[i].album_title).id,
                    }));
                }
            }
        }
        k2 = k2 + 1;
    }
    proof {
        assert(track_inserts_v(track_items@) =~= titems_spec);
        assert(track_items_ok(titems_spec, s2.albums.len() as int)) by {
            assert forall|i: int| 0 <= i < titems_spec.len() implies 0 <= #[trigger] titems_spec[
                i
            ].album_id < s2.albums.len() by {
                crate::extract::lemma_distinct_albums_has(p, p[i].album_title);
                let di = choose|w: int|
                    0 <= w < distinct_albums(p).len() && #[trigger] distinct_albums(p)[w].title
                        == p[i].album_title;
                assert(albums_v(album_rows@)[di] == album_titled(
                    s2.albums,
                    distinct_albums(p)[di].title,
                ));
                assert(has_album(s2.albums, p[i].album_title));
                crate::store::lemma_titled_album_row(s2.albums, p[i].album_title);
            }
        }
    }
    let track_rows = upsert_tracks_with_albums(store, &track_items);
    let ghost s3 = stage_tracks(s2, p);
    proof {
        assert(store@ == s3);
        assert(track_rows@.len() == p.len());
        assert forall|i: int| 0 <= i < track_rows@.len() implies #[trigger] tracks_v(
            track_rows@,
        )[i] == track_titled(s3.tracks, p[i].track_title) && has_track(
            s3.tracks,
            p[i].track_title,
        ) by {
            assert(track_rows@.len() == track_items@.len());
            assert(track_inserts_v(track_items@).len() == track_items@.len());
            assert(track_rows@[i]@ == track_titled(store@.tracks, track_items@[i]@.title));
            assert(has_track(store@.tracks, track_items@[i]@.title));
            assert(track_inserts_v(track_items@)[i] == titems_spec[i]);
            assert(track_items@[i]@.title == p[i].track_title);
        }
    }

    // Stage four: the play log.
    proof {
        assert forall|i: int, j: int|
            0 <= i < track_rows@.len() && 0 <= j < track_rows@.len() && #[trigger] tracks_v(
                track_rows@,
            )[i].title == #[trigger] tracks_v(track_rows@)[j].title implies tracks_v(
            track_rows@,
        )[i] == tracks_v(track_rows@)[j] by {
            assert(tracks_v(track_rows@)[i] == track_titled(s3.tracks, p[i].track_title));
            assert(has_track(s3.tracks, p[i].track_title));
            crate::store::lemma_titled_track_row(s3.tracks, p[i].track_title);
            assert(tracks_v(track_rows@)[j] == track_titled(s3.tracks, p[j].track_title));
            crate::store::lemma_titled_track_row(s3.tracks, p[j].track_title);
        }
    }
    let log_items = match extract_play_logs(plays, &track_rows) {
        Ok(v) => v,
        Err(e) => {
            match e {
                SyncError::Parse(pe) => {
                    return Err(SyncError::Parse(pe));
                },
                _ => {
                    proof {
                        let bad = choose|k: int|
                            0 <= k < plays@.len() && !has_track(
                                tracks_v(track_rows@),
                                #[trigger] plays_v(plays@)[k].track_title,
                            );
                        assert(tracks_v(track_rows@)[bad].title == p[bad].track_title);
                        assert(has_track(tracks_v(track_rows@), p[bad].track_title));
                        assert(false);
                    }
                    unreached()
                },
            }
        },
    };
    proof {
        assert(play_inserts_v(log_items@) =~= log_items_spec(p, s3.tracks)) by {
            assert forall|i: int| 0 <= i < p.len() implies #[trigger] play_inserts_v(log_items@)[i]
                == log_items_spec(p, s3.tracks)[i] by {
                assert(play_inserts_v(log_items@)[i].played_at == spec_stamp(p[i].played_at));
                assert(play_inserts_v(log_items@)[i].track_id == track_titled(
                    tracks_v(track_rows@),
                    p[i].track_title,
                ).id);
                assert(has_track(tracks_v(track_rows@), p[i].track_title)) by {
                    assert(tracks_v(track_rows@)[i].title == p[i].track_title);
                }
                let w = choose|w: int|
                    0 <= w < tracks_v(track_rows@).len() && #[trigger] tracks_v(
                        track_rows@,
                    )[w].title == p[i].track_title;
                assert(tracks_v(track_rows@)[w] == track_titled(s3.tracks, p[w].track_title));
                assert(track_titled(s3.tracks, p[w].track_title).title == p[w].track_title) by {
                    crate::store::lemma_titled_track_row(s3.tracks, p[w].track_title);
                }
                assert(tracks_v(track_rows@)[w] == track_titled(s3.tracks, p[i].track_title));
            }
        }
        assert(play_items_ok(log_items_spec(p, s3.tracks), s3.tracks.len() as int)) by {
            assert forall|i: int| 0 <= i < log_items_spec(p, s3.tracks).len() implies 0
                <= #[trigger] log_items_spec(p, s3.tracks)[i].track_id < s3.tracks.len() by {
                assert(has_track(s3.tracks, p[i].track_title)) by {
                    assert(tracks_v(track_rows@)[i] == track_titled(s3.tracks, p[i].track_title));
                    assert(has_track(s3.tracks, p[i].track_title));
                }
                crate::store::lemma_titled_track_row(s3.tracks, p[i].track_title);
            }
        }
    }
    upsert_playlogs(store, &log_items);
    proof {
        assert(store@ =~= stage_logs(s3, p));
        assert(store@ == sync_spec(s0, p));
    }
    Ok(())
}

} // verus!
