//! The relational store that a synchronization run writes to.
//!
//! Five tables hold the normalized listening history: artists, albums, the
//! album-artist join, tracks, the album-track join, and the play log.  The
//! store is modeled as an in-memory value whose operations mirror the contract
//! the pipeline asks of a storage engine: bulk insert that ignores rows whose
//! natural key is already present, insert that returns the generated id, and
//! lookup by a set of natural keys.  Rows are only ever added, never changed
//! or removed, and every generated id is the row's position in its table.

use vstd::prelude::*;
use crate::dates::Date;

verus! {

/// A storage-layer failure; fatal for the run that meets it.
#[derive(Clone, Copy, PartialEq, Eq, Structural, Debug)]
pub struct DBError;

pub struct ArtistRow {
    pub id: usize,
    pub name: String,
}

pub struct AlbumRow {
    pub id: usize,
    pub title: String,
    pub release_date: Date,
}

pub struct AlbumArtistRow {
    pub album_id: usize,
    pub artist_id: usize,
}

pub struct TrackRow {
    pub id: usize,
    pub title: String,
}

pub struct AlbumTrackRow {
    pub album_id: usize,
    pub track_id: usize,
}

pub struct PlayLogRow {
    pub id: usize,
    pub track_id: usize,
    pub played_at: i64,
}

pub struct ArtistRowV {
    pub id: int,
    pub name: Seq<char>,
}

pub struct AlbumRowV {
    pub id: int,
    pub title: Seq<char>,
    pub release_date: Date,
}

pub struct AlbumArtistRowV {
    pub album_id: int,
    pub artist_id: int,
}

pub struct TrackRowV {
    pub id: int,
    pub title: Seq<char>,
}

pub struct AlbumTrackRowV {
    pub album_id: int,
    pub track_id: int,
}

pub struct PlayLogRowV {
    pub id: int,
    pub track_id: int,
    pub played_at: int,
}

impl View for ArtistRow {
    type V = ArtistRowV;

    open spec fn view(&self) -> ArtistRowV {
        ArtistRowV { id: self.id as int, name: self.name@ }
    }
}

impl View for AlbumRow {
    type V = AlbumRowV;

    open spec fn view(&self) -> AlbumRowV {
        AlbumRowV { id: self.id as int, title: self.title@, release_date: self.release_date }
    }
}

impl View for AlbumArtistRow {
    type V = AlbumArtistRowV;

    open spec fn view(&self) -> AlbumArtistRowV {
        AlbumArtistRowV { album_id: self.album_id as int, artist_id: self.artist_id as int }
    }
}

impl View for TrackRow {
    type V = TrackRowV;

    open spec fn view(&self) -> TrackRowV {
        TrackRowV { id: self.id as int, title: self.title@ }
    }
}

impl View for AlbumTrackRow {
    type V = AlbumTrackRowV;

    open spec fn view(&self) -> AlbumTrackRowV {
        AlbumTrackRowV { album_id: self.album_id as int, track_id: self.track_id as int }
    }
}

impl View for PlayLogRow {
    type V = PlayLogRowV;

    open spec fn view(&self) -> PlayLogRowV {
        PlayLogRowV {
            id: self.id as int,
            track_id: self.track_id as int,
            played_at: self.played_at as int,
        }
    }
}

/// The persisted state of the five tables.
pub struct SyncStore {
    pub artists: Vec<ArtistRow>,
    pub albums: Vec<AlbumRow>,
    pub album_artists: Vec<AlbumArtistRow>,
    pub tracks: Vec<TrackRow>,
    pub album_tracks: Vec<AlbumTrackRow>,
    pub play_logs: Vec<PlayLogRow>,
}

/// The mathematical value of a store: the rows of each table, in insertion
/// order.
#[verifier::ext_equal]
pub struct StoreV {
    pub artists: Seq<ArtistRowV>,
    pub albums: Seq<AlbumRowV>,
    pub album_artists: Seq<AlbumArtistRowV>,
    pub tracks: Seq<TrackRowV>,
    pub album_tracks: Seq<AlbumTrackRowV>,
    pub play_logs: Seq<PlayLogRowV>,
}

impl View for SyncStore {
    type V = StoreV;

    open spec fn view(&self) -> StoreV {
        StoreV {
            artists: self.artists@.map_values(|r: ArtistRow| r@),
            albums: self.albums@.map_values(|r: AlbumRow| r@),
            album_artists: self.album_artists@.map_values(|r: AlbumArtistRow| r@),
            tracks: self.tracks@.map_values(|r: TrackRow| r@),
            album_tracks: self.album_tracks@.map_values(|r: AlbumTrackRow| r@),
            play_logs: self.play_logs@.map_values(|r: PlayLogRow| r@),
        }
    }
}

pub open spec fn has_artist(rows: Seq<ArtistRowV>, name: Seq<char>) -> bool {
    exists|i: int| 0 <= i < rows.len() && #[trigger] rows[i].name == name
}

pub open spec fn artist_named(rows: Seq<ArtistRowV>, name: Seq<char>) -> ArtistRowV {
    rows[choose|i: int| 0 <= i < rows.len() && #[trigger] rows[i].name == name]
}

pub open spec fn has_album(rows: Seq<AlbumRowV>, title: Seq<char>) -> bool {
    exists|i: int| 0 <= i < rows.len() && #[trigger] rows[i].title == title
}

pub open spec fn album_titled(rows: Seq<AlbumRowV>, title: Seq<char>) -> AlbumRowV {
    rows[choose|i: int| 0 <= i < rows.len() && #[trigger] rows[i].title == title]
}

pub open spec fn has_track(rows: Seq<TrackRowV>, title: Seq<char>) -> bool {
    exists|i: int| 0 <= i < rows.len() && #[trigger] rows[i].title == title
}

pub open spec fn track_titled(rows: Seq<TrackRowV>, title: Seq<char>) -> TrackRowV {
    rows[choose|i: int| 0 <= i < rows.len() && #[trigger] rows[i].title == title]
}

pub open spec fn has_album_artist(rows: Seq<AlbumArtistRowV>, album_id: int, artist_id: int) -> bool {
    exists|i: int|
        0 <= i < rows.len() && #[trigger] rows[i] == (AlbumArtistRowV { album_id, artist_id })
}

pub open spec fn has_album_track(rows: Seq<AlbumTrackRowV>, album_id: int, track_id: int) -> bool {
    exists|i: int|
        0 <= i < rows.len() && #[trigger] rows[i] == (AlbumTrackRowV { album_id, track_id })
}

pub open spec fn has_play(rows: Seq<PlayLogRowV>, track_id: int, played_at: int) -> bool {
    exists|i: int|
        0 <= i < rows.len() && #[trigger] rows[i].track_id == track_id && rows[i].played_at
            == played_at
}

impl StoreV {
    /// Every surrogate id is its row's position in its table.
    pub open spec fn ids_are_positions(self) -> bool {
        &&& forall|i: int| 0 <= i < self.artists.len() ==> #[trigger] self.artists[i].id == i
        &&& forall|i: int| 0 <= i < self.albums.len() ==> #[trigger] self.albums[i].id == i
        &&& forall|i: int| 0 <= i < self.tracks.len() ==> #[trigger] self.tracks[i].id == i
        &&& forall|i: int| 0 <= i < self.play_logs.len() ==> #[trigger] self.play_logs[i].id == i
    }

    /// No natural key names two rows: artists by name, albums and tracks by
    /// title, play-log entries by track and time.
    pub open spec fn keys_unique(self) -> bool {
        &&& forall|i: int, j: int|
            0 <= i < j < self.artists.len() ==> #[trigger] self.artists[i].name
                != #[trigger] self.artists[j].name
        &&& forall|i: int, j: int|
            0 <= i < j < self.albums.len() ==> #[trigger] self.albums[i].title
                != #[trigger] self.albums[j].title
        &&& forall|i: int, j: int|
            0 <= i < j < self.tracks.len() ==> #[trigger] self.tracks[i].title
                != #[trigger] self.tracks[j].title
        &&& forall|i: int, j: int|
            0 <= i < j < self.album_artists.len() ==> #[trigger] self.album_artists[i]
                != #[trigger] self.album_artists[j]
        &&& forall|i: int, j: int|
            0 <= i < j < self.album_tracks.len() ==> #[trigger] self.album_tracks[i]
                != #[trigger] self.album_tracks[j]
        &&& forall|i: int, j: int|
            0 <= i < j < self.play_logs.len() ==> !(#[trigger] self.play_logs[i].track_id
                == #[trigger] self.play_logs[j].track_id && self.play_logs[i].played_at
                == self.play_logs[j].played_at)
    }

    /// Every join or log row references a row that exists.
    pub open spec fn refs_valid(self) -> bool {
        &&& forall|i: int|
            0 <= i < self.album_artists.len() ==> 0 <= #[trigger] self.album_artists[i].album_id
                < self.albums.len() && 0 <= self.album_artists[i].artist_id < self.artists.len()
        &&& forall|i: int|
            0 <= i < self.album_tracks.len() ==> 0 <= #[trigger] self.album_tracks[i].album_id
                < self.albums.len() && 0 <= self.album_tracks[i].track_id < self.tracks.len()
        &&& forall|i: int|
            0 <= i < self.play_logs.len() ==> 0 <= #[trigger] self.play_logs[i].track_id
                < self.tracks.len()
    }

    /// The store's well-formedness invariant: positional ids, unique natural
    /// keys, and referential integrity.  Every operation of the store
    /// preserves it.
    pub open spec fn wf(self) -> bool {
        self.ids_are_positions() && self.keys_unique() && self.refs_valid()
    }
}

pub open spec fn artists_v(rows: Seq<ArtistRow>) -> Seq<ArtistRowV> {
    rows.map_values(|r: ArtistRow| r@)
}

pub open spec fn names_v(names: Seq<String>) -> Seq<Seq<char>> {
    names.map_values(|s: String| s@)
}

/// The artist table after a bulk insert of `names` that ignores a name
/// already present: each new name, in order, becomes a row whose id is its
/// position.
pub open spec fn add_artists(rows: Seq<ArtistRowV>, names: Seq<Seq<char>>) -> Seq<ArtistRowV>
    decreases names.len(),
{
    if names.len() == 0 {
        rows
    } else {
        let prev = add_artists(rows, names.drop_last());
        if has_artist(prev, names.last()) {
            prev
        } else {
            prev.push(ArtistRowV { id: prev.len() as int, name: names.last() })
        }
    }
}

/// The distinct elements of `names`, each at its first appearance.
pub open spec fn distinct_names(names: Seq<Seq<char>>) -> Seq<Seq<char>>
    decreases names.len(),
{
    if names.len() == 0 {
        Seq::empty()
    } else {
        let prev = distinct_names(names.drop_last());
        if prev.contains(names.last()) {
            prev
        } else {
            prev.push(names.last())
        }
    }
}

/// The rows that resolve `names` against `rows`: one per distinct name, in
/// first-appearance order.
pub open spec fn resolved_artists(rows: Seq<ArtistRowV>, names: Seq<Seq<char>>) -> Seq<ArtistRowV> {
    distinct_names(names).map_values(|n: Seq<char>| artist_named(rows, n))
}

/// Deduplication neither adds nor loses a name.
pub proof fn lemma_distinct_names_has(names: Seq<Seq<char>>, n: Seq<char>)
    ensures
        distinct_names(names).contains(n) <==> names.contains(n),
    decreases names.len(),
{
    if names.len() > 0 {
        lemma_distinct_names_has(names.drop_last(), n);
        let prev = distinct_names(names.drop_last());
        let res = distinct_names(names);
        if res.contains(n) {
            let w = choose|i: int| 0 <= i < res.len() && #[trigger] res[i] == n;
            if w < prev.len() {
                assert(prev[w] == n);
                assert(prev.contains(n));
                let j = choose|j: int|
                    0 <= j < names.drop_last().len() && #[trigger] names.drop_last()[j] == n;
                assert(names[j] == n);
            } else {
                assert(names[names.len() - 1] == n);
            }
        }
        if names.contains(n) {
            let j = choose|j: int| 0 <= j < names.len() && #[trigger] names[j] == n;
            if j < names.len() - 1 {
                assert(names.drop_last()[j] == n);
                assert(names.drop_last().contains(n));
                let w = choose|i: int| 0 <= i < prev.len() && #[trigger] prev[i] == n;
                assert(res[w] == n);
            } else {
                if prev.contains(n) {
                    let w = choose|i: int| 0 <= i < prev.len() && #[trigger] prev[i] == n;
                    assert(res[w] == n);
                } else {
                    assert(res[res.len() - 1] == n);
                }
            }
        }
    }
}

/// A row found by name is a real row: its name matches, and under positional
/// ids its id is a valid position.
pub proof fn lemma_named_row(table: Seq<ArtistRowV>, n: Seq<char>)
    requires
        has_artist(table, n),
        forall|i: int| 0 <= i < table.len() ==> #[trigger] table[i].id == i,
    ensures
        artist_named(table, n).name == n,
        0 <= artist_named(table, n).id < table.len(),
{
    let w = choose|i: int| 0 <= i < table.len() && #[trigger] table[i].name == n;
    assert(table[w].id == w);
}

/// A row found by title is a real row: its title matches, and under
/// positional ids its id is a valid position.
pub proof fn lemma_titled_album_row(table: Seq<AlbumRowV>, t: Seq<char>)
    requires
        has_album(table, t),
        forall|i: int| 0 <= i < table.len() ==> #[trigger] table[i].id == i,
    ensures
        album_titled(table, t).title == t,
        0 <= album_titled(table, t).id < table.len(),
{
    let w = choose|i: int| 0 <= i < table.len() && #[trigger] table[i].title == t;
    assert(table[w].id == w);
}

/// A row found by title is a real row: its title matches, and under
/// positional ids its id is a valid position.
pub proof fn lemma_titled_track_row(table: Seq<TrackRowV>, t: Seq<char>)
    requires
        has_track(table, t),
        forall|i: int| 0 <= i < table.len() ==> #[trigger] table[i].id == i,
    ensures
        track_titled(table, t).title == t,
        0 <= track_titled(table, t).id < table.len(),
{
    let w = choose|i: int| 0 <= i < table.len() && #[trigger] table[i].title == t;
    assert(table[w].id == w);
}

/// Deduplication leaves no repeated name.
pub proof fn lemma_distinct_names_unique(names: Seq<Seq<char>>)
    ensures
        forall|i: int, j: int|
            0 <= i < j < distinct_names(names).len() ==> #[trigger] distinct_names(names)[i]
                != #[trigger] distinct_names(names)[j],
    decreases names.len(),
{
    if names.len() > 0 {
        lemma_distinct_names_unique(names.drop_last());
        let prev = distinct_names(names.drop_last());
        let res = distinct_names(names);
        if !prev.contains(names.last()) {
            assert forall|i: int, j: int| 0 <= i < j < res.len() implies #[trigger] res[i]
                != #[trigger] res[j] by {
                if j == res.len() - 1 {
                    assert(prev[i] == res[i]);
                    assert(prev.contains(prev[i]));
                }
            }
        }
    }
}

/// What a bulk insert-ignore of artist names leaves behind: the old rows as a
/// prefix, every requested name present, and no name that was neither present
/// nor requested.
pub proof fn lemma_add_artists(rows: Seq<ArtistRowV>, names: Seq<Seq<char>>)
    ensures
        rows.is_prefix_of(add_artists(rows, names)),
        forall|k: int|
            0 <= k < names.len() ==> has_artist(add_artists(rows, names), #[trigger] names[k]),
        forall|n: Seq<char>|
            #[trigger] has_artist(add_artists(rows, names), n) ==> has_artist(rows, n)
                || names.contains(n),
    decreases names.len(),
{
    if names.len() > 0 {
        let prev = add_artists(rows, names.drop_last());
        lemma_add_artists(rows, names.drop_last());
        assert forall|k: int| 0 <= k < names.len() implies has_artist(
            add_artists(rows, names),
            #[trigger] names[k],
        ) by {
            if k < names.len() - 1 {
                assert(names.drop_last()[k] == names[k]);
                assert(has_artist(prev, names[k]));
                let w = choose|i: int| 0 <= i < prev.len() && #[trigger] prev[i].name == names[k];
                assert(add_artists(rows, names)[w].name == names[k]);
            } else {
                if has_artist(prev, names.last()) {
                } else {
                    let res = add_artists(rows, names);
                    assert(res[res.len() - 1].name == names.last());
                }
            }
        }
        assert forall|n: Seq<char>| #[trigger]
            has_artist(add_artists(rows, names), n) implies has_artist(rows, n)
            || names.contains(n) by {
            let res = add_artists(rows, names);
            let w = choose|i: int| 0 <= i < res.len() && #[trigger] res[i].name == n;
            if w < prev.len() {
                assert(has_artist(prev, n));
                if !has_artist(rows, n) {
                    let k = choose|k: int|
                        0 <= k < names.drop_last().len() && #[trigger] names.drop_last()[k] == n;
                    assert(names[k] == n);
                }
            } else {
                assert(res[w].name == names.last());
                assert(names[names.len() - 1] == n);
            }
        }
    }
}

/// Bulk insert-ignore keeps positional ids and name uniqueness.
pub proof fn lemma_add_artists_wf(rows: Seq<ArtistRowV>, names: Seq<Seq<char>>)
    requires
        forall|i: int| 0 <= i < rows.len() ==> #[trigger] rows[i].id == i,
        forall|i: int, j: int|
            0 <= i < j < rows.len() ==> #[trigger] rows[i].name != #[trigger] rows[j].name,
    ensures
        forall|i: int|
            0 <= i < add_artists(rows, names).len() ==> #[trigger] add_artists(rows, names)[i].id
                == i,
        forall|i: int, j: int|
            0 <= i < j < add_artists(rows, names).len() ==> #[trigger] add_artists(
                rows,
                names,
            )[i].name != #[trigger] add_artists(rows, names)[j].name,
    decreases names.len(),
{
    if names.len() > 0 {
        lemma_add_artists_wf(rows, names.drop_last());
        let prev = add_artists(rows, names.drop_last());
        let res = add_artists(rows, names);
        if !has_artist(prev, names.last()) {
            assert forall|i: int, j: int| 0 <= i < j < res.len() implies #[trigger] res[i].name
                != #[trigger] res[j].name by {
                if j == res.len() - 1 {
                    assert(!(prev[i].name == names.last()));
                }
            }
        }
    }
}

/// Bulk insert-ignore of names all already present changes nothing.
pub proof fn lemma_add_artists_noop(rows: Seq<ArtistRowV>, names: Seq<Seq<char>>)
    requires
        forall|k: int| 0 <= k < names.len() ==> has_artist(rows, #[trigger] names[k]),
    ensures
        add_artists(rows, names) == rows,
    decreases names.len(),
{
    if names.len() > 0 {
        assert forall|k: int| 0 <= k < names.drop_last().len() implies has_artist(
            rows,
            #[trigger] names.drop_last()[k],
        ) by {
            assert(names.drop_last()[k] == names[k]);
        }
        lemma_add_artists_noop(rows, names.drop_last());
        assert(names[names.len() - 1] == names.last());
    }
}

/// Linking artists to an album keeps earlier links, adds the requested ones,
/// and adds nothing else; uniqueness of pairs and validity of references are
/// kept.
pub proof fn lemma_add_album_artists_props(
    pairs: Seq<AlbumArtistRowV>,
    album_id: int,
    artist_ids: Seq<int>,
)
    ensures
        pairs.is_prefix_of(add_album_artists(pairs, album_id, artist_ids)),
        forall|j: int|
            0 <= j < artist_ids.len() ==> has_album_artist(
                add_album_artists(pairs, album_id, artist_ids),
                album_id,
                #[trigger] artist_ids[j],
            ),
        forall|i: int|
            0 <= i < add_album_artists(pairs, album_id, artist_ids).len() ==> (#[trigger] add_album_artists(
                pairs,
                album_id,
                artist_ids,
            )[i] == pairs[i] && 0 <= i < pairs.len()) || (add_album_artists(
                pairs,
                album_id,
                artist_ids,
            )[i].album_id == album_id && artist_ids.contains(
                add_album_artists(pairs, album_id, artist_ids)[i].artist_id,
            )),
    decreases artist_ids.len(),
{
    if artist_ids.len() > 0 {
        lemma_add_album_artists_props(pairs, album_id, artist_ids.drop_last());
        let prev = add_album_artists(pairs, album_id, artist_ids.drop_last());
        let res = add_album_artists(pairs, album_id, artist_ids);
        assert forall|j: int| 0 <= j < artist_ids.len() implies has_album_artist(
            res,
            album_id,
            #[trigger] artist_ids[j],
        ) by {
            if j < artist_ids.len() - 1 {
                assert(artist_ids.drop_last()[j] == artist_ids[j]);
                assert(has_album_artist(prev, album_id, artist_ids[j]));
                let w = choose|i: int|
                    0 <= i < prev.len() && #[trigger] prev[i] == (AlbumArtistRowV {
                        album_id,
                        artist_id: artist_ids[j],
                    });
                assert(res[w] == (AlbumArtistRowV { album_id, artist_id: artist_ids[j] }));
            } else {
                if has_album_artist(prev, album_id, artist_ids.last()) {
                    let w = choose|i: int|
                        0 <= i < prev.len() && #[trigger] prev[i] == (AlbumArtistRowV {
                            album_id,
                            artist_id: artist_ids.last(),
                        });
                    assert(res[w] == (AlbumArtistRowV {
                        album_id,
                        artist_id: artist_ids.last(),
                    }));
                } else {
                    assert(res[res.len() - 1] == (AlbumArtistRowV {
                        album_id,
                        artist_id: artist_ids.last(),
                    }));
                }
            }
        }
        assert forall|i: int| 0 <= i < res.len() implies (#[trigger] res[i] == pairs[i] && 0 <= i
            < pairs.len()) || (res[i].album_id == album_id && artist_ids.contains(
            res[i].artist_id,
        )) by {
            if i < prev.len() {
                assert((prev[i] == pairs[i] && 0 <= i < pairs.len()) || (prev[i].album_id
                    == album_id && artist_ids.drop_last().contains(prev[i].artist_id)));
                if !(prev[i] == pairs[i] && 0 <= i < pairs.len()) {
                    let w = choose|w: int|
                        0 <= w < artist_ids.drop_last().len() && #[trigger] artist_ids.drop_last()[w]
                            == prev[i].artist_id;
                    assert(artist_ids[w] == prev[i].artist_id);
                }
            } else {
                assert(res[i].artist_id == artist_ids[artist_ids.len() - 1]);
            }
        }
    }
}

/// Linking pairs that are all already present changes nothing.
pub proof fn lemma_add_album_artists_noop(
    pairs: Seq<AlbumArtistRowV>,
    album_id: int,
    artist_ids: Seq<int>,
)
    requires
        forall|j: int|
            0 <= j < artist_ids.len() ==> has_album_artist(pairs, album_id, #[trigger] artist_ids[j]),
    ensures
        add_album_artists(pairs, album_id, artist_ids) == pairs,
    decreases artist_ids.len(),
{
    if artist_ids.len() > 0 {
        assert forall|j: int| 0 <= j < artist_ids.drop_last().len() implies has_album_artist(
            pairs,
            album_id,
            #[trigger] artist_ids.drop_last()[j],
        ) by {
            assert(artist_ids.drop_last()[j] == artist_ids[j]);
        }
        lemma_add_album_artists_noop(pairs, album_id, artist_ids.drop_last());
        assert(artist_ids[artist_ids.len() - 1] == artist_ids.last());
    }
}

/// A row found by name does not move while rows are only appended and names
/// stay unique.
pub proof fn lemma_artist_named_stable(rows1: Seq<ArtistRowV>, rows2: Seq<ArtistRowV>, n: Seq<char>)
    requires
        rows1.is_prefix_of(rows2),
        has_artist(rows1, n),
        forall|i: int, j: int|
            0 <= i < j < rows2.len() ==> #[trigger] rows2[i].name != #[trigger] rows2[j].name,
    ensures
        artist_named(rows2, n) == artist_named(rows1, n),
{
    let i1 = choose|i: int| 0 <= i < rows1.len() && #[trigger] rows1[i].name == n;
    assert(rows2[i1].name == n);
    assert(has_artist(rows2, n));
    let i2 = choose|i: int| 0 <= i < rows2.len() && #[trigger] rows2[i].name == n;
    assert(i1 == i2);
}

pub(crate) fn find_artist(rows: &Vec<ArtistRow>, name: &String) -> (r: Option<usize>)
    ensures
        match r {
            Some(i) => i < rows.len() && rows@[i as int]@.name == name@,
            None => !has_artist(artists_v(rows@), name@),
        },
{
    let mut i: usize = 0;
    while i < rows.len()
        invariant
            i <= rows.len(),
            forall|j: int| 0 <= j < i ==> #[trigger] artists_v(rows@)[j].name != name@,
        decreases rows.len() - i,
    {
        if rows[i].name == *name {
            assert(artists_v(rows@)[i as int].name == name@);
            return Some(i);
        }
        assert(artists_v(rows@)[i as int].name != name@);
        i = i + 1;
    }
    None
}

fn vec_has_name(rows: &Vec<ArtistRow>, name: &String) -> (r: bool)
    ensures
        r == has_artist(artists_v(rows@), name@),
{
    match find_artist(rows, name) {
        Some(i) => {
            assert(artists_v(rows@)[i as int].name == name@);
            true
        },
        None => false,
    }
}

/// Stage one of a run: bulk insert-ignore of artist names on the natural key
/// `name`, then one lookup that resolves every requested name — new or
/// pre-existing — to its persisted row.  Returns one row per distinct
/// requested name, in first-appearance order; a pre-existing name keeps the
/// id it already had.
pub fn upsert_artists(store: &mut SyncStore, names: &Vec<String>) -> (r: Vec<ArtistRow>)
    requires
        old(store)@.wf(),
    ensures
        final(store)@.wf(),
        final(store)@.artists == add_artists(old(store)@.artists, names_v(names@)),
        final(store)@.albums == old(store)@.albums,
        final(store)@.album_artists == old(store)@.album_artists,
        final(store)@.tracks == old(store)@.tracks,
        final(store)@.album_tracks == old(store)@.album_tracks,
        final(store)@.play_logs == old(store)@.play_logs,
        artists_v(r@) == resolved_artists(final(store)@.artists, names_v(names@)),
{
    let ghost rows0 = store@.artists;
    let ghost nv = names_v(names@);
    let mut k: usize = 0;
    while k < names.len()
        invariant
            k <= names.len(),
            store@.wf(),
            store@.artists == add_artists(rows0, nv.subrange(0, k as int)),
            store@.albums == old(store)@.albums,
            store@.album_artists == old(store)@.album_artists,
            store@.tracks == old(store)@.tracks,
            store@.album_tracks == old(store)@.album_tracks,
            store@.play_logs == old(store)@.play_logs,
            rows0 == old(store)@.artists,
            nv == names_v(names@),
        decreases names.len() - k,
    {
        let ghost pre = store@.artists;
        proof {
            assert(nv.subrange(0, k + 1).drop_last() =~= nv.subrange(0, k as int));
            assert(nv.subrange(0, k + 1).last() == names@[k as int]@);
        }
        if !vec_has_name(&store.artists, &names[k]) {
            let row = ArtistRow { id: store.artists.len(), name: names[k].clone() };
            store.artists.push(row);
            proof {
                assert(artists_v(store.artists@) =~= pre.push(
                    ArtistRowV { id: pre.len() as int, name: names@[k as int]@ },
                ));
            }
        }
        k = k + 1;
    }
    proof {
        assert(nv.subrange(0, names.len() as int) =~= nv);
        lemma_add_artists(rows0, nv);
        lemma_add_artists_wf(rows0, nv);
    }
    let ghost rows1 = store@.artists;
    let mut out: Vec<ArtistRow> = Vec::new();
    let mut k: usize = 0;
    while k < names.len()
        invariant
            k <= names.len(),
            store@.wf(),
            rows1 == store@.artists,
            rows1 == add_artists(rows0, nv),
            nv == names_v(names@),
            forall|j: int|
                0 <= j < nv.len() ==> has_artist(rows1, #[trigger] nv[j]),
            artists_v(out@) == resolved_artists(rows1, nv.subrange(0, k as int)),
            forall|j: int|
                0 <= j < out@.len() ==> #[trigger] artists_v(out@)[j].name == distinct_names(
                    nv.subrange(0, k as int),
                )[j],
        decreases names.len() - k,
    {
        let ghost dpre = distinct_names(nv.subrange(0, k as int));
        proof {
            assert(nv.subrange(0, k + 1).drop_last() =~= nv.subrange(0, k as int));
            assert(nv.subrange(0, k + 1).last() == names@[k as int]@);
        }
        let seen = vec_has_name(&out, &names[k]);
        proof {
            if seen {
                let w = choose|i: int|
                    0 <= i < artists_v(out@).len() && #[trigger] artists_v(out@)[i].name
                        == names@[k as int]@;
                assert(dpre[w] == names@[k as int]@);
                assert(dpre.contains(names@[k as int]@));
            } else {
                assert forall|i: int| 0 <= i < dpre.len() implies #[trigger] dpre[i]
                    != names@[k as int]@ by {
                    assert(artists_v(out@)[i].name == dpre[i]);
                }
                assert(!dpre.contains(names@[k as int]@));
            }
        }
        if !seen {
            match find_artist(&store.artists, &names[k]) {
                Some(i) => {
                    let row = ArtistRow { id: store.artists[i].id, name: store.artists[i].name.clone() };
                    proof {
                        let w = choose|j: int|
                            0 <= j < rows1.len() && #[trigger] rows1[j].name == names@[k as int]@;
                        assert(store@.artists[w].name == store@.artists[i as int].name);
                        if w < i as int {
                            assert(store@.artists[w].name != store@.artists[i as int].name);
                        } else if (i as int) < w {
                            assert(store@.artists[i as int].name != store@.artists[w].name);
                        }
                        assert(w == i as int);
                        assert(row@ == artist_named(rows1, names@[k as int]@));
                        assert(artists_v(out@.push(row)) =~= artists_v(out@).push(row@));
                        assert(distinct_names(nv.subrange(0, k + 1)) =~= dpre.push(
                            names@[k as int]@,
                        ));
                        assert(artists_v(out@).push(row@) =~= resolved_artists(
                            rows1,
                            nv.subrange(0, k + 1),
                        ));
                    }
                    out.push(row);
                },
                None => {
                    proof {
                        assert(has_artist(rows1, nv[k as int]));
                        assert(false);
                    }
                },
            }
        } else {
            proof {
                assert(resolved_artists(rows1, nv.subrange(0, k + 1)) == resolved_artists(
                    rows1,
                    nv.subrange(0, k as int),
                ));
            }
        }
        k = k + 1;
    }
    proof {
        assert(nv.subrange(0, names.len() as int) =~= nv);
    }
    out
}

/// One album to persist: its natural key, parsed release date, and the
/// already-resolved ids of its artists.
pub struct AlbumInsert {
    pub title: String,
    pub release_date: Date,
    pub artist_ids: Vec<usize>,
}

pub struct AlbumInsertV {
    pub title: Seq<char>,
    pub release_date: Date,
    pub artist_ids: Seq<int>,
}

impl View for AlbumInsert {
    type V = AlbumInsertV;

    open spec fn view(&self) -> AlbumInsertV {
        AlbumInsertV {
            title: self.title@,
            release_date: self.release_date,
            artist_ids: self.artist_ids@.map_values(|x: usize| x as int),
        }
    }
}

pub open spec fn albums_v(rows: Seq<AlbumRow>) -> Seq<AlbumRowV> {
    rows.map_values(|r: AlbumRow| r@)
}

pub open spec fn album_inserts_v(items: Seq<AlbumInsert>) -> Seq<AlbumInsertV> {
    items.map_values(|r: AlbumInsert| r@)
}

pub open spec fn album_items_ok(items: Seq<AlbumInsertV>, artist_count: int) -> bool {
    forall|i: int, j: int|
        0 <= i < items.len() && 0 <= j < items[i].artist_ids.len() ==> 0
            <= #[trigger] items[i].artist_ids[j] < artist_count
}

/// The album-artist join after linking `artist_ids` to `album_id`, ignoring a
/// pair already present.
pub open spec fn add_album_artists(
    pairs: Seq<AlbumArtistRowV>,
    album_id: int,
    artist_ids: Seq<int>,
) -> Seq<AlbumArtistRowV>
    decreases artist_ids.len(),
{
    if artist_ids.len() == 0 {
        pairs
    } else {
        let prev = add_album_artists(pairs, album_id, artist_ids.drop_last());
        if has_album_artist(prev, album_id, artist_ids.last()) {
            prev
        } else {
            prev.push(AlbumArtistRowV { album_id, artist_id: artist_ids.last() })
        }
    }
}

/// The store after the album stage has written `items`, in order: each item's
/// album row is reused by title or newly inserted, and its artist links are
/// added where missing.
pub open spec fn add_albums(s: StoreV, items: Seq<AlbumInsertV>) -> StoreV
    decreases items.len(),
{
    if items.len() == 0 {
        s
    } else {
        let prev = add_albums(s, items.drop_last());
        let it = items.last();
        let albums2 = if has_album(prev.albums, it.title) {
            prev.albums
        } else {
            prev.albums.push(
                AlbumRowV {
                    id: prev.albums.len() as int,
                    title: it.title,
                    release_date: it.release_date,
                },
            )
        };
        let aid = if has_album(prev.albums, it.title) {
            album_titled(prev.albums, it.title).id
        } else {
            prev.albums.len() as int
        };
        StoreV {
            albums: albums2,
            album_artists: add_album_artists(prev.album_artists, aid, it.artist_ids),
            ..prev
        }
    }
}

/// Linking artists to an album keeps pairs unique and references valid.
pub proof fn lemma_add_album_artists_wf(
    pairs: Seq<AlbumArtistRowV>,
    album_id: int,
    artist_ids: Seq<int>,
    album_count: int,
    artist_count: int,
)
    requires
        forall|i: int, j: int| 0 <= i < j < pairs.len() ==> #[trigger] pairs[i] != #[trigger] pairs[j],
        forall|i: int|
            0 <= i < pairs.len() ==> 0 <= #[trigger] pairs[i].album_id < album_count && 0
                <= pairs[i].artist_id < artist_count,
        0 <= album_id < album_count,
        forall|j: int| 0 <= j < artist_ids.len() ==> 0 <= #[trigger] artist_ids[j] < artist_count,
    ensures
        forall|i: int, j: int|
            0 <= i < j < add_album_artists(pairs, album_id, artist_ids).len()
                ==> #[trigger] add_album_artists(pairs, album_id, artist_ids)[i]
                != #[trigger] add_album_artists(pairs, album_id, artist_ids)[j],
        forall|i: int|
            0 <= i < add_album_artists(pairs, album_id, artist_ids).len() ==> 0
                <= #[trigger] add_album_artists(pairs, album_id, artist_ids)[i].album_id
                < album_count && 0 <= add_album_artists(pairs, album_id, artist_ids)[i].artist_id
                < artist_count,
    decreases artist_ids.len(),
{
    if artist_ids.len() > 0 {
        assert forall|j: int| 0 <= j < artist_ids.drop_last().len() implies 0
            <= #[trigger] artist_ids.drop_last()[j] < artist_count by {
            assert(artist_ids.drop_last()[j] == artist_ids[j]);
        }
        lemma_add_album_artists_wf(pairs, album_id, artist_ids.drop_last(), album_count, artist_count);
        let prev = add_album_artists(pairs, album_id, artist_ids.drop_last());
        let res = add_album_artists(pairs, album_id, artist_ids);
        if !has_album_artist(prev, album_id, artist_ids.last()) {
            assert(artist_ids[artist_ids.len() - 1] == artist_ids.last());
            assert forall|i: int, j: int| 0 <= i < j < res.len() implies #[trigger] res[i]
                != #[trigger] res[j] by {
                if j == res.len() - 1 {
                    assert(!(prev[i] == (AlbumArtistRowV {
                        album_id,
                        artist_id: artist_ids.last(),
                    })));
                }
            }
        }
    }
}

/// A row found by title does not move while rows are only appended and titles
/// stay unique.
pub proof fn lemma_album_titled_stable(rows1: Seq<AlbumRowV>, rows2: Seq<AlbumRowV>, t: Seq<char>)
    requires
        rows1.is_prefix_of(rows2),
        has_album(rows1, t),
        forall|i: int, j: int|
            0 <= i < j < rows2.len() ==> #[trigger] rows2[i].title != #[trigger] rows2[j].title,
    ensures
        album_titled(rows2, t) == album_titled(rows1, t),
        has_album(rows2, t),
{
    let i1 = choose|i: int| 0 <= i < rows1.len() && #[trigger] rows1[i].title == t;
    assert(rows2[i1].title == t);
    let i2 = choose|i: int| 0 <= i < rows2.len() && #[trigger] rows2[i].title == t;
    assert(i1 == i2);
}

/// The album stage touches only the album table and its artist links.
pub proof fn lemma_add_albums_frame(s: StoreV, items: Seq<AlbumInsertV>)
    ensures
        add_albums(s, items).artists == s.artists,
        add_albums(s, items).tracks == s.tracks,
        add_albums(s, items).album_tracks == s.album_tracks,
        add_albums(s, items).play_logs == s.play_logs,
    decreases items.len(),
{
    if items.len() > 0 {
        lemma_add_albums_frame(s, items.drop_last());
    }
}

/// What the album stage leaves behind: the old rows as prefixes, positional
/// ids and unique titles kept, every requested album present, every
/// requested artist link present under the persisted album's id, pairs
/// unique, and every link referencing a real album and a real artist.
pub proof fn lemma_add_albums_props(s: StoreV, items: Seq<AlbumInsertV>, artist_count: int)
    requires
        forall|i: int| 0 <= i < s.albums.len() ==> #[trigger] s.albums[i].id == i,
        forall|i: int, j: int|
            0 <= i < j < s.albums.len() ==> #[trigger] s.albums[i].title
                != #[trigger] s.albums[j].title,
        forall|i: int, j: int|
            0 <= i < j < s.album_artists.len() ==> #[trigger] s.album_artists[i]
                != #[trigger] s.album_artists[j],
        forall|i: int|
            0 <= i < s.album_artists.len() ==> 0 <= #[trigger] s.album_artists[i].album_id
                < s.albums.len() && 0 <= s.album_artists[i].artist_id < artist_count,
        album_items_ok(items, artist_count),
    ensures
        ({
            let r = add_albums(s, items);
            &&& forall|i: int| 0 <= i < r.albums.len() ==> #[trigger] r.albums[i].id == i
            &&& forall|i: int, j: int|
                0 <= i < j < r.albums.len() ==> #[trigger] r.albums[i].title
                    != #[trigger] r.albums[j].title
            &&& s.albums.is_prefix_of(r.albums)
            &&& s.album_artists.is_prefix_of(r.album_artists)
            &&& forall|i: int, j: int|
                0 <= i < j < r.album_artists.len() ==> #[trigger] r.album_artists[i]
                    != #[trigger] r.album_artists[j]
            &&& forall|i: int|
                0 <= i < r.album_artists.len() ==> 0 <= #[trigger] r.album_artists[i].album_id
                    < r.albums.len() && 0 <= r.album_artists[i].artist_id < artist_count
            &&& forall|k: int|
                0 <= k < items.len() ==> has_album(r.albums, #[trigger] items[k].title)
            &&& forall|k: int, j: int|
                0 <= k < items.len() && 0 <= j < items[k].artist_ids.len() ==> has_album_artist(
                    r.album_artists,
                    album_titled(r.albums, items[k].title).id,
                    #[trigger] items[k].artist_ids[j],
                )
        }),
    decreases items.len(),
{
    if items.len() > 0 {
        assert(album_items_ok(items.drop_last(), artist_count)) by {
            assert forall|i: int, j: int|
                0 <= i < items.drop_last().len() && 0 <= j
                    < items.drop_last()[i].artist_ids.len() implies 0 <= #[trigger] items.drop_last()[i].artist_ids[j]
                < artist_count by {
                assert(items.drop_last()[i] == items[i]);
            }
        }
        lemma_add_albums_props(s, items.drop_last(), artist_count);
        let prev = add_albums(s, items.drop_last());
        let r = add_albums(s, items);
        let it = items.last();
        assert(forall|j: int|
            0 <= j < it.artist_ids.len() ==> 0 <= #[trigger] it.artist_ids[j] < artist_count) by {
            assert(items[items.len() - 1] == it);
        }
        let aid = if has_album(prev.albums, it.title) {
            album_titled(prev.albums, it.title).id
        } else {
            prev.albums.len() as int
        };
        if has_album(prev.albums, it.title) {
            lemma_titled_album_row(prev.albums, it.title);
        }
        assert(0 <= aid < r.albums.len());
        lemma_add_album_artists_props(prev.album_artists, aid, it.artist_ids);
        lemma_add_album_artists_wf(
            prev.album_artists,
            aid,
            it.artist_ids,
            r.albums.len() as int,
            artist_count,
        );
        assert forall|i: int, j: int| 0 <= i < j < r.albums.len() implies #[trigger] r.albums[i].title
            != #[trigger] r.albums[j].title by {
            if !has_album(prev.albums, it.title) && j == r.albums.len() - 1 {
                assert(!(prev.albums[i].title == it.title));
            }
        }
        // every older pair still references a real album: the table only grew
        assert forall|i: int|
            0 <= i < r.album_artists.len() implies 0 <= #[trigger] r.album_artists[i].album_id
            < r.albums.len() && 0 <= r.album_artists[i].artist_id < artist_count by {}
        assert forall|k: int| 0 <= k < items.len() implies has_album(
            r.albums,
            #[trigger] items[k].title,
        ) by {
            if k < items.len() - 1 {
                assert(items.drop_last()[k] == items[k]);
                assert(has_album(prev.albums, items[k].title));
                let w = choose|i: int|
                    0 <= i < prev.albums.len() && #[trigger] prev.albums[i].title == items[k].title;
                assert(r.albums[w].title == items[k].title);
            } else {
                if has_album(prev.albums, it.title) {
                    let w = choose|i: int|
                        0 <= i < prev.albums.len() && #[trigger] prev.albums[i].title == it.title;
                    assert(r.albums[w].title == it.title);
                } else {
                    assert(r.albums[r.albums.len() - 1].title == it.title);
                }
            }
        }
        assert forall|k: int, j: int|
            0 <= k < items.len() && 0 <= j < items[k].artist_ids.len() implies has_album_artist(
            r.album_artists,
            album_titled(r.albums, items[k].title).id,
            #[trigger] items[k].artist_ids[j],
        ) by {
            if k < items.len() - 1 {
                assert(items.drop_last()[k] == items[k]);
                assert(has_album(prev.albums, items[k].title));
                assert(has_album_artist(
                    prev.album_artists,
                    album_titled(prev.albums, items[k].title).id,
                    items[k].artist_ids[j],
                ));
                lemma_album_titled_stable(prev.albums, r.albums, items[k].title);
                let w = choose|i: int|
                    0 <= i < prev.album_artists.len() && #[trigger] prev.album_artists[i]
                        == (AlbumArtistRowV {
                        album_id: album_titled(prev.albums, items[k].title).id,
                        artist_id: items[k].artist_ids[j],
                    });
                assert(r.album_artists[w] == prev.album_artists[w]);
            } else {
                assert(has_album_artist(r.album_artists, aid, it.artist_ids[j]));
                if has_album(prev.albums, it.title) {
                    lemma_album_titled_stable(prev.albums, r.albums, it.title);
                } else {
                    assert(r.albums[r.albums.len() - 1].title == it.title);
                    assert(has_album(r.albums, it.title));
                    let w = choose|i: int|
                        0 <= i < r.albums.len() && #[trigger] r.albums[i].title == it.title;
                    if w < r.albums.len() - 1 {
                        assert(r.albums[w].title != r.albums[r.albums.len() - 1].title);
                    }
                    assert(album_titled(r.albums, it.title).id == aid);
                }
            }
        }
    }
}

/// An album stage whose albums and links are all already present changes
/// nothing.
pub proof fn lemma_add_albums_noop(s: StoreV, items: Seq<AlbumInsertV>)
    requires
        forall|k: int| 0 <= k < items.len() ==> has_album(s.albums, #[trigger] items[k].title),
        forall|k: int, j: int|
            0 <= k < items.len() && 0 <= j < items[k].artist_ids.len() ==> has_album_artist(
                s.album_artists,
                album_titled(s.albums, items[k].title).id,
                #[trigger] items[k].artist_ids[j],
            ),
    ensures
        add_albums(s, items) == s,
    decreases items.len(),
{
    if items.len() > 0 {
        assert forall|k: int| 0 <= k < items.drop_last().len() implies has_album(
            s.albums,
            #[trigger] items.drop_last()[k].title,
        ) by {
            assert(items.drop_last()[k] == items[k]);
        }
        assert forall|k: int, j: int|
            0 <= k < items.drop_last().len() && 0 <= j
                < items.drop_last()[k].artist_ids.len() implies has_album_artist(
            s.album_artists,
            album_titled(s.albums, items.drop_last()[k].title).id,
            #[trigger] items.drop_last()[k].artist_ids[j],
        ) by {
            assert(items.drop_last()[k] == items[k]);
        }
        lemma_add_albums_noop(s, items.drop_last());
        let it = items.last();
        assert(items[items.len() - 1] == it);
        assert(has_album(s.albums, it.title));
        assert forall|j: int| 0 <= j < it.artist_ids.len() implies has_album_artist(
            s.album_artists,
            album_titled(s.albums, it.title).id,
            #[trigger] it.artist_ids[j],
        ) by {}
        lemma_add_album_artists_noop(
            s.album_artists,
            album_titled(s.albums, it.title).id,
            it.artist_ids,
        );
        assert(add_albums(s, items) =~= s);
    }
}

pub(crate) fn find_album(rows: &Vec<AlbumRow>, title: &String) -> (r: Option<usize>)
    ensures
        match r {
            Some(i) => i < rows.len() && rows@[i as int]@.title == title@,
            None => !has_album(albums_v(rows@), title@),
        },
{
    let mut i: usize = 0;
    while i < rows.len()
        invariant
            i <= rows.len(),
            forall|j: int| 0 <= j < i ==> #[trigger] albums_v(rows@)[j].title != title@,
        decreases rows.len() - i,
    {
        if rows[i].title == *title {
            assert(albums_v(rows@)[i as int].title == title@);
            return Some(i);
        }
        assert(albums_v(rows@)[i as int].title != title@);
        i = i + 1;
    }
    None
}

fn has_pair(rows: &Vec<AlbumArtistRow>, album_id: usize, artist_id: usize) -> (r: bool)
    ensures
        r == has_album_artist(
            rows@.map_values(|x: AlbumArtistRow| x@),
            album_id as int,
            artist_id as int,
        ),
{
    let ghost pv = rows@.map_values(|x: AlbumArtistRow| x@);
    let mut i: usize = 0;
    while i < rows.len()
        invariant
            i <= rows.len(),
            pv == rows@.map_values(|x: AlbumArtistRow| x@),
            forall|j: int|
                0 <= j < i ==> #[trigger] pv[j] != (AlbumArtistRowV {
                    album_id: album_id as int,
                    artist_id: artist_id as int,
                }),
        decreases rows.len() - i,
    {
        if rows[i].album_id == album_id && rows[i].artist_id == artist_id {
            assert(pv[i as int] == (AlbumArtistRowV {
                album_id: album_id as int,
                artist_id: artist_id as int,
            }));
            return true;
        }
        assert(pv[i as int] != (AlbumArtistRowV {
            album_id: album_id as int,
            artist_id: artist_id as int,
        }));
        i = i + 1;
    }
    false
}

/// Stage two of a run: for each album, one atomic unit that reuses or inserts
/// the album row by its title and then links the album to its
/// already-resolved artists, skipping links already present.  Returns the
/// persisted row for each requested album; where one title appears twice, the
/// later links attach to the row the first occurrence persisted.
pub fn upsert_albums_with_artists(store: &mut SyncStore, items: &Vec<AlbumInsert>) -> (r: Vec<
    AlbumRow,
>)
    requires
        old(store)@.wf(),
        album_items_ok(album_inserts_v(items@), old(store)@.artists.len() as int),
    ensures
        final(store)@.wf(),
        final(store)@ == add_albums(old(store)@, album_inserts_v(items@)),
        final(store)@.artists == old(store)@.artists,
        final(store)@.tracks == old(store)@.tracks,
        final(store)@.album_tracks == old(store)@.album_tracks,
        final(store)@.play_logs == old(store)@.play_logs,
        old(store)@.albums.is_prefix_of(final(store)@.albums),
        r@.len() == items@.len(),
        forall|i: int| #![trigger r@[i]]
            0 <= i < items@.len() ==> r@[i]@ == album_titled(
                final(store)@.albums,
                items@[i]@.title,
            ) && has_album(final(store)@.albums, items@[i]@.title),
{
    let ghost s0 = store@;
    let ghost iv = album_inserts_v(items@);
    let mut out: Vec<AlbumRow> = Vec::new();
    let mut k: usize = 0;
    while k < items.len()
        invariant
            k <= items.len(),
            store@.wf(),
            s0 == old(store)@,
            iv == album_inserts_v(items@),
            album_items_ok(iv, s0.artists.len() as int),
            store@ == add_albums(s0, iv.subrange(0, k as int)),
            store@.artists == s0.artists,
            store@.tracks == s0.tracks,
            store@.album_tracks == s0.album_tracks,
            store@.play_logs == s0.play_logs,
            s0.albums.is_prefix_of(store@.albums),
            out@.len() == k,
            forall|i: int|
                0 <= i < k ==> #[trigger] out@[i]@ == album_titled(store@.albums, iv[i].title)
                    && has_album(store@.albums, iv[i].title),
        decreases items.len() - k,
    {
        let ghost prev = store@;
        proof {
            assert(iv.subrange(0, k + 1).drop_last() =~= iv.subrange(0, k as int));
            assert(iv.subrange(0, k + 1).last() == items@[k as int]@);
        }
        let item = &items[k];
        let aid: usize;
        match find_album(&store.albums, &item.title) {
            Some(i) => {
                proof {
                    assert(prev.albums[i as int].title == item@.title);
                    assert(has_album(prev.albums, item@.title));
                    let w = choose|j: int|
                        0 <= j < prev.albums.len() && #[trigger] prev.albums[j].title == item@.title;
                    if w < i as int {
                        assert(store@.albums[w].title != store@.albums[i as int].title);
                    } else if (i as int) < w {
                        assert(store@.albums[i as int].title != store@.albums[w].title);
                    }
                    assert(album_titled(prev.albums, item@.title).id == i as int);
                }
                aid = store.albums[i].id;
            },
            None => {
                let row = AlbumRow {
                    id: store.albums.len(),
                    title: item.title.clone(),
                    release_date: item.release_date,
                };
                aid = store.albums.len();
                store.albums.push(row);
                proof {
                    assert(albums_v(store.albums@) =~= prev.albums.push(
                        AlbumRowV {
                            id: prev.albums.len() as int,
                            title: item@.title,
                            release_date: item@.release_date,
                        },
                    ));
                }
            },
        }
        let ghost albums2 = store@.albums;
        let ghost pairs0 = store@.album_artists;
        let mut j: usize = 0;
        while j < item.artist_ids.len()
            invariant
                j <= item.artist_ids.len(),
                store@.wf(),
                aid < store@.albums.len(),
                item@ == iv[k as int],
                0 <= (k as int) < iv.len(),
                album_items_ok(iv, store@.artists.len() as int),
                store@.album_artists == add_album_artists(
                    pairs0,
                    aid as int,
                    item@.artist_ids.subrange(0, j as int),
                ),
                store@.albums == albums2,
                store@.artists == prev.artists,
                store@.tracks == prev.tracks,
                store@.album_tracks == prev.album_tracks,
                store@.play_logs == prev.play_logs,
            decreases item.artist_ids.len() - j,
        {
            let ghost ppre = store@.album_artists;
            proof {
                assert(item@.artist_ids.subrange(0, j + 1).drop_last() =~= item@.artist_ids.subrange(
                    0,
                    j as int,
                ));
                assert(item@.artist_ids.subrange(0, j + 1).last() == item@.artist_ids[j as int]);
                assert(item@.artist_ids[j as int] == iv[k as int].artist_ids[j as int]);
            }
            let artist_id = item.artist_ids[j];
            if !has_pair(&store.album_artists, aid, artist_id) {
                let pair = AlbumArtistRow { album_id: aid, artist_id };
                store.album_artists.push(pair);
                proof {
                    assert(store@.album_artists =~= ppre.push(
                        AlbumArtistRowV { album_id: aid as int, artist_id: artist_id as int },
                    ));
                }
            }
            j = j + 1;
        }
        proof {
            assert(item@.artist_ids.subrange(0, item@.artist_ids.len() as int) =~= item@.artist_ids);
        }
        let row_out = AlbumRow {
            id: store.albums[aid].id,
            title: store.albums[aid].title.clone(),
            release_date: store.albums[aid].release_date,
        };
        proof {
            let t = iv[k as int].title;
            if has_album(prev.albums, t) {
                assert(album_titled(prev.albums, t) == album_titled(store@.albums, t)) by {
                    lemma_album_titled_stable(prev.albums, store@.albums, t);
                }
            } else {
                assert(store@.albums[aid as int].title == t);
                assert(has_album(store@.albums, t));
            }
            let w = choose|i: int|
                0 <= i < store@.albums.len() && #[trigger] store@.albums[i].title == t;
            if w < aid as int {
                assert(store@.albums[w].title != store@.albums[aid as int].title);
            } else if (aid as int) < w {
                assert(store@.albums[aid as int].title != store@.albums[w].title);
            }
            assert(row_out@ == album_titled(store@.albums, t));
            assert(store@ == add_albums(s0, iv.subrange(0, k + 1)));
            assert forall|i: int| 0 <= i < k implies #[trigger] out@[i]@ == album_titled(
                store@.albums,
                iv[i].title,
            ) && has_album(store@.albums, iv[i].title) by {
                assert(out@[i]@ == album_titled(prev.albums, iv[i].title));
                assert(has_album(prev.albums, iv[i].title));
                lemma_album_titled_stable(prev.albums, store@.albums, iv[i].title);
            }
        }
        let ghost out_pre = out@;
        out.push(row_out);
        proof {
            assert forall|i: int| 0 <= i < k + 1 implies #[trigger] out@[i]@ == album_titled(
                store@.albums,
                iv[i].title,
            ) && has_album(store@.albums, iv[i].title) by {
                if i < k {
                    assert(out@[i] == out_pre[i]);
                    assert(out_pre[i]@ == album_titled(store@.albums, iv[i].title));
                } else {
                    assert(out@[i] == row_out);
                }
            }
        }
        k = k + 1;
    }
    proof {
        assert(iv.subrange(0, items.len() as int) =~= iv);
    }
    out
}

/// One track to persist: its natural key and the already-resolved id of the
/// album it was played from.
pub struct TrackInsert {
    pub title: String,
    pub album_id: usize,
}

pub struct TrackInsertV {
    pub title: Seq<char>,
    pub album_id: int,
}

impl View for TrackInsert {
    type V = TrackInsertV;

    open spec fn view(&self) -> TrackInsertV {
        TrackInsertV { title: self.title@, album_id: self.album_id as int }
    }
}

pub open spec fn tracks_v(rows: Seq<TrackRow>) -> Seq<TrackRowV> {
    rows.map_values(|r: TrackRow| r@)
}

pub open spec fn track_inserts_v(items: Seq<TrackInsert>) -> Seq<TrackInsertV> {
    items.map_values(|r: TrackInsert| r@)
}

pub open spec fn track_items_ok(items: Seq<TrackInsertV>, album_count: int) -> bool {
    forall|i: int| 0 <= i < items.len() ==> 0 <= #[trigger] items[i].album_id < album_count
}

/// The store after the track stage has written `items`, in order: each item's
/// track row is reused by title or newly inserted, and its album link is
/// added where missing.
pub open spec fn add_tracks(s: StoreV, items: Seq<TrackInsertV>) -> StoreV
    decreases items.len(),
{
    if items.len() == 0 {
        s
    } else {
        let prev = add_tracks(s, items.drop_last());
        let it = items.last();
        let tracks2 = if has_track(prev.tracks, it.title) {
            prev.tracks
        } else {
            prev.tracks.push(TrackRowV { id: prev.tracks.len() as int, title: it.title })
        };
        let tid = if has_track(prev.tracks, it.title) {
            track_titled(prev.tracks, it.title).id
        } else {
            prev.tracks.len() as int
        };
        let album_tracks2 = if has_album_track(prev.album_tracks, it.album_id, tid) {
            prev.album_tracks
        } else {
            prev.album_tracks.push(AlbumTrackRowV { album_id: it.album_id, track_id: tid })
        };
        StoreV { tracks: tracks2, album_tracks: album_tracks2, ..prev }
    }
}

/// A row found by title does not move while rows are only appended and titles
/// stay unique.
pub proof fn lemma_track_titled_stable(rows1: Seq<TrackRowV>, rows2: Seq<TrackRowV>, t: Seq<char>)
    requires
        rows1.is_prefix_of(rows2),
        has_track(rows1, t),
        forall|i: int, j: int|
            0 <= i < j < rows2.len() ==> #[trigger] rows2[i].title != #[trigger] rows2[j].title,
    ensures
        track_titled(rows2, t) == track_titled(rows1, t),
        has_track(rows2, t),
{
    let i1 = choose|i: int| 0 <= i < rows1.len() && #[trigger] rows1[i].title == t;
    assert(rows2[i1].title == t);
    let i2 = choose|i: int| 0 <= i < rows2.len() && #[trigger] rows2[i].title == t;
    assert(i1 == i2);
}

/// The track stage touches only the track table and its album links.
pub proof fn lemma_add_tracks_frame(s: StoreV, items: Seq<TrackInsertV>)
    ensures
        add_tracks(s, items).artists == s.artists,
        add_tracks(s, items).albums == s.albums,
        add_tracks(s, items).album_artists == s.album_artists,
        add_tracks(s, items).play_logs == s.play_logs,
    decreases items.len(),
{
    if items.len() > 0 {
        lemma_add_tracks_frame(s, items.drop_last());
    }
}

/// What the track stage leaves behind: the old rows as prefixes, positional
/// ids and unique titles kept, every requested track present, every
/// requested album link present under the persisted track's id, pairs
/// unique, and every link referencing a real album and a real track.
pub proof fn lemma_add_tracks_props(s: StoreV, items: Seq<TrackInsertV>, album_count: int)
    requires
        forall|i: int| 0 <= i < s.tracks.len() ==> #[trigger] s.tracks[i].id == i,
        forall|i: int, j: int|
            0 <= i < j < s.tracks.len() ==> #[trigger] s.tracks[i].title
                != #[trigger] s.tracks[j].title,
        forall|i: int, j: int|
            0 <= i < j < s.album_tracks.len() ==> #[trigger] s.album_tracks[i]
                != #[trigger] s.album_tracks[j],
        forall|i: int|
            0 <= i < s.album_tracks.len() ==> 0 <= #[trigger] s.album_tracks[i].album_id
                < album_count && 0 <= s.album_tracks[i].track_id < s.tracks.len(),
        track_items_ok(items, album_count),
    ensures
        ({
            let r = add_tracks(s, items);
            &&& forall|i: int| 0 <= i < r.tracks.len() ==> #[trigger] r.tracks[i].id == i
            &&& forall|i: int, j: int|
                0 <= i < j < r.tracks.len() ==> #[trigger] r.tracks[i].title
                    != #[trigger] r.tracks[j].title
            &&& s.tracks.is_prefix_of(r.tracks)
            &&& s.album_tracks.is_prefix_of(r.album_tracks)
            &&& forall|i: int, j: int|
                0 <= i < j < r.album_tracks.len() ==> #[trigger] r.album_tracks[i]
                    != #[trigger] r.album_tracks[j]
            &&& forall|i: int|
                0 <= i < r.album_tracks.len() ==> 0 <= #[trigger] r.album_tracks[i].album_id
                    < album_count && 0 <= r.album_tracks[i].track_id < r.tracks.len()
            &&& forall|k: int|
                0 <= k < items.len() ==> has_track(r.tracks, #[trigger] items[k].title)
            &&& forall|k: int|
                0 <= k < items.len() ==> has_album_track(
                    r.album_tracks,
                    #[trigger] items[k].album_id,
                    track_titled(r.tracks, items[k].title).id,
                )
        }),
    decreases items.len(),
{
    if items.len() > 0 {
        assert(track_items_ok(items.drop_last(), album_count)) by {
            assert forall|i: int| 0 <= i < items.drop_last().len() implies 0
                <= #[trigger] items.drop_last()[i].album_id < album_count by {
                assert(items.drop_last()[i] == items[i]);
            }
        }
        lemma_add_tracks_props(s, items.drop_last(), album_count);
        let prev = add_tracks(s, items.drop_last());
        let r = add_tracks(s, items);
        let it = items.last();
        assert(items[items.len() - 1] == it);
        assert(0 <= it.album_id < album_count);
        let tid = if has_track(prev.tracks, it.title) {
            track_titled(prev.tracks, it.title).id
        } else {
            prev.tracks.len() as int
        };
        if has_track(prev.tracks, it.title) {
            lemma_titled_track_row(prev.tracks, it.title);
        }
        assert(0 <= tid < r.tracks.len());
        assert forall|i: int, j: int| 0 <= i < j < r.tracks.len() implies #[trigger] r.tracks[i].title
            != #[trigger] r.tracks[j].title by {
            if !has_track(prev.tracks, it.title) && j == r.tracks.len() - 1 {
                assert(!(prev.tracks[i].title == it.title));
            }
        }
        let pair = AlbumTrackRowV { album_id: it.album_id, track_id: tid };
        assert forall|i: int, j: int| 0 <= i < j < r.album_tracks.len() implies #[trigger] r.album_tracks[i]
            != #[trigger] r.album_tracks[j] by {
            if !has_album_track(prev.album_tracks, it.album_id, tid) && j == r.album_tracks.len()
                - 1 {
                assert(!(prev.album_tracks[i] == pair));
            }
        }
        assert forall|k: int| 0 <= k < items.len() implies has_track(
            r.tracks,
            #[trigger] items[k].title,
        ) by {
            if k < items.len() - 1 {
                assert(items.drop_last()[k] == items[k]);
                assert(has_track(prev.tracks, items[k].title));
                let w = choose|i: int|
                    0 <= i < prev.tracks.len() && #[trigger] prev.tracks[i].title == items[k].title;
                assert(r.tracks[w].title == items[k].title);
            } else {
                if has_track(prev.tracks, it.title) {
                    let w = choose|i: int|
                        0 <= i < prev.tracks.len() && #[trigger] prev.tracks[i].title == it.title;
                    assert(r.tracks[w].title == it.title);
                } else {
                    assert(r.tracks[r.tracks.len() - 1].title == it.title);
                }
            }
        }
        assert forall|k: int| 0 <= k < items.len() implies has_album_track(
            r.album_tracks,
            #[trigger] items[k].album_id,
            track_titled(r.tracks, items[k].title).id,
        ) by {
            if k < items.len() - 1 {
                assert(items.drop_last()[k] == items[k]);
                assert(has_track(prev.tracks, items[k].title));
                assert(has_album_track(
                    prev.album_tracks,
                    items[k].album_id,
                    track_titled(prev.tracks, items[k].title).id,
                ));
                lemma_track_titled_stable(prev.tracks, r.tracks, items[k].title);
                let w = choose|i: int|
                    0 <= i < prev.album_tracks.len() && #[trigger] prev.album_tracks[i]
                        == (AlbumTrackRowV {
                        album_id: items[k].album_id,
                        track_id: track_titled(prev.tracks, items[k].title).id,
                    });
                assert(r.album_tracks[w] == prev.album_tracks[w]);
            } else {
                if has_track(prev.tracks, it.title) {
                    lemma_track_titled_stable(prev.tracks, r.tracks, it.title);
                } else {
                    assert(r.tracks[r.tracks.len() - 1].title == it.title);
                    assert(has_track(r.tracks, it.title));
                    let w = choose|i: int|
                        0 <= i < r.tracks.len() && #[trigger] r.tracks[i].title == it.title;
                    if w < r.tracks.len() - 1 {
                        assert(r.tracks[w].title != r.tracks[r.tracks.len() - 1].title);
                    }
                    assert(track_titled(r.tracks, it.title).id == tid);
                }
                if has_album_track(prev.album_tracks, it.album_id, tid) {
                    let w = choose|i: int|
                        0 <= i < prev.album_tracks.len() && #[trigger] prev.album_tracks[i] == pair;
                    assert(r.album_tracks[w] == pair);
                } else {
                    assert(r.album_tracks[r.album_tracks.len() - 1] == pair);
                }
            }
        }
    }
}

/// A track stage whose tracks and links are all already present changes
/// nothing.
pub proof fn lemma_add_tracks_noop(s: StoreV, items: Seq<TrackInsertV>)
    requires
        forall|k: int| 0 <= k < items.len() ==> has_track(s.tracks, #[trigger] items[k].title),
        forall|k: int|
            0 <= k < items.len() ==> has_album_track(
                s.album_tracks,
                #[trigger] items[k].album_id,
                track_titled(s.tracks, items[k].title).id,
            ),
    ensures
        add_tracks(s, items) == s,
    decreases items.len(),
{
    if items.len() > 0 {
        assert forall|k: int| 0 <= k < items.drop_last().len() implies has_track(
            s.tracks,
            #[trigger] items.drop_last()[k].title,
        ) && has_album_track(
            s.album_tracks,
            items.drop_last()[k].album_id,
            track_titled(s.tracks, items.drop_last()[k].title).id,
        ) by {
            assert(items.drop_last()[k] == items[k]);
        }
        lemma_add_tracks_noop(s, items.drop_last());
        let it = items.last();
        assert(items[items.len() - 1] == it);
        assert(has_track(s.tracks, it.title));
        assert(has_album_track(s.album_tracks, it.album_id, track_titled(s.tracks, it.title).id));
        assert(add_tracks(s, items) =~= s);
    }
}

/// The play-log stage keeps earlier entries, adds each requested entry
/// unless its (track, time) pair is already present, keeps ids positional
/// and pairs unique, and references only real tracks.
pub proof fn lemma_add_play_logs_props(
    rows: Seq<PlayLogRowV>,
    items: Seq<PlayLogInsertV>,
    track_count: int,
)
    requires
        forall|i: int| 0 <= i < rows.len() ==> #[trigger] rows[i].id == i,
        forall|i: int, j: int|
            0 <= i < j < rows.len() ==> !(#[trigger] rows[i].track_id == #[trigger] rows[j].track_id
                && rows[i].played_at == rows[j].played_at),
        forall|i: int| 0 <= i < rows.len() ==> 0 <= #[trigger] rows[i].track_id < track_count,
        play_items_ok(items, track_count),
    ensures
        ({
            let r = add_play_logs(rows, items);
            &&& forall|i: int| 0 <= i < r.len() ==> #[trigger] r[i].id == i
            &&& forall|i: int, j: int|
                0 <= i < j < r.len() ==> !(#[trigger] r[i].track_id == #[trigger] r[j].track_id
                    && r[i].played_at == r[j].played_at)
            &&& forall|i: int| 0 <= i < r.len() ==> 0 <= #[trigger] r[i].track_id < track_count
            &&& rows.is_prefix_of(r)
            &&& forall|k: int|
                0 <= k < items.len() ==> has_play(
                    r,
                    #[trigger] items[k].track_id,
                    items[k].played_at,
                )
        }),
    decreases items.len(),
{
    if items.len() > 0 {
        assert(play_items_ok(items.drop_last(), track_count)) by {
            assert forall|i: int| 0 <= i < items.drop_last().len() implies 0
                <= #[trigger] items.drop_last()[i].track_id < track_count by {
                assert(items.drop_last()[i] == items[i]);
            }
        }
        lemma_add_play_logs_props(rows, items.drop_last(), track_count);
        let prev = add_play_logs(rows, items.drop_last());
        let r = add_play_logs(rows, items);
        let it = items.last();
        assert(items[items.len() - 1] == it);
        assert(0 <= it.track_id < track_count);
        if !has_play(prev, it.track_id, it.played_at) {
            assert forall|i: int, j: int| 0 <= i < j < r.len() implies !(#[trigger] r[i].track_id
                == #[trigger] r[j].track_id && r[i].played_at == r[j].played_at) by {
                if j == r.len() - 1 {
                    assert(!(prev[i].track_id == it.track_id && prev[i].played_at == it.played_at));
                }
            }
        }
        assert forall|k: int| 0 <= k < items.len() implies has_play(
            r,
            #[trigger] items[k].track_id,
            items[k].played_at,
        ) by {
            if k < items.len() - 1 {
                assert(items.drop_last()[k] == items[k]);
                assert(has_play(prev, items[k].track_id, items[k].played_at));
                let w = choose|i: int|
                    0 <= i < prev.len() && #[trigger] prev[i].track_id == items[k].track_id
                        && prev[i].played_at == items[k].played_at;
                assert(r[w].track_id == items[k].track_id && r[w].played_at
                    == items[k].played_at);
            } else {
                if has_play(prev, it.track_id, it.played_at) {
                    let w = choose|i: int|
                        0 <= i < prev.len() && #[trigger] prev[i].track_id == it.track_id
                            && prev[i].played_at == it.played_at;
                    assert(r[w].track_id == it.track_id && r[w].played_at == it.played_at);
                } else {
                    assert(r[r.len() - 1].track_id == it.track_id && r[r.len() - 1].played_at
                        == it.played_at);
                }
            }
        }
    }
}

/// A play-log stage whose entries are all already recorded changes nothing.
pub proof fn lemma_add_play_logs_noop(rows: Seq<PlayLogRowV>, items: Seq<PlayLogInsertV>)
    requires
        forall|k: int|
            0 <= k < items.len() ==> has_play(rows, #[trigger] items[k].track_id, items[k].played_at),
    ensures
        add_play_logs(rows, items) == rows,
    decreases items.len(),
{
    if items.len() > 0 {
        assert forall|k: int| 0 <= k < items.drop_last().len() implies has_play(
            rows,
            #[trigger] items.drop_last()[k].track_id,
            items.drop_last()[k].played_at,
        ) by {
            assert(items.drop_last()[k] == items[k]);
        }
        lemma_add_play_logs_noop(rows, items.drop_last());
        assert(items[items.len() - 1] == items.last());
    }
}

pub(crate) fn find_track(rows: &Vec<TrackRow>, title: &String) -> (r: Option<usize>)
    ensures
        match r {
            Some(i) => i < rows.len() && rows@[i as int]@.title == title@,
            None => !has_track(tracks_v(rows@), title@),
        },
{
    let mut i: usize = 0;
    while i < rows.len()
        invariant
            i <= rows.len(),
            forall|j: int| 0 <= j < i ==> #[trigger] tracks_v(rows@)[j].title != title@,
        decreases rows.len() - i,
    {
        if rows[i].title == *title {
            assert(tracks_v(rows@)[i as int].title == title@);
            return Some(i);
        }
        assert(tracks_v(rows@)[i as int].title != title@);
        i = i + 1;
    }
    None
}

fn has_track_pair(rows: &Vec<AlbumTrackRow>, album_id: usize, track_id: usize) -> (r: bool)
    ensures
        r == has_album_track(
            rows@.map_values(|x: AlbumTrackRow| x@),
            album_id as int,
            track_id as int,
        ),
{
    let ghost pv = rows@.map_values(|x: AlbumTrackRow| x@);
    let mut i: usize = 0;
    while i < rows.len()
        invariant
            i <= rows.len(),
            pv == rows@.map_values(|x: AlbumTrackRow| x@),
            forall|j: int|
                0 <= j < i ==> #[trigger] pv[j] != (AlbumTrackRowV {
                    album_id: album_id as int,
                    track_id: track_id as int,
                }),
        decreases rows.len() - i,
    {
        if rows[i].album_id == album_id && rows[i].track_id == track_id {
            assert(pv[i as int] == (AlbumTrackRowV {
                album_id: album_id as int,
                track_id: track_id as int,
            }));
            return true;
        }
        assert(pv[i as int] != (AlbumTrackRowV {
            album_id: album_id as int,
            track_id: track_id as int,
        }));
        i = i + 1;
    }
    false
}

/// Stage three of a run: for each played track, one atomic unit that reuses
/// or inserts the track row by its title and then links it to its album,
/// skipping a link already present.  Returns the persisted row for each
/// requested track; a repeated title resolves to the row the first occurrence
/// persisted.
pub fn upsert_tracks_with_albums(store: &mut SyncStore, items: &Vec<TrackInsert>) -> (r: Vec<
    TrackRow,
>)
    requires
        old(store)@.wf(),
        track_items_ok(track_inserts_v(items@), old(store)@.albums.len() as int),
    ensures
        final(store)@.wf(),
        final(store)@ == add_tracks(old(store)@, track_inserts_v(items@)),
        final(store)@.artists == old(store)@.artists,
        final(store)@.albums == old(store)@.albums,
        final(store)@.album_artists == old(store)@.album_artists,
        final(store)@.play_logs == old(store)@.play_logs,
        old(store)@.tracks.is_prefix_of(final(store)@.tracks),
        r@.len() == items@.len(),
        forall|i: int| #![trigger r@[i]]
            0 <= i < items@.len() ==> r@[i]@ == track_titled(
                final(store)@.tracks,
                items@[i]@.title,
            ) && has_track(final(store)@.tracks, items@[i]@.title),
{
    let ghost s0 = store@;
    let ghost iv = track_inserts_v(items@);
    let mut out: Vec<TrackRow> = Vec::new();
    let mut k: usize = 0;
    while k < items.len()
        invariant
            k <= items.len(),
            store@.wf(),
            s0 == old(store)@,
            iv == track_inserts_v(items@),
            track_items_ok(iv, s0.albums.len() as int),
            store@ == add_tracks(s0, iv.subrange(0, k as int)),
            store@.artists == s0.artists,
            store@.albums == s0.albums,
            store@.album_artists == s0.album_artists,
            store@.play_logs == s0.play_logs,
            s0.tracks.is_prefix_of(store@.tracks),
            out@.len() == k,
            forall|i: int|
                0 <= i < k ==> #[trigger] out@[i]@ == track_titled(store@.tracks, iv[i].title)
                    && has_track(store@.tracks, iv[i].title),
        decreases items.len() - k,
    {
        let ghost prev = store@;
        proof {
            assert(iv.subrange(0, k + 1).drop_last() =~= iv.subrange(0, k as int));
            assert(iv.subrange(0, k + 1).last() == items@[k as int]@);
        }
        let item = &items[k];
        let tid: usize;
        match find_track(&store.tracks, &item.title) {
            Some(i) => {
                proof {
                    assert(prev.tracks[i as int].title == item@.title);
                    assert(has_track(prev.tracks, item@.title));
                    let w = choose|j: int|
                        0 <= j < prev.tracks.len() && #[trigger] prev.tracks[j].title == item@.title;
                    if w < i as int {
                        assert(store@.tracks[w].title != store@.tracks[i as int].title);
                    } else if (i as int) < w {
                        assert(store@.tracks[i as int].title != store@.tracks[w].title);
                    }
                    assert(track_titled(prev.tracks, item@.title).id == i as int);
                }
                tid = store.tracks[i].id;
            },
            None => {
                let row = TrackRow { id: store.tracks.len(), title: item.title.clone() };
                tid = store.tracks.len();
                store.tracks.push(row);
                proof {
                    assert(tracks_v(store.tracks@) =~= prev.tracks.push(
                        TrackRowV { id: prev.tracks.len() as int, title: item@.title },
                    ));
                }
            },
        }
        let ghost pairs_pre = store@.album_tracks;
        if !has_track_pair(&store.album_tracks, item.album_id, tid) {
            let pair = AlbumTrackRow { album_id: item.album_id, track_id: tid };
            store.album_tracks.push(pair);
            proof {
                assert(store@.album_tracks =~= pairs_pre.push(
                    AlbumTrackRowV { album_id: item@.album_id, track_id: tid as int },
                ));
            }
        }
        let row_out = TrackRow { id: store.tracks[tid].id, title: store.tracks[tid].title.clone() };
        proof {
            let t = iv[k as int].title;
            if has_track(prev.tracks, t) {
                lemma_track_titled_stable(prev.tracks, store@.tracks, t);
            } else {
                assert(store@.tracks[tid as int].title == t);
                assert(has_track(store@.tracks, t));
            }
            let w = choose|i: int|
                0 <= i < store@.tracks.len() && #[trigger] store@.tracks[i].title == t;
            if w < tid as int {
                assert(store@.tracks[w].title != store@.tracks[tid as int].title);
            } else if (tid as int) < w {
                assert(store@.tracks[tid as int].title != store@.tracks[w].title);
            }
            assert(row_out@ == track_titled(store@.tracks, t));
            assert(store@ == add_tracks(s0, iv.subrange(0, k + 1)));
            assert forall|i: int| 0 <= i < k implies #[trigger] out@[i]@ == track_titled(
                store@.tracks,
                iv[i].title,
            ) && has_track(store@.tracks, iv[i].title) by {
                assert(out@[i]@ == track_titled(prev.tracks, iv[i].title));
                assert(has_track(prev.tracks, iv[i].title));
                lemma_track_titled_stable(prev.tracks, store@.tracks, iv[i].title);
            }
        }
        let ghost out_pre = out@;
        out.push(row_out);
        proof {
            assert forall|i: int| 0 <= i < k + 1 implies #[trigger] out@[i]@ == track_titled(
                store@.tracks,
                iv[i].title,
            ) && has_track(store@.tracks, iv[i].title) by {
                if i < k {
                    assert(out@[i] == out_pre[i]);
                    assert(out_pre[i]@ == track_titled(store@.tracks, iv[i].title));
                } else {
                    assert(out@[i] == row_out);
                }
            }
        }
        k = k + 1;
    }
    proof {
        assert(iv.subrange(0, items.len() as int) =~= iv);
    }
    out
}

/// One play event to record: the resolved track and the normalized instant it
/// was played.
pub struct PlayLogInsert {
    pub track_id: usize,
    pub played_at: i64,
}

pub struct PlayLogInsertV {
    pub track_id: int,
    pub played_at: int,
}

impl View for PlayLogInsert {
    type V = PlayLogInsertV;

    open spec fn view(&self) -> PlayLogInsertV {
        PlayLogInsertV { track_id: self.track_id as int, played_at: self.played_at as int }
    }
}

pub open spec fn play_inserts_v(items: Seq<PlayLogInsert>) -> Seq<PlayLogInsertV> {
    items.map_values(|r: PlayLogInsert| r@)
}

pub open spec fn play_items_ok(items: Seq<PlayLogInsertV>, track_count: int) -> bool {
    forall|i: int| 0 <= i < items.len() ==> 0 <= #[trigger] items[i].track_id < track_count
}

/// The play log after a bulk insert of `items` that ignores an entry whose
/// (track, time) pair is already present.
pub open spec fn add_play_logs(
    rows: Seq<PlayLogRowV>,
    items: Seq<PlayLogInsertV>,
) -> Seq<PlayLogRowV>
    decreases items.len(),
{
    if items.len() == 0 {
        rows
    } else {
        let prev = add_play_logs(rows, items.drop_last());
        let it = items.last();
        if has_play(prev, it.track_id, it.played_at) {
            prev
        } else {
            prev.push(
                PlayLogRowV {
                    id: prev.len() as int,
                    track_id: it.track_id,
                    played_at: it.played_at,
                },
            )
        }
    }
}

fn has_play_row(rows: &Vec<PlayLogRow>, track_id: usize, played_at: i64) -> (r: bool)
    ensures
        r == has_play(
            rows@.map_values(|x: PlayLogRow| x@),
            track_id as int,
            played_at as int,
        ),
{
    let ghost pv = rows@.map_values(|x: PlayLogRow| x@);
    let mut i: usize = 0;
    while i < rows.len()
        invariant
            i <= rows.len(),
            pv == rows@.map_values(|x: PlayLogRow| x@),
            forall|j: int|
                0 <= j < i ==> !(#[trigger] pv[j].track_id == track_id as int && pv[j].played_at
                    == played_at as int),
        decreases rows.len() - i,
    {
        if rows[i].track_id == track_id && rows[i].played_at == played_at {
            assert(pv[i as int].track_id == track_id as int && pv[i as int].played_at
                == played_at as int);
            return true;
        }
        assert(!(pv[i as int].track_id == track_id as int && pv[i as int].played_at
            == played_at as int));
        i = i + 1;
    }
    false
}

/// Stage four of a run: bulk insert of play events that ignores an entry
/// whose (track, time) pair is already recorded, so that overlapping runs
/// never duplicate history.
pub fn upsert_playlogs(store: &mut SyncStore, items: &Vec<PlayLogInsert>)
    requires
        old(store)@.wf(),
        play_items_ok(play_inserts_v(items@), old(store)@.tracks.len() as int),
    ensures
        final(store)@.wf(),
        final(store)@.play_logs == add_play_logs(old(store)@.play_logs, play_inserts_v(items@)),
        final(store)@.artists == old(store)@.artists,
        final(store)@.albums == old(store)@.albums,
        final(store)@.album_artists == old(store)@.album_artists,
        final(store)@.tracks == old(store)@.tracks,
        final(store)@.album_tracks == old(store)@.album_tracks,
{
    let ghost s0 = store@;
    let ghost iv = play_inserts_v(items@);
    let mut k: usize = 0;
    while k < items.len()
        invariant
            k <= items.len(),
            store@.wf(),
            s0 == old(store)@,
            iv == play_inserts_v(items@),
            play_items_ok(iv, s0.tracks.len() as int),
            store@.play_logs == add_play_logs(s0.play_logs, iv.subrange(0, k as int)),
            store@.artists == s0.artists,
            store@.albums == s0.albums,
            store@.album_artists == s0.album_artists,
            store@.tracks == s0.tracks,
            store@.album_tracks == s0.album_tracks,
        decreases items.len() - k,
    {
        let ghost pre = store@.play_logs;
        proof {
            assert(iv.subrange(0, k + 1).drop_last() =~= iv.subrange(0, k as int));
            assert(iv.subrange(0, k + 1).last() == items@[k as int]@);
        }
        let item = &items[k];
        if !has_play_row(&store.play_logs, item.track_id, item.played_at) {
            let row = PlayLogRow {
                id: store.play_logs.len(),
                track_id: item.track_id,
                played_at: item.played_at,
            };
            store.play_logs.push(row);
            proof {
                assert(store@.play_logs =~= pre.push(
                    PlayLogRowV {
                        id: pre.len() as int,
                        track_id: item@.track_id,
                        played_at: item@.played_at,
                    },
                ));
            }
        }
        k = k + 1;
    }
    proof {
        assert(iv.subrange(0, items.len() as int) =~= iv);
    }
}

impl SyncStore {
    /// An empty store, as a fresh database starts.
    pub fn new() -> (r: SyncStore)
        ensures
            r@.artists.len() == 0,
            r@.albums.len() == 0,
            r@.album_artists.len() == 0,
            r@.tracks.len() == 0,
            r@.album_tracks.len() == 0,
            r@.play_logs.len() == 0,
            r@.wf(),
    {
        let r = SyncStore {
            artists: Vec::new(),
            albums: Vec::new(),
            album_artists: Vec::new(),
            tracks: Vec::new(),
            album_tracks: Vec::new(),
            play_logs: Vec::new(),
        };
        r
    }
}

} // verus!
