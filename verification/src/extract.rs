//! Pure extraction of entity-shaped values from fetched play records.
//!
//! No I/O happens here.  Artists are flattened from every album's artist list
//! across all plays, without deduplication — repeated names collapse later,
//! in the resolver.  Albums are taken one per distinct title, at its first
//! appearance, with that occurrence's release date and artist list; the date
//! is parsed here, and a malformed date is fatal before any album reaches the
//! store.  Tracks are taken one per play; repeated plays of a title yield
//! repeated entries on purpose, since track rows are deduplicated by the
//! store stage, not here.

use vstd::prelude::*;
use crate::dates::{parse_date_spec, parse_release_date, Date, ParseError};
use crate::remote::{PlayV, RecentTrack};
use crate::store::names_v;

verus! {

/// The list of every artist name mentioned by `plays`, album by album, in
/// order and with repetitions.
pub open spec fn artist_names_of(plays: Seq<PlayV>) -> Seq<Seq<char>>
    decreases plays.len(),
{
    if plays.len() == 0 {
        Seq::empty()
    } else {
        artist_names_of(plays.drop_last()) + plays.last().artist_names
    }
}

/// What one distinct album contributes: its title and the release date and
/// artist list of its first appearance.
pub struct AlbumV {
    pub title: Seq<char>,
    pub release_date: Seq<char>,
    pub artist_names: Seq<Seq<char>>,
}

pub open spec fn has_album_entry(albums: Seq<AlbumV>, title: Seq<char>) -> bool {
    exists|i: int| 0 <= i < albums.len() && #[trigger] albums[i].title == title
}

/// One entry per distinct album title appearing in `plays`, in order of first
/// appearance, carrying the first occurrence's data.
pub open spec fn distinct_albums(plays: Seq<PlayV>) -> Seq<AlbumV>
    decreases plays.len(),
{
    if plays.len() == 0 {
        Seq::empty()
    } else {
        let prev = distinct_albums(plays.drop_last());
        if has_album_entry(prev, plays.last().album_title) {
            prev
        } else {
            prev.push(
                AlbumV {
                    title: plays.last().album_title,
                    release_date: plays.last().release_date,
                    artist_names: plays.last().artist_names,
                },
            )
        }
    }
}

/// Whether every distinct album's release date parses.
pub open spec fn dates_ok(plays: Seq<PlayV>) -> bool {
    forall|i: int|
        0 <= i < distinct_albums(plays).len() ==> parse_date_spec(
            #[trigger] distinct_albums(plays)[i].release_date,
        ) is Some
}

/// The date an ISO string denotes; meaningful only where it parses.
pub open spec fn spec_date(s: Seq<char>) -> Date {
    match parse_date_spec(s) {
        Some(d) => d,
        None => Date { year: 0, month: 1, day: 1 },
    }
}

/// An extracted album, dates already parsed, artists still by name.
pub struct AlbumExtract {
    pub title: String,
    pub release_date: Date,
    pub artist_names: Vec<String>,
}

pub struct AlbumExtractV {
    pub title: Seq<char>,
    pub release_date: Date,
    pub artist_names: Seq<Seq<char>>,
}

impl View for AlbumExtract {
    type V = AlbumExtractV;

    open spec fn view(&self) -> AlbumExtractV {
        AlbumExtractV {
            title: self.title@,
            release_date: self.release_date,
            artist_names: self.artist_names@.map_values(|s: String| s@),
        }
    }
}

pub open spec fn album_extracts_v(items: Seq<AlbumExtract>) -> Seq<AlbumExtractV> {
    items.map_values(|r: AlbumExtract| r@)
}

/// The album list that extraction owes: each distinct album with its date
/// parsed.
pub open spec fn extracted_albums(plays: Seq<PlayV>) -> Seq<AlbumExtractV> {
    distinct_albums(plays).map_values(
        |a: AlbumV|
            AlbumExtractV {
                title: a.title,
                release_date: spec_date(a.release_date),
                artist_names: a.artist_names,
            },
    )
}

/// An extracted track entry: one per play.
pub struct TrackExtract {
    pub title: String,
    pub album_title: String,
}

pub struct TrackExtractV {
    pub title: Seq<char>,
    pub album_title: Seq<char>,
}

impl View for TrackExtract {
    type V = TrackExtractV;

    open spec fn view(&self) -> TrackExtractV {
        TrackExtractV { title: self.title@, album_title: self.album_title@ }
    }
}

pub open spec fn track_extracts_v(items: Seq<TrackExtract>) -> Seq<TrackExtractV> {
    items.map_values(|r: TrackExtract| r@)
}

pub open spec fn extracted_tracks(plays: Seq<PlayV>) -> Seq<TrackExtractV> {
    plays.map_values(|p: PlayV| TrackExtractV { title: p.track_title, album_title: p.album_title })
}

/// Each step of the album fold keeps what it already gathered.
pub proof fn lemma_distinct_albums_mono(plays: Seq<PlayV>, k: int)
    requires
        0 <= k <= plays.len(),
    ensures
        distinct_albums(plays.subrange(0, k)).is_prefix_of(distinct_albums(plays)),
    decreases plays.len(),
{
    let a = distinct_albums(plays.subrange(0, k));
    if k == plays.len() {
        assert(plays.subrange(0, k) =~= plays);
        assert(a =~= distinct_albums(plays).subrange(0, a.len() as int));
    } else {
        lemma_distinct_albums_mono(plays.drop_last(), k);
        assert(plays.drop_last().subrange(0, k) =~= plays.subrange(0, k));
        let b = distinct_albums(plays.drop_last());
        let c = distinct_albums(plays);
        assert(b.is_prefix_of(c));
        assert(a =~= c.subrange(0, a.len() as int)) by {
            assert(a =~= b.subrange(0, a.len() as int));
            assert forall|i: int| 0 <= i < a.len() implies a[i] == c.subrange(0, a.len() as int)[i]
                by {
                assert(a[i] == b[i]);
                assert(b[i] == c.subrange(0, b.len() as int)[i]);
            }
        }
    }
}

/// The fold has gathered a title exactly when some earlier play mentions it.
pub proof fn lemma_distinct_albums_has(plays: Seq<PlayV>, title: Seq<char>)
    ensures
        has_album_entry(distinct_albums(plays), title) <==> exists|j: int|
            0 <= j < plays.len() && #[trigger] plays[j].album_title == title,
    decreases plays.len(),
{
    if plays.len() > 0 {
        lemma_distinct_albums_has(plays.drop_last(), title);
        let prev = distinct_albums(plays.drop_last());
        let res = distinct_albums(plays);
        if has_album_entry(res, title) {
            let w = choose|i: int| 0 <= i < res.len() && #[trigger] res[i].title == title;
            if w < prev.len() {
                assert(prev[w].title == title);
                assert(has_album_entry(prev, title));
                let j = choose|j: int|
                    0 <= j < plays.drop_last().len() && #[trigger] plays.drop_last()[j].album_title
                        == title;
                assert(plays[j].album_title == title);
            } else {
                assert(plays[plays.len() - 1].album_title == title);
            }
        }
        if exists|j: int| 0 <= j < plays.len() && #[trigger] plays[j].album_title == title {
            let j = choose|j: int| 0 <= j < plays.len() && #[trigger] plays[j].album_title == title;
            if j < plays.len() - 1 {
                assert(plays.drop_last()[j].album_title == title);
                assert(has_album_entry(prev, title));
                let w = choose|i: int| 0 <= i < prev.len() && #[trigger] prev[i].title == title;
                assert(res[w].title == title);
            } else {
                if has_album_entry(prev, title) {
                    let w = choose|i: int| 0 <= i < prev.len() && #[trigger] prev[i].title == title;
                    assert(res[w].title == title);
                } else {
                    assert(res[res.len() - 1].title == title);
                }
            }
        }
    }
}

/// The stamp an RFC 3339 string denotes; meaningful only where it parses.
pub open spec fn spec_stamp(s: Seq<char>) -> int {
    match crate::dates::parse_stamp_spec(s) {
        Some(t) => t,
        None => 0,
    }
}

/// Whether every play's timestamp parses.
pub open spec fn stamps_ok(plays: Seq<PlayV>) -> bool {
    forall|i: int|
        0 <= i < plays.len() ==> crate::dates::parse_stamp_spec(
            #[trigger] plays[i].played_at,
        ) is Some
}

/// Every artist name a play mentions stands in the flattened artist list.
pub proof fn lemma_artist_names_of_contains(plays: Seq<PlayV>, k: int, j: int)
    requires
        0 <= k < plays.len(),
        0 <= j < plays[k].artist_names.len(),
    ensures
        artist_names_of(plays).contains(plays[k].artist_names[j]),
    decreases plays.len(),
{
    let whole = artist_names_of(plays);
    let before = artist_names_of(plays.drop_last());
    if k == plays.len() - 1 {
        assert(whole[before.len() + j] == plays[k].artist_names[j]);
    } else {
        lemma_artist_names_of_contains(plays.drop_last(), k, j);
        let w = choose|i: int|
            0 <= i < before.len() && #[trigger] before[i] == plays.drop_last()[k].artist_names[j];
        assert(whole[w] == plays[k].artist_names[j]);
    }
}

/// Every distinct album entry is the album of some play, taken whole.
pub proof fn lemma_distinct_albums_from_plays(plays: Seq<PlayV>, i: int)
    requires
        0 <= i < distinct_albums(plays).len(),
    ensures
        exists|k: int|
            0 <= k < plays.len() && #[trigger] plays[k].album_title == distinct_albums(plays)[i].title
                && plays[k].release_date == distinct_albums(plays)[i].release_date
                && plays[k].artist_names == distinct_albums(plays)[i].artist_names,
    decreases plays.len(),
{
    let prev = distinct_albums(plays.drop_last());
    if i < prev.len() {
        lemma_distinct_albums_from_plays(plays.drop_last(), i);
        let k = choose|k: int|
            0 <= k < plays.drop_last().len() && #[trigger] plays.drop_last()[k].album_title
                == distinct_albums(plays.drop_last())[i].title && plays.drop_last()[k].release_date
                == distinct_albums(plays.drop_last())[i].release_date && plays.drop_last()[k].artist_names
                == distinct_albums(plays.drop_last())[i].artist_names;
        assert(plays[k].album_title == distinct_albums(plays)[i].title && plays[k].release_date
            == distinct_albums(plays)[i].release_date && plays[k].artist_names == distinct_albums(
            plays,
        )[i].artist_names);
    } else {
        let k = plays.len() - 1;
        assert(plays[k].album_title == distinct_albums(plays)[i].title && plays[k].release_date
            == distinct_albums(plays)[i].release_date && plays[k].artist_names == distinct_albums(
            plays,
        )[i].artist_names);
    }
}

/// Flattens every album's artist list across all plays, in order, without
/// deduplication.
pub fn extract_artists(plays: &Vec<RecentTrack>) -> (r: Vec<String>)
    ensures
        names_v(r@) == artist_names_of(crate::remote::plays_v(plays@)),
{
    let ghost pv = crate::remote::plays_v(plays@);
    let mut out: Vec<String> = Vec::new();
    let mut k: usize = 0;
    while k < plays.len()
        invariant
            k <= plays.len(),
            pv == crate::remote::plays_v(plays@),
            names_v(out@) == artist_names_of(pv.subrange(0, k as int)),
        decreases plays.len() - k,
    {
        let artists = &plays[k].track.album.artists;
        let ghost base = names_v(out@);
        let mut j: usize = 0;
        while j < artists.len()
            invariant
                j <= artists.len(),
                pv == crate::remote::plays_v(plays@),
                0 <= (k as int) < pv.len(),
                artists@ == plays@[k as int].track.album.artists@,
                base == artist_names_of(pv.subrange(0, k as int)),
                names_v(out@) == base + pv[k as int].artist_names.subrange(0, j as int),
            decreases artists.len() - j,
        {
            let ghost opre = names_v(out@);
            out.push(artists[j].name.clone());
            proof {
                assert(names_v(out@) =~= opre.push(pv[k as int].artist_names[j as int]));
                assert(opre.push(pv[k as int].artist_names[j as int]) =~= base
                    + pv[k as int].artist_names.subrange(0, j + 1));
            }
            j = j + 1;
        }
        proof {
            assert(pv[k as int].artist_names.subrange(0, pv[k as int].artist_names.len() as int)
                =~= pv[k as int].artist_names);
            assert(pv.subrange(0, k + 1).drop_last() =~= pv.subrange(0, k as int));
            assert(pv.subrange(0, k + 1).last() == pv[k as int]);
        }
        k = k + 1;
    }
    proof {
        assert(pv.subrange(0, plays.len() as int) =~= pv);
    }
    out
}

fn extracts_have_title(items: &Vec<AlbumExtract>, title: &String) -> (r: bool)
    ensures
        r == exists|i: int|
            0 <= i < items@.len() && #[trigger] album_extracts_v(items@)[i].title == title@,
{
    let ghost ev = album_extracts_v(items@);
    let mut i: usize = 0;
    while i < items.len()
        invariant
            i <= items.len(),
            ev == album_extracts_v(items@),
            forall|j: int| 0 <= j < i ==> #[trigger] ev[j].title != title@,
        decreases items.len() - i,
    {
        if items[i].title == *title {
            assert(ev[i as int].title == title@);
            return true;
        }
        assert(ev[i as int].title != title@);
        i = i + 1;
    }
    false
}

/// One entry per distinct album title, in order of first appearance, with
/// that occurrence's release date parsed and its artist names listed.  A
/// malformed release date fails the whole extraction, before any album is
/// handed on.
pub fn extract_albums(plays: &Vec<RecentTrack>) -> (r: Result<Vec<AlbumExtract>, ParseError>)
    ensures
        match r {
            Ok(v) => dates_ok(crate::remote::plays_v(plays@)) && album_extracts_v(v@)
                == extracted_albums(crate::remote::plays_v(plays@)),
            Err(_) => !dates_ok(crate::remote::plays_v(plays@)),
        },
{
    let ghost pv = crate::remote::plays_v(plays@);
    let mut out: Vec<AlbumExtract> = Vec::new();
    let mut k: usize = 0;
    while k < plays.len()
        invariant
            k <= plays.len(),
            pv == crate::remote::plays_v(plays@),
            album_extracts_v(out@) == extracted_albums(pv.subrange(0, k as int)),
            forall|i: int|
                0 <= i < distinct_albums(pv.subrange(0, k as int)).len() ==> parse_date_spec(
                    #[trigger] distinct_albums(pv.subrange(0, k as int))[i].release_date,
                ) is Some,
        decreases plays.len() - k,
    {
        let ghost dpre = distinct_albums(pv.subrange(0, k as int));
        proof {
            assert(pv.subrange(0, k + 1).drop_last() =~= pv.subrange(0, k as int));
            assert(pv.subrange(0, k + 1).last() == pv[k as int]);
        }
        let album = &plays[k].track.album;
        let seen = extracts_have_title(&out, &album.name);
        proof {
            assert(album_extracts_v(out@) == extracted_albums(pv.subrange(0, k as int)));
            assert(album_extracts_v(out@).len() == dpre.len());
            assert forall|i: int| 0 <= i < dpre.len() implies #[trigger] album_extracts_v(
                out@,
            )[i].title == dpre[i].title by {
                assert(extracted_albums(pv.subrange(0, k as int))[i] == (AlbumExtractV {
                    title: dpre[i].title,
                    release_date: spec_date(dpre[i].release_date),
                    artist_names: dpre[i].artist_names,
                }));
            }
            if seen {
                let w = choose|i: int|
                    0 <= i < out@.len() && #[trigger] album_extracts_v(out@)[i].title
                        == album.name@;
                assert(dpre[w].title == album.name@);
                assert(has_album_entry(dpre, pv[k as int].album_title));
            } else {
                assert forall|i: int| 0 <= i < dpre.len() implies #[trigger] dpre[i].title
                    != album.name@ by {
                    assert(album_extracts_v(out@)[i].title == dpre[i].title);
                }
                assert(!has_album_entry(dpre, pv[k as int].album_title));
            }
        }
        if !seen {
            let date = match parse_release_date(album.release_date.as_str()) {
                Ok(d) => d,
                Err(e) => {
                    proof {
                        lemma_distinct_albums_mono(pv, k + 1);
                        let d1 = distinct_albums(pv.subrange(0, k + 1));
                        assert(d1 == dpre.push(
                            AlbumV {
                                title: pv[k as int].album_title,
                                release_date: pv[k as int].release_date,
                                artist_names: pv[k as int].artist_names,
                            },
                        ));
                        assert(d1[dpre.len() as int] == distinct_albums(pv).subrange(
                            0,
                            d1.len() as int,
                        )[dpre.len() as int]);
                        assert(distinct_albums(pv)[dpre.len() as int].release_date
                            == pv[k as int].release_date);
                        assert(!dates_ok(pv));
                    }
                    return Err(e);
                },
            };
            let mut artist_names: Vec<String> = Vec::new();
            let mut j: usize = 0;
            while j < album.artists.len()
                invariant
                    j <= album.artists.len(),
                    pv == crate::remote::plays_v(plays@),
                    0 <= (k as int) < pv.len(),
                    album.artists@ == plays@[k as int].track.album.artists@,
                    names_v(artist_names@) == pv[k as int].artist_names.subrange(0, j as int),
                decreases album.artists.len() - j,
            {
                let ghost apre = names_v(artist_names@);
                artist_names.push(album.artists[j].name.clone());
                proof {
                    assert(names_v(artist_names@) =~= apre.push(
                        pv[k as int].artist_names[j as int],
                    ));
                    assert(apre.push(pv[k as int].artist_names[j as int]) =~= pv[
                        k as int
                    ].artist_names.subrange(0, j + 1));
                }
                j = j + 1;
            }
            proof {
                assert(pv[k as int].artist_names.subrange(
                    0,
                    pv[k as int].artist_names.len() as int,
                ) =~= pv[k as int].artist_names);
            }
            let ghost out_pre = out@;
            out.push(AlbumExtract { title: album.name.clone(), release_date: date, artist_names });
            proof {
                let entry = AlbumV {
                    title: pv[k as int].album_title,
                    release_date: pv[k as int].release_date,
                    artist_names: pv[k as int].artist_names,
                };
                assert(distinct_albums(pv.subrange(0, k + 1)) == dpre.push(entry));
                assert(album_extracts_v(out@) =~= album_extracts_v(out_pre).push(
                    AlbumExtractV {
                        title: entry.title,
                        release_date: spec_date(entry.release_date),
                        artist_names: entry.artist_names,
                    },
                ));
                assert(album_extracts_v(out@) =~= extracted_albums(pv.subrange(0, k + 1)));
            }
        } else {
            proof {
                assert(distinct_albums(pv.subrange(0, k + 1)) == dpre);
                assert(extracted_albums(pv.subrange(0, k + 1)) =~= album_extracts_v(out@));
            }
        }
        k = k + 1;
    }
    proof {
        assert(pv.subrange(0, plays.len() as int) =~= pv);
    }
    Ok(out)
}

/// The extraction interface a fetched play list offers the pipeline.
pub trait RecentTrackExt {
    /// What the play list reads as.
    spec fn plays(&self) -> Seq<PlayV>;

    /// Gets all the artists from the recent tracks.
    fn artists(&self) -> (r: Vec<String>)
        ensures
            names_v(r@) == artist_names_of(self.plays()),
    ;

    /// Gets all the distinct albums from the recent tracks, dates parsed.
    fn albums(&self) -> (r: Result<Vec<AlbumExtract>, ParseError>)
        ensures
            match r {
                Ok(v) => dates_ok(self.plays()) && album_extracts_v(v@) == extracted_albums(
                    self.plays(),
                ),
                Err(_) => !dates_ok(self.plays()),
            },
    ;
}

impl RecentTrackExt for Vec<RecentTrack> {
    open spec fn plays(&self) -> Seq<PlayV> {
        crate::remote::plays_v(self@)
    }

    fn artists(&self) -> (r: Vec<String>) {
        extract_artists(self)
    }

    fn albums(&self) -> (r: Result<Vec<AlbumExtract>, ParseError>) {
        extract_albums(self)
    }
}

/// One entry per play: the track's title and the title of the album it
/// belongs to.  Repeated plays yield repeated entries.
pub fn extract_tracks(plays: &Vec<RecentTrack>) -> (r: Vec<TrackExtract>)
    ensures
        track_extracts_v(r@) == extracted_tracks(crate::remote::plays_v(plays@)),
{
    let ghost pv = crate::remote::plays_v(plays@);
    let mut out: Vec<TrackExtract> = Vec::new();
    let mut k: usize = 0;
    while k < plays.len()
        invariant
            k <= plays.len(),
            pv == crate::remote::plays_v(plays@),
            track_extracts_v(out@) == extracted_tracks(pv.subrange(0, k as int)),
        decreases plays.len() - k,
    {
        let ghost out_pre = out@;
        out.push(
            TrackExtract {
                title: plays[k].track.name.clone(),
                album_title: plays[k].track.album.name.clone(),
            },
        );
        proof {
            assert(track_extracts_v(out@) =~= track_extracts_v(out_pre).push(
                TrackExtractV {
                    title: pv[k as int].track_title,
                    album_title: pv[k as int].album_title,
                },
            ));
            assert(track_extracts_v(out@) =~= extracted_tracks(pv.subrange(0, k + 1)));
        }
        k = k + 1;
    }
    proof {
        assert(pv.subrange(0, plays.len() as int) =~= pv);
    }
    out
}

} // verus!
