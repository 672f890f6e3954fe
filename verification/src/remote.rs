//! The shapes the remote music service reports, as plain values.
//!
//! A "recently played" response carries a list of play records: a track, its
//! album, the album's artists, and the time the track was played.  The same
//! envelope can instead — or additionally — carry an error object, even under
//! a successful transport exchange; normalizing both shapes to one error type
//! is the client's job.  The view of a play record gathers exactly what the
//! pipeline reads: titles, names, and the two date strings.

use vstd::prelude::*;

verus! {

/// An error reported by the remote service or by the exchange with it.
#[derive(Debug)]
pub struct SpotifyError {
    pub status: u16,
    pub message: String,
}

pub struct ExternalUrls {
    pub spotify: String,
}

pub struct AlbumImage {
    pub url: String,
    pub width: u32,
    pub height: u32,
}

pub struct Artist {
    pub name: String,
    pub external_urls: ExternalUrls,
}

pub struct Album {
    pub images: Vec<AlbumImage>,
    pub name: String,
    pub release_date: String,
    pub album_type: String,
    pub external_urls: ExternalUrls,
    pub artists: Vec<Artist>,
}

pub struct Track {
    pub name: String,
    pub album: Album,
    pub external_urls: ExternalUrls,
}

/// One play record: a track and the time it was played.
pub struct RecentTrack {
    pub track: Track,
    pub played_at: String,
}

/// The "recently played" envelope: a list of plays, an embedded error, or
/// both fields absent.
pub struct RecentTracksResponse {
    pub items: Option<Vec<RecentTrack>>,
    pub error: Option<SpotifyError>,
}

/// The token-refresh response: a fresh access token and its metadata.
pub struct RefreshTokenResponse {
    pub access_token: String,
    pub token_type: String,
    pub scope: String,
    pub expires_in: u32,
}

/// What the pipeline reads of one play record.
pub struct PlayV {
    pub track_title: Seq<char>,
    pub album_title: Seq<char>,
    pub release_date: Seq<char>,
    pub artist_names: Seq<Seq<char>>,
    pub played_at: Seq<char>,
}

impl View for RecentTrack {
    type V = PlayV;

    open spec fn view(&self) -> PlayV {
        PlayV {
            track_title: self.track.name@,
            album_title: self.track.album.name@,
            release_date: self.track.album.release_date@,
            artist_names: self.track.album.artists@.map_values(|a: Artist| a.name@),
            played_at: self.played_at@,
        }
    }
}

pub open spec fn plays_v(plays: Seq<RecentTrack>) -> Seq<PlayV> {
    plays.map_values(|p: RecentTrack| p@)
}

} // verus!
