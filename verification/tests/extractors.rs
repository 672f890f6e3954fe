use unwrapped::extract::{extract_albums, extract_artists, extract_tracks, RecentTrackExt};
use unwrapped::dates::Date;
use unwrapped::remote::{Album, Artist, ExternalUrls, RecentTrack, Track};

fn urls() -> ExternalUrls {
    ExternalUrls { spotify: String::new() }
}

fn play(track: &str, album: &str, artists: &[&str], date: &str, at: &str) -> RecentTrack {
    RecentTrack {
        track: Track {
            name: track.to_string(),
            album: Album {
                images: Vec::new(),
                name: album.to_string(),
                release_date: date.to_string(),
                album_type: "album".to_string(),
                external_urls: urls(),
                artists: artists
                    .iter()
                    .map(|a| Artist { name: a.to_string(), external_urls: urls() })
                    .collect(),
            },
            external_urls: urls(),
        },
        played_at: at.to_string(),
    }
}

#[test]
fn artists_flatten_without_deduplication() {
    let plays = vec![
        play("A", "X", &["Y", "Z"], "2020-01-01", "2024-01-01T00:00:00Z"),
        play("B", "X", &["Y"], "2020-01-01", "2024-01-01T00:05:00Z"),
    ];
    let names = extract_artists(&plays);
    assert_eq!(names, vec!["Y".to_string(), "Z".to_string(), "Y".to_string()]);
}

#[test]
fn albums_keep_one_entry_per_distinct_title() {
    let plays = vec![
        play("A", "X", &["Y"], "2020-01-01", "2024-01-01T00:00:00Z"),
        play("B", "X", &["Y"], "2020-01-01", "2024-01-01T00:05:00Z"),
        play("C", "W", &["Z"], "2021-06-30", "2024-01-01T00:10:00Z"),
    ];
    let albums = extract_albums(&plays).unwrap();
    assert_eq!(albums.len(), 2);
    assert_eq!(albums[0].title, "X");
    assert_eq!(albums[0].release_date, Date { year: 2020, month: 1, day: 1 });
    assert_eq!(albums[0].artist_names, vec!["Y".to_string()]);
    assert_eq!(albums[1].title, "W");
    assert_eq!(albums[1].release_date, Date { year: 2021, month: 6, day: 30 });
}

#[test]
fn the_first_occurrence_of_a_title_wins() {
    let plays = vec![
        play("A", "X", &["Y"], "2020-01-01", "2024-01-01T00:00:00Z"),
        play("B", "X", &["Q"], "1999-09-09", "2024-01-01T00:05:00Z"),
    ];
    let albums = extract_albums(&plays).unwrap();
    assert_eq!(albums.len(), 1);
    assert_eq!(albums[0].release_date, Date { year: 2020, month: 1, day: 1 });
    assert_eq!(albums[0].artist_names, vec!["Y".to_string()]);
}

#[test]
fn a_malformed_release_date_fails_the_extraction() {
    let plays = vec![play("A", "X", &["Y"], "not-a-date", "2024-01-01T00:00:00Z")];
    assert!(extract_albums(&plays).is_err());
}

#[test]
fn a_malformed_date_on_a_repeated_title_is_never_read() {
    let plays = vec![
        play("A", "X", &["Y"], "2020-01-01", "2024-01-01T00:00:00Z"),
        play("B", "X", &["Y"], "not-a-date", "2024-01-01T00:05:00Z"),
    ];
    assert!(extract_albums(&plays).is_ok());
}

#[test]
fn a_play_list_offers_its_artists_and_albums() {
    let plays = vec![
        play("A", "X", &["Y"], "2020-01-01", "2024-01-01T00:00:00Z"),
        play("B", "X", &["Z"], "2020-01-01", "2024-01-01T00:05:00Z"),
    ];
    assert_eq!(plays.artists(), vec!["Y".to_string(), "Z".to_string()]);
    let albums = plays.albums().unwrap();
    assert_eq!(albums.len(), 1);
    assert_eq!(albums[0].title, "X");
}

#[test]
fn tracks_keep_one_entry_per_play() {
    let plays = vec![
        play("A", "X", &["Y"], "2020-01-01", "2024-01-01T00:00:00Z"),
        play("A", "X", &["Y"], "2020-01-01", "2024-01-01T00:05:00Z"),
        play("B", "W", &["Z"], "2021-06-30", "2024-01-01T00:10:00Z"),
    ];
    let tracks = extract_tracks(&plays);
    assert_eq!(tracks.len(), 3);
    assert_eq!(tracks[0].title, "A");
    assert_eq!(tracks[0].album_title, "X");
    assert_eq!(tracks[1].title, "A");
    assert_eq!(tracks[2].title, "B");
    assert_eq!(tracks[2].album_title, "W");
}
