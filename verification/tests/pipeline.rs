use unwrapped::client::FailureKind;
use unwrapped::pipeline::{http_status_of, resolve_artist_ids, run_sync, SyncError};
use unwrapped::dates::ParseError;
use unwrapped::remote::{Album, Artist, ExternalUrls, RecentTrack, SpotifyError, Track};
use unwrapped::store::{upsert_artists, ArtistRow, DBError, SyncStore};

fn urls() -> ExternalUrls {
    ExternalUrls { spotify: String::new() }
}

fn play(track: &str, album: &str, artists: &[&str], date: &str, at: &str) -> RecentTrack {
    RecentTrack {
        track: Track {
            name: track.to_string(),
            album: Album {
                images: Vec::new(),
                name: album.to_string(),
                release_date: date.to_string(),
                album_type: "album".to_string(),
                external_urls: urls(),
                artists: artists
                    .iter()
                    .map(|a| Artist { name: a.to_string(), external_urls: urls() })
                    .collect(),
            },
            external_urls: urls(),
        },
        played_at: at.to_string(),
    }
}

fn counts(store: &SyncStore) -> (usize, usize, usize, usize, usize, usize) {
    (
        store.artists.len(),
        store.albums.len(),
        store.album_artists.len(),
        store.tracks.len(),
        store.album_tracks.len(),
        store.play_logs.len(),
    )
}

#[test]
fn two_plays_on_one_album_fill_all_five_tables() {
    let plays = vec![
        play("A", "X", &["Y"], "2020-01-01", "2024-01-01T00:00:00Z"),
        play("B", "X", &["Y"], "2020-01-01", "2024-01-01T00:05:00Z"),
    ];
    let mut store = SyncStore::new();
    assert!(run_sync(&mut store, &plays).is_ok());
    assert_eq!(counts(&store), (1, 1, 1, 2, 2, 2));
    assert_eq!(store.artists[0].name, "Y");
    assert_eq!(store.albums[0].title, "X");
    assert_eq!(store.tracks[0].title, "A");
    assert_eq!(store.tracks[1].title, "B");
    assert_eq!(store.play_logs[0].played_at, 1704067200);
    assert_eq!(store.play_logs[1].played_at, 1704067500);
}

#[test]
fn rerunning_the_identical_input_changes_no_counts() {
    let plays = vec![
        play("A", "X", &["Y"], "2020-01-01", "2024-01-01T00:00:00Z"),
        play("B", "X", &["Y"], "2020-01-01", "2024-01-01T00:05:00Z"),
    ];
    let mut store = SyncStore::new();
    assert!(run_sync(&mut store, &plays).is_ok());
    let after_first = counts(&store);
    assert!(run_sync(&mut store, &plays).is_ok());
    assert_eq!(counts(&store), after_first);
}

#[test]
fn rerunning_leaves_every_row_exactly_as_it_was() {
    let plays = vec![
        play("A", "X", &["Y", "Z"], "2020-01-01", "2024-01-01T00:00:00Z"),
        play("B", "W", &["Y"], "2021-06-30", "2024-01-01T00:05:00Z"),
    ];
    let mut store = SyncStore::new();
    assert!(run_sync(&mut store, &plays).is_ok());
    let artists: Vec<(usize, String)> =
        store.artists.iter().map(|r| (r.id, r.name.clone())).collect();
    let albums: Vec<(usize, String)> =
        store.albums.iter().map(|r| (r.id, r.title.clone())).collect();
    let links: Vec<(usize, usize)> =
        store.album_artists.iter().map(|r| (r.album_id, r.artist_id)).collect();
    let logs: Vec<(usize, i64)> =
        store.play_logs.iter().map(|r| (r.track_id, r.played_at)).collect();
    assert!(run_sync(&mut store, &plays).is_ok());
    assert_eq!(
        artists,
        store.artists.iter().map(|r| (r.id, r.name.clone())).collect::<Vec<_>>()
    );
    assert_eq!(
        albums,
        store.albums.iter().map(|r| (r.id, r.title.clone())).collect::<Vec<_>>()
    );
    assert_eq!(
        links,
        store.album_artists.iter().map(|r| (r.album_id, r.artist_id)).collect::<Vec<_>>()
    );
    assert_eq!(
        logs,
        store.play_logs.iter().map(|r| (r.track_id, r.played_at)).collect::<Vec<_>>()
    );
}

#[test]
fn overlapping_windows_add_only_the_new_history() {
    let first = vec![
        play("A", "X", &["Y"], "2020-01-01", "2024-01-01T00:00:00Z"),
        play("B", "X", &["Y"], "2020-01-01", "2024-01-01T00:05:00Z"),
    ];
    let second = vec![
        play("B", "X", &["Y"], "2020-01-01", "2024-01-01T00:05:00Z"),
        play("B", "X", &["Y"], "2020-01-01", "2024-01-01T00:10:00Z"),
    ];
    let mut store = SyncStore::new();
    assert!(run_sync(&mut store, &first).is_ok());
    assert!(run_sync(&mut store, &second).is_ok());
    assert_eq!(counts(&store), (1, 1, 1, 2, 2, 3));
}

#[test]
fn a_repeated_play_of_one_track_is_logged_once_per_instant() {
    let plays = vec![
        play("A", "X", &["Y"], "2020-01-01", "2024-01-01T00:00:00Z"),
        play("A", "X", &["Y"], "2020-01-01", "2024-01-01T00:00:00Z"),
    ];
    let mut store = SyncStore::new();
    assert!(run_sync(&mut store, &plays).is_ok());
    assert_eq!(counts(&store), (1, 1, 1, 1, 1, 1));
}

#[test]
fn a_malformed_release_date_fails_before_any_album_insert() {
    let plays = vec![play("A", "X", &["Y"], "not-a-date", "2024-01-01T00:00:00Z")];
    let mut store = SyncStore::new();
    match run_sync(&mut store, &plays) {
        Err(SyncError::Parse(ParseError)) => {},
        _ => panic!("expected a parse error"),
    }
    assert_eq!(store.albums.len(), 0);
    assert_eq!(store.album_artists.len(), 0);
    assert_eq!(store.tracks.len(), 0);
    assert_eq!(store.play_logs.len(), 0);
    // the artist stage had already committed
    assert_eq!(store.artists.len(), 1);
}

#[test]
fn a_malformed_timestamp_fails_before_any_log_insert() {
    let plays = vec![play("A", "X", &["Y"], "2020-01-01", "whenever")];
    let mut store = SyncStore::new();
    match run_sync(&mut store, &plays) {
        Err(SyncError::Parse(ParseError)) => {},
        _ => panic!("expected a parse error"),
    }
    assert_eq!(store.play_logs.len(), 0);
    // the earlier stages had already committed
    assert_eq!(counts(&store), (1, 1, 1, 1, 1, 0));
}

#[test]
fn two_artists_on_one_album_link_twice() {
    let plays = vec![play("A", "X", &["Y", "Z"], "2020-01-01", "2024-01-01T00:00:00Z")];
    let mut store = SyncStore::new();
    assert!(run_sync(&mut store, &plays).is_ok());
    assert_eq!(counts(&store), (2, 1, 2, 1, 1, 1));
}

#[test]
fn pre_existing_artists_keep_their_ids() {
    let mut store = SyncStore::new();
    let first = upsert_artists(&mut store, &vec!["Y".to_string(), "Z".to_string()]);
    assert_eq!(first.len(), 2);
    let y_id = first[0].id;
    let rows = upsert_artists(
        &mut store,
        &vec!["Q".to_string(), "Y".to_string(), "Q".to_string()],
    );
    // one row per distinct requested name, pre-existing ids unchanged
    assert_eq!(rows.len(), 2);
    assert_eq!(rows[0].name, "Q");
    assert_eq!(rows[1].name, "Y");
    assert_eq!(rows[1].id, y_id);
    assert_eq!(store.artists.len(), 3);
}

#[test]
fn the_resolver_returns_one_id_per_requested_name() {
    let rows = vec![
        ArtistRow { id: 0, name: "Y".to_string() },
        ArtistRow { id: 1, name: "Z".to_string() },
    ];
    let ids = resolve_artist_ids(&vec!["Z".to_string(), "Y".to_string(), "Z".to_string()], &rows)
        .unwrap();
    assert_eq!(ids, vec![1, 0, 1]);
}

#[test]
fn a_name_with_no_row_is_an_integrity_error() {
    let rows = vec![ArtistRow { id: 0, name: "Y".to_string() }];
    match resolve_artist_ids(&vec!["missing".to_string()], &rows) {
        Err(SyncError::Integrity(_)) => {},
        _ => panic!("expected an integrity error"),
    }
}

#[test]
fn failures_map_to_the_route_statuses() {
    let auth = |kind| SyncError::Auth {
        kind,
        error: SpotifyError { status: 401, message: String::new() },
    };
    assert_eq!(http_status_of(&auth(FailureKind::AuthUnrecoverable)), 401);
    assert_eq!(http_status_of(&auth(FailureKind::RefreshFailed)), 422);
    assert_eq!(http_status_of(&auth(FailureKind::Other)), 500);
    assert_eq!(http_status_of(&SyncError::Parse(ParseError)), 500);
    assert_eq!(http_status_of(&SyncError::Storage(DBError)), 500);
}

#[test]
fn one_title_under_two_artist_sets_attaches_to_the_first_row() {
    // the known sharp edge: identity by title alone
    let plays = vec![
        play("A", "X", &["Y"], "2020-01-01", "2024-01-01T00:00:00Z"),
        play("B", "X", &["Z"], "2020-01-01", "2024-01-01T00:05:00Z"),
    ];
    let mut store = SyncStore::new();
    assert!(run_sync(&mut store, &plays).is_ok());
    // one album row; only the first occurrence's artist set is linked
    assert_eq!(store.albums.len(), 1);
    assert_eq!(store.album_artists.len(), 1);
    assert_eq!(store.artists.len(), 2);
}
