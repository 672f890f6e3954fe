use unwrapped::dates::Date;
use unwrapped::store::{
    upsert_albums_with_artists, upsert_artists, upsert_playlogs, upsert_tracks_with_albums,
    AlbumInsert, PlayLogInsert, SyncStore, TrackInsert,
};

fn date() -> Date {
    Date { year: 2020, month: 1, day: 1 }
}

#[test]
fn a_new_store_is_empty() {
    let store = SyncStore::new();
    assert_eq!(store.artists.len(), 0);
    assert_eq!(store.albums.len(), 0);
    assert_eq!(store.album_artists.len(), 0);
    assert_eq!(store.tracks.len(), 0);
    assert_eq!(store.album_tracks.len(), 0);
    assert_eq!(store.play_logs.len(), 0);
}

#[test]
fn artist_ids_are_their_positions() {
    let mut store = SyncStore::new();
    let rows = upsert_artists(&mut store, &vec!["Y".to_string(), "Z".to_string()]);
    assert_eq!(rows.len(), 2);
    assert_eq!((rows[0].id, rows[0].name.as_str()), (0, "Y"));
    assert_eq!((rows[1].id, rows[1].name.as_str()), (1, "Z"));
}

#[test]
fn inserting_an_artist_again_is_a_no_op() {
    let mut store = SyncStore::new();
    upsert_artists(&mut store, &vec!["Y".to_string()]);
    upsert_artists(&mut store, &vec!["Y".to_string()]);
    assert_eq!(store.artists.len(), 1);
}

#[test]
fn albums_reuse_the_row_their_title_already_has() {
    let mut store = SyncStore::new();
    upsert_artists(&mut store, &vec!["Y".to_string()]);
    let items = vec![AlbumInsert {
        title: "X".to_string(),
        release_date: date(),
        artist_ids: vec![0],
    }];
    let first = upsert_albums_with_artists(&mut store, &items);
    let second = upsert_albums_with_artists(&mut store, &items);
    assert_eq!(store.albums.len(), 1);
    assert_eq!(store.album_artists.len(), 1);
    assert_eq!(first[0].id, second[0].id);
}

#[test]
fn a_second_artist_set_on_a_known_title_adds_only_links() {
    let mut store = SyncStore::new();
    upsert_artists(&mut store, &vec!["Y".to_string(), "Z".to_string()]);
    let first = vec![AlbumInsert {
        title: "X".to_string(),
        release_date: date(),
        artist_ids: vec![0],
    }];
    let with_other_artist = vec![AlbumInsert {
        title: "X".to_string(),
        release_date: Date { year: 1999, month: 9, day: 9 },
        artist_ids: vec![1],
    }];
    upsert_albums_with_artists(&mut store, &first);
    upsert_albums_with_artists(&mut store, &with_other_artist);
    // the title resolves to the first persisted row: its date stands, the new link lands
    assert_eq!(store.albums.len(), 1);
    assert_eq!(store.albums[0].release_date, date());
    assert_eq!(store.album_artists.len(), 2);
}

#[test]
fn tracks_deduplicate_by_title_and_link_once() {
    let mut store = SyncStore::new();
    upsert_artists(&mut store, &vec!["Y".to_string()]);
    upsert_albums_with_artists(
        &mut store,
        &vec![AlbumInsert { title: "X".to_string(), release_date: date(), artist_ids: vec![0] }],
    );
    let items = vec![
        TrackInsert { title: "A".to_string(), album_id: 0 },
        TrackInsert { title: "A".to_string(), album_id: 0 },
        TrackInsert { title: "B".to_string(), album_id: 0 },
    ];
    let rows = upsert_tracks_with_albums(&mut store, &items);
    assert_eq!(rows.len(), 3);
    assert_eq!(rows[0].id, rows[1].id);
    assert_eq!(store.tracks.len(), 2);
    assert_eq!(store.album_tracks.len(), 2);
}

#[test]
fn play_logs_ignore_a_pair_already_recorded() {
    let mut store = SyncStore::new();
    upsert_artists(&mut store, &vec!["Y".to_string()]);
    upsert_albums_with_artists(
        &mut store,
        &vec![AlbumInsert { title: "X".to_string(), release_date: date(), artist_ids: vec![0] }],
    );
    upsert_tracks_with_albums(&mut store, &vec![TrackInsert { title: "A".to_string(), album_id: 0 }]);
    let items = vec![
        PlayLogInsert { track_id: 0, played_at: 100 },
        PlayLogInsert { track_id: 0, played_at: 100 },
        PlayLogInsert { track_id: 0, played_at: 200 },
    ];
    upsert_playlogs(&mut store, &items);
    upsert_playlogs(&mut store, &items);
    assert_eq!(store.play_logs.len(), 2);
}

#[test]
fn the_same_instant_on_two_tracks_is_two_entries() {
    let mut store = SyncStore::new();
    upsert_artists(&mut store, &vec!["Y".to_string()]);
    upsert_albums_with_artists(
        &mut store,
        &vec![AlbumInsert { title: "X".to_string(), release_date: date(), artist_ids: vec![0] }],
    );
    upsert_tracks_with_albums(
        &mut store,
        &vec![
            TrackInsert { title: "A".to_string(), album_id: 0 },
            TrackInsert { title: "B".to_string(), album_id: 0 },
        ],
    );
    upsert_playlogs(
        &mut store,
        &vec![
            PlayLogInsert { track_id: 0, played_at: 100 },
            PlayLogInsert { track_id: 1, played_at: 100 },
        ],
    );
    assert_eq!(store.play_logs.len(), 2);
}
