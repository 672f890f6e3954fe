use unwrapped::client::{
    basic_auth_value, bearer_auth_value, next_action, normalize_recent_tracks, on_fetch_outcome,
    on_refresh_outcome, refresh_request_body, start_collect, CollectAction, CollectState,
    FailureKind, SpotifyClient,
};
use unwrapped::remote::{
    Album, Artist, ExternalUrls, RecentTrack, RecentTracksResponse, RefreshTokenResponse,
    SpotifyError, Track,
};

fn urls() -> ExternalUrls {
    ExternalUrls { spotify: String::new() }
}

fn one_play() -> RecentTrack {
    RecentTrack {
        track: Track {
            name: "A".to_string(),
            album: Album {
                images: Vec::new(),
                name: "X".to_string(),
                release_date: "2020-01-01".to_string(),
                album_type: "album".to_string(),
                external_urls: urls(),
                artists: vec![Artist { name: "Y".to_string(), external_urls: urls() }],
            },
            external_urls: urls(),
        },
        played_at: "2024-01-01T00:00:00Z".to_string(),
    }
}

fn ok_response() -> RecentTracksResponse {
    RecentTracksResponse { items: Some(vec![one_play()]), error: None }
}

fn err_response(status: u16) -> RecentTracksResponse {
    RecentTracksResponse {
        items: None,
        error: Some(SpotifyError { status, message: "denied".to_string() }),
    }
}

fn refresh_ok(token: &str) -> RefreshTokenResponse {
    RefreshTokenResponse {
        access_token: token.to_string(),
        token_type: "Bearer".to_string(),
        scope: String::new(),
        expires_in: 3600,
    }
}

#[test]
fn client_holds_the_tokens_it_is_given() {
    let c = SpotifyClient::new("acc".to_string());
    assert_eq!(c.access_token, "acc");
    assert!(c.refresh_token.is_none());
    let c = c.set_refresh_token(Some("ref".to_string()));
    assert_eq!(c.refresh_token.as_deref(), Some("ref"));
    let c = c.set_access_token("acc2".to_string());
    assert_eq!(c.access_token, "acc2");
    assert_eq!(c.refresh_token.as_deref(), Some("ref"));
}

#[test]
fn an_embedded_error_normalizes_to_that_error() {
    let r = normalize_recent_tracks(err_response(403));
    match r {
        Err(e) => {
            assert_eq!(e.status, 403);
            assert_eq!(e.message, "denied");
        },
        Ok(_) => panic!("expected the embedded error"),
    }
}

#[test]
fn a_missing_item_list_counts_as_no_plays() {
    let r = normalize_recent_tracks(RecentTracksResponse { items: None, error: None });
    assert_eq!(r.unwrap().len(), 0);
}

#[test]
fn a_clean_envelope_yields_its_plays() {
    let r = normalize_recent_tracks(ok_response());
    assert_eq!(r.unwrap().len(), 1);
}

#[test]
fn a_first_fetch_that_succeeds_finishes_without_refresh() {
    let s = start_collect("acc".to_string(), Some("ref".to_string()));
    let s = on_fetch_outcome(s, Some(ok_response()));
    match s {
        CollectState::Done { items, updated_token } => {
            assert_eq!(items.len(), 1);
            assert!(updated_token.is_none());
        },
        _ => panic!("expected the run to be done"),
    }
}

#[test]
fn a_401_with_a_refresh_token_refreshes_once_and_succeeds() {
    let s = start_collect("acc".to_string(), Some("ref".to_string()));
    let s = on_fetch_outcome(s, Some(err_response(401)));
    match next_action(&s) {
        CollectAction::Refresh(t) => assert_eq!(t, "ref"),
        _ => panic!("expected a refresh to be owed"),
    }
    let s = on_refresh_outcome(s, Some(refresh_ok("fresh")));
    match next_action(&s) {
        CollectAction::Fetch(t) => assert_eq!(t, "fresh"),
        _ => panic!("expected the retried fetch to be owed"),
    }
    let s = on_fetch_outcome(s, Some(ok_response()));
    match s {
        CollectState::Done { items, updated_token } => {
            assert_eq!(items.len(), 1);
            assert_eq!(updated_token.as_deref(), Some("fresh"));
        },
        _ => panic!("expected the run to be done"),
    }
}

#[test]
fn two_consecutive_401s_fail_without_a_second_refresh() {
    let s = start_collect("acc".to_string(), Some("ref".to_string()));
    let s = on_fetch_outcome(s, Some(err_response(401)));
    let s = on_refresh_outcome(s, Some(refresh_ok("fresh")));
    let s = on_fetch_outcome(s, Some(err_response(401)));
    match s {
        CollectState::Failed { error, kind } => {
            assert_eq!(error.status, 401);
            assert_eq!(kind, FailureKind::AuthUnrecoverable);
        },
        _ => panic!("expected the run to have failed"),
    }
}

#[test]
fn a_401_without_a_refresh_token_fails_as_a_refresh_failure() {
    let s = start_collect("acc".to_string(), None);
    let s = on_fetch_outcome(s, Some(err_response(401)));
    match s {
        CollectState::Failed { error, kind } => {
            assert_eq!(error.status, 400);
            assert_eq!(error.message, "No refresh token provided");
            assert_eq!(kind, FailureKind::RefreshFailed);
        },
        _ => panic!("expected the run to have failed"),
    }
}

#[test]
fn a_non_401_error_propagates_unchanged() {
    let s = start_collect("acc".to_string(), Some("ref".to_string()));
    let s = on_fetch_outcome(s, Some(err_response(429)));
    match s {
        CollectState::Failed { error, kind } => {
            assert_eq!(error.status, 429);
            assert_eq!(kind, FailureKind::Other);
        },
        _ => panic!("expected the run to have failed"),
    }
}

#[test]
fn a_failed_refresh_exchange_ends_the_run() {
    let s = start_collect("acc".to_string(), Some("ref".to_string()));
    let s = on_fetch_outcome(s, Some(err_response(401)));
    let s = on_refresh_outcome(s, None);
    match s {
        CollectState::Failed { error, kind } => {
            assert_eq!(error.status, 500);
            assert_eq!(kind, FailureKind::RefreshFailed);
        },
        _ => panic!("expected the run to have failed"),
    }
}

#[test]
fn a_fresh_run_owes_a_fetch_with_the_callers_token() {
    let s = start_collect("a".to_string(), None);
    match next_action(&s) {
        CollectAction::Fetch(t) => assert_eq!(t, "a"),
        _ => panic!("expected a fetch to be owed"),
    }
}

#[test]
fn a_transport_failure_is_an_internal_error() {
    let s = start_collect("acc".to_string(), Some("ref".to_string()));
    let s = on_fetch_outcome(s, None);
    match s {
        CollectState::Failed { error, kind } => {
            assert_eq!(error.status, 500);
            assert_eq!(kind, FailureKind::Other);
        },
        _ => panic!("expected the run to have failed"),
    }
}

#[test]
fn basic_auth_encodes_the_joined_credentials() {
    assert_eq!(basic_auth_value("id", "secret"), "Basic aWQ6c2VjcmV0");
}

#[test]
fn bearer_auth_prefixes_the_token() {
    assert_eq!(bearer_auth_value("tok"), "Bearer tok");
}

#[test]
fn the_refresh_body_is_form_encoded() {
    assert_eq!(
        refresh_request_body("ref"),
        "grant_type=refresh_token&refresh_token=ref"
    );
}
