//! The remote data client's decisions.
//!
//! The client owns the access and refresh credentials and the single
//! capability of retrying once after an authentication failure.  The network
//! exchanges themselves happen outside the library; what is verified here is
//! every decision around them: normalizing the envelope that can carry an
//! error even under a successful exchange, refreshing on exactly one signal —
//! a 401 — at most once per run, and composing the request headers and body
//! that the exchanges need.

use vstd::prelude::*;
use vstd::string::StrSliceExecFns;
use vstd::string::StringExecFns;
use crate::remote::{RecentTrack, RecentTracksResponse, RefreshTokenResponse, SpotifyError};

verus! {

/// The client for the remote music service: the credentials it acts with.
pub struct SpotifyClient {
    pub access_token: String,
    pub refresh_token: Option<String>,
}

impl SpotifyClient {
    /// A client holding an access token and no refresh token.
    pub fn new(access_token: String) -> (r: Self)
        ensures
            r.access_token == access_token,
            r.refresh_token is None,
    {
        SpotifyClient { access_token, refresh_token: None }
    }

    /// The same client with the given refresh token.
    pub fn set_refresh_token(self, refresh_token: Option<String>) -> (r: Self)
        ensures
            r.access_token == self.access_token,
            r.refresh_token == refresh_token,
    {
        SpotifyClient { refresh_token, ..self }
    }

    /// The same client with the given access token.
    pub fn set_access_token(self, access_token: String) -> (r: Self)
        ensures
            r.access_token == access_token,
            r.refresh_token == self.refresh_token,
    {
        SpotifyClient { access_token, ..self }
    }
}

/// The remote service may answer a successful exchange with an error object
/// in the envelope.  Both failure shapes — an embedded error and a missing
/// item list — normalize to one result: the error as reported, or the plays
/// (an absent list counts as no plays).
pub fn normalize_recent_tracks(resp: RecentTracksResponse) -> (r: Result<
    Vec<RecentTrack>,
    SpotifyError,
>)
    ensures
        resp.error matches Some(e) ==> r == Err::<Vec<RecentTrack>, SpotifyError>(e),
        match resp.items {
            Some(v) => resp.error is None ==> r == Ok::<Vec<RecentTrack>, SpotifyError>(v),
            None => resp.error is None ==> (r matches Ok(w) && w@.len() == 0),
        },
{
    match resp.error {
        Some(e) => Err(e),
        None => match resp.items {
            Some(v) => Ok(v),
            None => Ok(Vec::new()),
        },
    }
}

/// Why a run failed, as the route boundary reports it: an authentication the
/// service finally refused, a refresh that could not be carried out, or any
/// other failure.
#[derive(Clone, Copy, PartialEq, Eq, Structural, Debug)]
pub enum FailureKind {
    AuthUnrecoverable,
    RefreshFailed,
    Other,
}

/// Where a collection run stands between exchanges.
pub enum CollectState {
    /// A fetch of recent plays is owed; `retried` says whether this is the
    /// one retry after a refresh.
    Fetching { client: SpotifyClient, retried: bool, updated_token: Option<String> },
    /// A token refresh is owed.
    Refreshing { client: SpotifyClient },
    /// The run completed with these plays; a refreshed access token, if one
    /// was obtained, travels back to the caller.
    Done { items: Vec<RecentTrack>, updated_token: Option<String> },
    /// The run failed; no further exchange follows.
    Failed { error: SpotifyError, kind: FailureKind },
}

/// What the driver should do next for a given state.
pub enum CollectAction {
    /// Fetch recent plays with this access token.
    Fetch(String),
    /// Exchange this refresh token for a new access token.
    Refresh(String),
    /// The run is over.
    Stop,
}

impl CollectState {
    /// A refresh is only ever owed while a refresh token is held.
    pub open spec fn inv(self) -> bool {
        match self {
            CollectState::Refreshing { client } => client.refresh_token is Some,
            _ => true,
        }
    }
}

/// The opening state of a run: the first fetch is owed with the caller's
/// credentials, nothing retried, no refreshed token yet.
pub fn start_collect(access_token: String, refresh_token: Option<String>) -> (r: CollectState)
    ensures
        r matches CollectState::Fetching { client, retried, updated_token } && client.access_token
            == access_token && client.refresh_token == refresh_token && retried == false
            && updated_token is None,
        r.inv(),
{
    let client = SpotifyClient::new(access_token).set_refresh_token(refresh_token);
    CollectState::Fetching { client, retried: false, updated_token: None }
}

/// How a fetch outcome moves the run forward.  `outcome` is the parsed
/// envelope of the exchange, or nothing where the exchange itself failed.
/// One signal alone triggers a refresh: an embedded 401 on the first,
/// unretried fetch while a refresh token is held.
pub open spec fn fetch_transition(
    pre: CollectState,
    outcome: Option<RecentTracksResponse>,
    post: CollectState,
) -> bool {
    match pre {
        CollectState::Fetching { client, retried, updated_token } => match outcome {
            Some(resp) => match resp.error {
                Some(e) => {
                    if e.status == 401 && !retried {
                        match client.refresh_token {
                            Some(_) => post matches CollectState::Refreshing { client: c }
                                && c == client,
                            None => post matches CollectState::Failed { error, kind } && kind
                                == FailureKind::RefreshFailed && error.status == 400
                                && error.message@ == "No refresh token provided"@,
                        }
                    } else {
                        post matches CollectState::Failed { error, kind } && error == e && kind
                            == (if e.status == 401 {
                            FailureKind::AuthUnrecoverable
                        } else {
                            FailureKind::Other
                        })
                    }
                },
                None => post matches CollectState::Done { items, updated_token: u } && u
                    == updated_token && (match resp.items {
                    Some(v) => items == v,
                    None => items@.len() == 0,
                }),
            },
            None => post matches CollectState::Failed { error, kind } && kind == FailureKind::Other
                && error.status == 500 && error.message@
                == "Internal error requesting recent tracks from Spotify"@,
        },
        _ => false,
    }
}

/// How a refresh outcome moves the run forward: a fresh token re-arms the one
/// retried fetch and travels with the run; a failed exchange ends it.
pub open spec fn refresh_transition(
    pre: CollectState,
    outcome: Option<RefreshTokenResponse>,
    post: CollectState,
) -> bool {
    match pre {
        CollectState::Refreshing { client } => match outcome {
            Some(tok) => post matches CollectState::Fetching { client: c, retried, updated_token }
                && retried == true && c.access_token == tok.access_token && c.refresh_token
                == client.refresh_token && updated_token == Some(tok.access_token),
            None => post matches CollectState::Failed { error, kind } && kind
                == FailureKind::RefreshFailed && error.status == 500 && error.message@
                == "Internal error requesting access token from Spotify"@,
        },
        _ => false,
    }
}

/// Applies a fetch outcome to a run awaiting one.
pub fn on_fetch_outcome(state: CollectState, outcome: Option<RecentTracksResponse>) -> (r:
    CollectState)
    requires
        state matches CollectState::Fetching { .. },
    ensures
        fetch_transition(state, outcome, r),
        r.inv(),
{
    let (client, retried, updated_token) = match state {
        CollectState::Fetching { client, retried, updated_token } => (
            client,
            retried,
            updated_token,
        ),
        _ => {
            proof {
                assert(false);
            }
            unreached()
        },
    };
    match outcome {
        Some(resp) => {
            let has_refresh = client.refresh_token.is_some();
            match normalize_recent_tracks(resp) {
                Ok(items) => CollectState::Done { items, updated_token },
                Err(e) => {
                    if e.status == 401 && !retried {
                        if has_refresh {
                            CollectState::Refreshing { client }
                        } else {
                            CollectState::Failed {
                                error: SpotifyError {
                                    status: 400,
                                    message: "No refresh token provided".to_owned(),
                                },
                                kind: FailureKind::RefreshFailed,
                            }
                        }
                    } else {
                        let kind = if e.status == 401 {
                            FailureKind::AuthUnrecoverable
                        } else {
                            FailureKind::Other
                        };
                        CollectState::Failed { error: e, kind }
                    }
                },
            }
        },
        None => CollectState::Failed {
            error: SpotifyError {
                status: 500,
                message: "Internal error requesting recent tracks from Spotify".to_owned(),
            },
            kind: FailureKind::Other,
        },
    }
}

/// Applies a refresh outcome to a run awaiting one.
pub fn on_refresh_outcome(state: CollectState, outcome: Option<RefreshTokenResponse>) -> (r:
    CollectState)
    requires
        state matches CollectState::Refreshing { .. },
    ensures
        refresh_transition(state, outcome, r),
        r.inv(),
{
    let client = match state {
        CollectState::Refreshing { client } => client,
        _ => {
            proof {
                assert(false);
            }
            unreached()
        },
    };
    match outcome {
        Some(tok) => {
            let updated = tok.access_token.clone();
            let client = client.set_access_token(tok.access_token);
            CollectState::Fetching { client, retried: true, updated_token: Some(updated) }
        },
        None => CollectState::Failed {
            error: SpotifyError {
                status: 500,
                message: "Internal error requesting access token from Spotify".to_owned(),
            },
            kind: FailureKind::RefreshFailed,
        },
    }
}

/// What the driver owes the run next.
pub fn next_action(state: &CollectState) -> (a: CollectAction)
    requires
        state.inv(),
    ensures
        match *state {
            CollectState::Fetching { .. } => a matches CollectAction::Fetch(t) && (
            state matches CollectState::Fetching { client, .. } ==> t == client.access_token),
            CollectState::Refreshing { .. } => a matches CollectAction::Refresh(t) && (
            state matches CollectState::Refreshing { client } ==> client.refresh_token == Some(t)),
            CollectState::Done { .. } => a is Stop,
            CollectState::Failed { .. } => a is Stop,
        },
{
    match state {
        CollectState::Fetching { client, .. } => CollectAction::Fetch(client.access_token.clone()),
        CollectState::Refreshing { client } => {
            match &client.refresh_token {
                Some(t) => CollectAction::Refresh(t.clone()),
                None => {
                    proof {
                        assert(false);
                    }
                    unreached()
                },
            }
        },
        CollectState::Done { .. } => CollectAction::Stop,
        CollectState::Failed { .. } => CollectAction::Stop,
    }
}

/// Auth recovery.  A run whose first fetch comes back with an embedded 401
/// while a refresh token is held moves to exactly one refresh; once the
/// refresh succeeds, the retried fetch ends the run either way: a clean
/// envelope completes it and hands back the refreshed token, and any failure
/// — another 401 included — ends it with no second refresh attempted.
pub proof fn lemma_auth_recovery(
    s0: CollectState,
    resp1: RecentTracksResponse,
    s1: CollectState,
    tok: RefreshTokenResponse,
    s2: CollectState,
    o2: Option<RecentTracksResponse>,
    s3: CollectState,
)
    requires
        s0 matches CollectState::Fetching { client, retried, updated_token } && retried == false
            && client.refresh_token is Some,
        resp1.error matches Some(e) && e.status == 401,
        fetch_transition(s0, Some(resp1), s1),
        refresh_transition(s1, Some(tok), s2),
        fetch_transition(s2, o2, s3),
    ensures
        s1 is Refreshing,
        s2 matches CollectState::Fetching { retried: r2, .. } && r2 == true,
        match o2 {
            Some(resp) => match resp.error {
                None => s3 matches CollectState::Done { items, updated_token } && updated_token
                    == Some(tok.access_token) && (match resp.items {
                    Some(v) => items == v,
                    None => items@.len() == 0,
                }),
                Some(e) => e.status == 401 ==> (s3 matches CollectState::Failed { kind, error }
                    && kind == FailureKind::AuthUnrecoverable && error == e),
            },
            None => true,
        },
        !(s3 is Refreshing),
{
}

/// What base64's standard, padded engine returns for a string's UTF-8 bytes.
pub uninterp spec fn base64_std_of(s: Seq<char>) -> Seq<char>;

/// Relies on base64's standard engine with padding: the encoding of the
/// input's UTF-8 bytes, deterministic in the input alone, four output
/// characters for every three input bytes begun.
#[verifier::external_body]
fn base64_standard(s: &str) -> (r: String)
    ensures
        r@ == base64_std_of(s@),
        vstd::string::is_ascii(s) ==> r@.len() == 4 * ((s@.len() + 2) / 3),
{
    base64::Engine::encode(&base64::engine::general_purpose::STANDARD, s.as_bytes())
}

/// The `Authorization` value for HTTP Basic auth with the given client
/// credentials, as the token-refresh exchange requires: the scheme name, a
/// space, and the base64 of `id:secret`.
pub fn basic_auth_value(client_id: &str, client_secret: &str) -> (r: String)
    ensures
        r@ == "Basic "@ + base64_std_of(client_id@ + ":"@ + client_secret@),
{
    let mut joined = client_id.to_owned();
    joined.append(":");
    joined.append(client_secret);
    proof {
        assert(joined@ =~= client_id@ + ":"@ + client_secret@);
    }
    let encoded = base64_standard(joined.as_str());
    let mut out = "Basic ".to_owned();
    out.append(encoded.as_str());
    out
}

/// The `Authorization` value for a bearer token, as the recent-plays fetch
/// requires.
pub fn bearer_auth_value(access_token: &str) -> (r: String)
    ensures
        r@ == "Bearer "@ + access_token@,
{
    let mut out = "Bearer ".to_owned();
    out.append(access_token);
    out
}

/// The form-encoded body of the token-refresh exchange.
pub fn refresh_request_body(refresh_token: &str) -> (r: String)
    ensures
        r@ == "grant_type=refresh_token&refresh_token="@ + refresh_token@,
{
    let mut out = "grant_type=refresh_token&refresh_token=".to_owned();
    out.append(refresh_token);
    out
}

} // verus!
