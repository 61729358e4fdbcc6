//! Configuration, login sessions and the login hand-shake's pending state.

use vstd::prelude::*;
use crate::codec::{b64url_encode, b64url_spec};
use crate::table::{StrMap, Stamped, pruned};
use crate::text::{
    chars_of, find_char, has_prefix_at, lemma_find_char, lemma_find_char_range, hex_lower, hex_spec, same_text, split, split_once,
    split_spec, trim, trim_spec, views,
};

verus! {

/// Name of the cookie that carries the session token.
pub const SESSION_COOKIE: &'static str = "container_ui_session";

/// Sessions older than this (in seconds) are dropped.
pub const SESSION_TTL_SECS: u64 = 86400;

/// Unfinished logins older than this (in seconds) are dropped.
pub const PENDING_TTL_SECS: u64 = 600;

/// OpenID Connect client settings.
#[derive(Clone, Debug)]
pub struct OidcConfig {
    pub issuer: String,
    pub client_id: String,
    pub client_secret: String,
    pub redirect_uri: String,
}

/// Service configuration.
#[derive(Clone, Debug)]
pub struct Config {
    pub listen_addr: String,
    pub base_url: String,
    pub webhook_url: Option<String>,
    pub podman_bin: String,
    pub systemctl_bin: String,
    pub oidc: Option<OidcConfig>,
}

/// The environment variables the configuration is read from, as found
/// (`None` when unset or not valid Unicode).
pub struct EnvVars {
    pub listen_addr: Option<String>,
    pub base_url: Option<String>,
    pub webhook_url: Option<String>,
    pub podman_bin: Option<String>,
    pub systemctl_bin: Option<String>,
    pub oidc_issuer: Option<String>,
    pub oidc_client_id: Option<String>,
    pub oidc_client_secret: Option<String>,
    pub oidc_redirect_uri: Option<String>,
}

/// The text of an optional string.
pub open spec fn opt_view(o: Option<String>) -> Option<Seq<char>> {
    match o {
        Some(s) => Some(s@),
        None => None,
    }
}

/// A variable counts as given when it is set and not blank.
pub open spec fn given(v: Option<String>) -> Option<Seq<char>> {
    match v {
        Some(s) => if trim_spec(s@).len() > 0 {
            Some(s@)
        } else {
            None
        },
        None => None,
    }
}

/// The given value, or the default.
pub open spec fn given_or(v: Option<String>, d: Seq<char>) -> Seq<char> {
    match given(v) {
        Some(s) => s,
        None => d,
    }
}

fn given_value(v: Option<String>) -> (r: Option<String>)
    ensures
        opt_view(r) == given(v),
{
    match v {
        Some(s) => {
            let t = trim(s.as_str());
            if t.as_str().is_empty() {
                None
            } else {
                Some(s)
            }
        },
        None => None,
    }
}

fn given_value_or(v: Option<String>, d: &str) -> (r: String)
    ensures
        r@ == given_or(v, d@),
{
    match given_value(v) {
        Some(s) => s,
        None => d.to_owned(),
    }
}

impl Config {
    /// The configuration from the environment: a blank variable counts as
    /// unset; OpenID Connect is configured only when all four of its
    /// variables are given.
    pub fn from_env_vars(vars: EnvVars) -> (c: Config)
        ensures
            c.listen_addr@ == given_or(vars.listen_addr, "127.0.0.1:8091"@),
            c.base_url@ == given_or(vars.base_url, "http://localhost:8091"@),
            opt_view(c.webhook_url) == given(vars.webhook_url),
            c.podman_bin@ == given_or(vars.podman_bin, "podman"@),
            c.systemctl_bin@ == given_or(vars.systemctl_bin, "systemctl"@),
            c.oidc is Some <==> (given(vars.oidc_issuer) is Some && given(vars.oidc_client_id) is Some
                && given(vars.oidc_client_secret) is Some && given(vars.oidc_redirect_uri) is Some),
            c.oidc matches Some(o) ==> {
                &&& given(vars.oidc_issuer) == Some(o.issuer@)
                &&& given(vars.oidc_client_id) == Some(o.client_id@)
                &&& given(vars.oidc_client_secret) == Some(o.client_secret@)
                &&& given(vars.oidc_redirect_uri) == Some(o.redirect_uri@)
            },
    {
        let issuer = given_value(vars.oidc_issuer);
        let client_id = given_value(vars.oidc_client_id);
        let client_secret = given_value(vars.oidc_client_secret);
        let redirect_uri = given_value(vars.oidc_redirect_uri);
        let oidc = match (issuer, client_id, client_secret, redirect_uri) {
            (Some(issuer), Some(client_id), Some(client_secret), Some(redirect_uri)) => Some(
                OidcConfig { issuer, client_id, client_secret, redirect_uri },
            ),
            _ => None,
        };
        Config {
            listen_addr: given_value_or(vars.listen_addr, "127.0.0.1:8091"),
            base_url: given_value_or(vars.base_url, "http://localhost:8091"),
            webhook_url: given_value(vars.webhook_url),
            podman_bin: given_value_or(vars.podman_bin, "podman"),
            systemctl_bin: given_value_or(vars.systemctl_bin, "systemctl"),
            oidc,
        }
    }

    /// Login is required exactly when OpenID Connect is configured.
    pub fn auth_enabled(&self) -> (b: bool)
        ensures
            b == self.oidc is Some,
    {
        self.oidc.is_some()
    }

    /// Cookies are marked `Secure` when the public URL is `https://`.
    pub fn secure_cookies(&self) -> (b: bool)
        ensures
            b == "https://"@.is_prefix_of(self.base_url@),
    {
        let v = chars_of(self.base_url.as_str());
        assert(v@.subrange(0, v@.len() as int) =~= v@);
        has_prefix_at(&v, 0, "https://")
    }
}

// ---------------------------------------------------------------------------
// Time
// ---------------------------------------------------------------------------

/// A wall-clock instant: whole seconds and nanoseconds since the Unix epoch.
#[derive(Clone, Copy, Debug)]
pub struct UnixTime {
    pub secs: u64,
    pub nanos: u32,
}

/// Nanoseconds since the epoch.
pub open spec fn nanos_of(t: UnixTime) -> int {
    t.secs * 1_000_000_000 + t.nanos
}

/// Whole seconds from `then` to `now` (`SystemTime::elapsed(..).as_secs()`);
/// `None` when `then` lies after `now`.
pub open spec fn elapsed_secs(now: UnixTime, then: UnixTime) -> Option<int> {
    if nanos_of(now) < nanos_of(then) {
        None
    } else {
        Some((nanos_of(now) - nanos_of(then)) / 1_000_000_000)
    }
}

/// An entry stamped `then` is kept when it is younger than `ttl` seconds,
/// or when its age cannot be told (it lies in the future).
pub open spec fn fresh(then: UnixTime, now: UnixTime, ttl: u64) -> bool {
    match elapsed_secs(now, then) {
        Some(e) => e < ttl,
        None => true,
    }
}

/// An entry is kept while less than `ttl` whole seconds have passed since
/// it was stamped, dropped once `ttl` seconds or more have, and kept when
/// it is stamped after `now`.
pub proof fn lemma_fresh_window(then: UnixTime, now: UnixTime, ttl: u64)
    ensures
        nanos_of(now) < nanos_of(then) ==> fresh(then, now, ttl),
        nanos_of(then) <= nanos_of(now) && nanos_of(now) - nanos_of(then) < ttl * 1_000_000_000 ==> fresh(
            then,
            now,
            ttl,
        ),
        nanos_of(then) <= nanos_of(now) && nanos_of(now) - nanos_of(then) >= ttl * 1_000_000_000 ==> !fresh(
            then,
            now,
            ttl,
        ),
{
    let d = nanos_of(now) - nanos_of(then);
    if nanos_of(then) <= nanos_of(now) {
        if d < ttl * 1_000_000_000 {
            assert(d / 1_000_000_000 < ttl) by (nonlinear_arith)
                requires
                    0 <= d < ttl * 1_000_000_000,
            ;
        } else {
            assert(d / 1_000_000_000 >= ttl) by (nonlinear_arith)
                requires
                    d >= ttl * 1_000_000_000,
                    ttl >= 0,
            ;
        }
    }
}

/// Whether an entry stamped `then` is still fresh at `now`.
pub fn is_fresh(then: UnixTime, now: UnixTime, ttl: u64) -> (b: bool)
    ensures
        b == fresh(then, now, ttl),
{
    let n: u128 = (now.secs as u128) * 1_000_000_000 + (now.nanos as u128);
    let t: u128 = (then.secs as u128) * 1_000_000_000 + (then.nanos as u128);
    if n < t {
        true
    } else {
        (n - t) / 1_000_000_000 < (ttl as u128)
    }
}

// ---------------------------------------------------------------------------
// Sessions
// ---------------------------------------------------------------------------

/// A logged-in user.
#[derive(Clone, Debug)]
pub struct Session {
    pub username: String,
    pub email: Option<String>,
    pub csrf: String,
    pub created_at: UnixTime,
}

/// A login that was sent to the identity provider and has not come back.
#[derive(Clone, Debug)]
pub struct PendingAuth {
    pub code_verifier: String,
    pub created_at: UnixTime,
}

impl Stamped for Session {
    open spec fn stamp(&self) -> UnixTime {
        self.created_at
    }

    fn creation(&self) -> (t: UnixTime) {
        self.created_at
    }
}

impl Stamped for PendingAuth {
    open spec fn stamp(&self) -> UnixTime {
        self.created_at
    }

    fn creation(&self) -> (t: UnixTime) {
        self.created_at
    }
}

// ---------------------------------------------------------------------------
// Tokens and cookies
// ---------------------------------------------------------------------------

/// The given random bytes as lower-case hex: two characters per byte.
pub fn random_hex(random: &[u8]) -> (s: String)
    ensures
        s@ == hex_spec(random@),
        s@.len() == 2 * random@.len(),
{
    hex_lower(random)
}

/// The given random bytes as unpadded URL-safe base64.
pub fn random_b64url(random: &[u8]) -> (s: String)
    ensures
        s@ == b64url_spec(random@),
{
    b64url_encode(random)
}

/// Drops stale sessions, then stores `session` under a token made from
/// `random`, and returns the token.
pub fn insert_session(sessions: &mut StrMap<Session>, session: Session, random: &[u8], now: UnixTime) -> (token: String)
    ensures
        token@ == hex_spec(random@),
        final(sessions).view() == pruned(old(sessions).view(), now, SESSION_TTL_SECS).insert(token@, session),
{
    sessions.prune(now, SESSION_TTL_SECS);
    let token = random_hex(random);
    sessions.insert(token.clone(), session);
    token
}

/// Drops stale pending logins, then stores `pending` under a state value
/// made from `random`, and returns it.
pub fn insert_pending(pending_map: &mut StrMap<PendingAuth>, pending: PendingAuth, random: &[u8], now: UnixTime) -> (state: String)
    ensures
        state@ == hex_spec(random@),
        final(pending_map).view() == pruned(old(pending_map).view(), now, PENDING_TTL_SECS).insert(state@, pending),
{
    pending_map.prune(now, PENDING_TTL_SECS);
    let state_val = random_hex(random);
    pending_map.insert(state_val.clone(), pending);
    state_val
}

/// The first `name=value` pair among the `;`-separated, trimmed pieces of
/// a `Cookie` header whose name is `name`.
pub open spec fn cookie_pick(pieces: Seq<Seq<char>>, name: Seq<char>) -> Option<Seq<char>>
    decreases pieces.len(),
{
    if pieces.len() == 0 {
        None
    } else {
        let t = trim_spec(pieces[0]);
        match find_char(t, '=') {
            Some(i) => if t.take(i) == name {
                Some(t.skip(i + 1))
            } else {
                cookie_pick(pieces.drop_first(), name)
            },
            None => cookie_pick(pieces.drop_first(), name),
        }
    }
}

/// `t` is the cookie `name=v`.
pub open spec fn is_cookie(t: Seq<char>, name: Seq<char>, v: Seq<char>) -> bool {
    t == name + "="@ + v
}

proof fn lemma_cookie_split(name: Seq<char>, v: Seq<char>)
    requires
        !name.contains('='),
    ensures
        ({
            let t = name + "="@ + v;
            &&& find_char(t, '=') == Some(name.len() as int)
            &&& t.take(name.len() as int) == name
            &&& t.skip(name.len() as int + 1) == v
        }),
{
    reveal_strlit("=");
    let t = name + "="@ + v;
    assert forall|j: int| 0 <= j < name.len() implies #[trigger] t[j] != '=' by {
        assert(t[j] == name[j]);
        if t[j] == '=' {
            assert(name.contains('='));
        }
    }
    assert(t[name.len() as int] == '=');
    lemma_find_char(t, '=', name.len() as int);
    assert(t.take(name.len() as int) =~= name);
    assert(t.skip(name.len() as int + 1) =~= v);
}

/// A cookie header is read as browsers write it: for a name without `=`,
/// the value found is that of the first piece which, trimmed, is
/// `name=value`; when no piece is, none is found.
pub proof fn lemma_cookie_pick_first(pieces: Seq<Seq<char>>, name: Seq<char>)
    requires
        !name.contains('='),
    ensures
        cookie_pick(pieces, name) matches Some(v) ==> exists|j: int|
            0 <= j < pieces.len() && is_cookie(trim_spec(#[trigger] pieces[j]), name, v) && forall|k: int, w: Seq<char>|
                0 <= k < j ==> !#[trigger] is_cookie(trim_spec(pieces[k]), name, w),
        cookie_pick(pieces, name) is None ==> forall|j: int, w: Seq<char>|
            0 <= j < pieces.len() ==> !#[trigger] is_cookie(trim_spec(pieces[j]), name, w),
    decreases pieces.len(),
{
    if pieces.len() > 0 {
        let rest = pieces.drop_first();
        lemma_cookie_pick_first(rest, name);
        let t = trim_spec(pieces[0]);
        assert forall|w: Seq<char>| #[trigger] is_cookie(t, name, w) implies cookie_pick(pieces, name) == Some(w) by {
            lemma_cookie_split(name, w);
        }
        match find_char(t, '=') {
            Some(i) => {
                if t.take(i) == name {
                    let v = t.skip(i + 1);
                    lemma_find_char_range(t, '=');
                    assert(t =~= name + "="@ + v) by {
                        reveal_strlit("=");
                        assert(t =~= t.take(i) + seq![t[i]] + t.skip(i + 1));
                    }
                    assert(is_cookie(trim_spec(pieces[0]), name, v));
                } else {
                    assert forall|w: Seq<char>| !is_cookie(t, name, w) by {
                        if is_cookie(t, name, w) {
                            lemma_cookie_split(name, w);
                        }
                    }
                }
            },
            None => {
                assert forall|w: Seq<char>| !is_cookie(t, name, w) by {
                    if is_cookie(t, name, w) {
                        lemma_cookie_split(name, w);
                    }
                }
            },
        }
        match cookie_pick(pieces, name) {
            Some(v) => {
                if is_cookie(t, name, v) {
                    assert(is_cookie(trim_spec(pieces[0]), name, v));
                } else {
                    let j = choose|j: int|
                        0 <= j < rest.len() && is_cookie(trim_spec(#[trigger] rest[j]), name, v) && forall|k: int, w: Seq<char>|
                            0 <= k < j ==> !#[trigger] is_cookie(trim_spec(rest[k]), name, w);
                    assert(pieces[j + 1] == rest[j]);
                    assert forall|k: int, w: Seq<char>| 0 <= k < j + 1 implies !#[trigger] is_cookie(trim_spec(pieces[k]), name, w) by {
                        if k > 0 {
                            assert(pieces[k] == rest[k - 1]);
                        }
                    }
                }
            },
            None => {
                assert forall|j: int, w: Seq<char>| 0 <= j < pieces.len() implies !#[trigger] is_cookie(trim_spec(pieces[j]), name, w) by {
                    if j > 0 {
                        assert(pieces[j] == rest[j - 1]);
                    }
                }
            },
        }
    }
}

/// The value of cookie `name` in the raw `Cookie` header `raw`.
pub fn cookie_value(raw: &str, name: &str) -> (r: Option<String>)
    ensures
        opt_view(r) == cookie_pick(split_spec(raw@, ';'), name@),
{
    let pieces = split(raw, ';');
    let mut i: usize = 0;
    assert(views(pieces@).skip(0) =~= views(pieces@));
    while i < pieces.len()
        invariant
            i <= pieces@.len(),
            views(pieces@) == split_spec(raw@, ';'),
            cookie_pick(split_spec(raw@, ';'), name@) == cookie_pick(views(pieces@).skip(i as int), name@),
        decreases pieces.len() - i,
    {
        let t = trim(pieces[i].as_str());
        assert(views(pieces@).skip(i as int)[0] == pieces@[i as int]@);
        assert(views(pieces@).skip(i as int).drop_first() =~= views(pieces@).skip(i + 1));
        match split_once(t.as_str(), '=') {
            Some((k, v)) => {
                if same_text(k.as_str(), name) {
                    return Some(v);
                }
            },
            None => {},
        }
        i = i + 1;
    }
    None
}

} // verus!
