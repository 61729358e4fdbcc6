//! OpenID Connect: where the provider's metadata lives, the cache of its
//! signing keys, the authorization request, the token request and PKCE.
//! The HTTP round trips and the token signature check are the caller's.

use vstd::prelude::*;
use vstd::string::StringSliceAdditionalSpecFns;
use crate::codec::{
    b64url_encode, b64url_spec, form_pairs_spec, query_url, sha256, sha256_spec, text_pairs,
    url_with_query, urlencode_pairs,
};
use crate::container_ui::state::{nanos_of, opt_view, random_b64url, OidcConfig, UnixTime};
use crate::text::{same_text, strip_trailing, trim_end_char};

verus! {

/// The provider's metadata (`/.well-known/openid-configuration`).
#[derive(Clone, Debug)]
pub struct Discovery {
    pub authorization_endpoint: String,
    pub token_endpoint: String,
    pub jwks_uri: String,
    /// Empty when the provider left it out.
    pub issuer: String,
}

/// The token endpoint's answer.
#[derive(Clone, Debug)]
pub struct TokenResponse {
    pub id_token: Option<String>,
    pub access_token: Option<String>,
}

/// The claims of a verified ID token.
#[derive(Clone, Debug)]
pub struct IdClaims {
    pub iss: String,
    pub exp: i64,
    pub sub: String,
    pub email: Option<String>,
    pub preferred_username: Option<String>,
    pub name: Option<String>,
}

// ---------------------------------------------------------------------------
// Discovery
// ---------------------------------------------------------------------------

/// Where the provider publishes its metadata: the issuer without trailing
/// slashes, then `/.well-known/openid-configuration`.
pub open spec fn discovery_url_spec(issuer: Seq<char>) -> Seq<char> {
    strip_trailing(issuer, '/') + "/.well-known/openid-configuration"@
}

/// Trailing slashes on the issuer make no difference: the metadata URL of
/// `issuer/` is that of `issuer`, and for an issuer that does not end in a
/// slash it is the issuer followed by the well-known path.
pub proof fn lemma_discovery_url_slash(issuer: Seq<char>)
    ensures
        discovery_url_spec(issuer.push('/')) == discovery_url_spec(issuer),
        (issuer.len() == 0 || issuer.last() != '/') ==> discovery_url_spec(issuer) == issuer
            + "/.well-known/openid-configuration"@,
{
    assert(issuer.push('/').drop_last() =~= issuer);
}

/// The metadata URL of `issuer`.
pub fn discovery_url(issuer: &str) -> (u: String)
    ensures
        u@ == discovery_url_spec(issuer@),
{
    let mut u = trim_end_char(issuer, '/');
    u.append("/.well-known/openid-configuration");
    u
}

/// The metadata with the configured issuer filled in where the provider
/// gave none; everything else as fetched.
pub fn with_default_issuer(d: Discovery, configured: &str) -> (r: Discovery)
    ensures
        r.authorization_endpoint@ == d.authorization_endpoint@,
        r.token_endpoint@ == d.token_endpoint@,
        r.jwks_uri@ == d.jwks_uri@,
        r.issuer@ == (if d.issuer@.len() == 0 { configured@ } else { d.issuer@ }),
{
    if d.issuer.as_str().is_empty() {
        Discovery { issuer: configured.to_owned(), ..d }
    } else {
        d
    }
}

// ---------------------------------------------------------------------------
// Signing keys
// ---------------------------------------------------------------------------

/// Fetched keys are used for an hour.
pub const JWKS_MAX_AGE_SECS: u64 = 3600;

/// Keys fetched at `fetched_at` must be fetched again at `now`: never
/// fetched, fetched "in the future" (the clock went back), or more than an
/// hour ago.
pub open spec fn jwks_stale(fetched_at: Option<UnixTime>, now: UnixTime) -> bool {
    match fetched_at {
        None => true,
        Some(t) => nanos_of(now) < nanos_of(t) || nanos_of(now) - nanos_of(t) > JWKS_MAX_AGE_SECS
            * 1_000_000_000,
    }
}

/// Keys are fetched again when never fetched, when the clock went back
/// since, or when more than an hour has passed; within the hour (an hour
/// exactly included) they are used as they are.
pub proof fn lemma_jwks_refresh_window(fetched_at: Option<UnixTime>, now: UnixTime)
    ensures
        fetched_at is None ==> jwks_stale(fetched_at, now),
        fetched_at matches Some(t) ==> (jwks_stale(fetched_at, now) <==> (nanos_of(now) < nanos_of(t)
            || nanos_of(now) > nanos_of(t) + 3_600_000_000_000)),
{
}

/// The provider's signing keys and when they were fetched.
pub struct JwksCache<K> {
    keys: Vec<K>,
    fetched_at: Option<UnixTime>,
}

impl<K> JwksCache<K> {
    /// Once fetched, the cache never holds an empty key set.
    #[verifier::type_invariant]
    spec fn inv(&self) -> bool {
        self.fetched_at is Some ==> self.keys@.len() > 0
    }

    /// The cached keys.
    pub closed spec fn key_list(&self) -> Seq<K> {
        self.keys@
    }

    /// When the cached keys were fetched.
    pub closed spec fn fetched(&self) -> Option<UnixTime> {
        self.fetched_at
    }

    /// A cache that has fetched nothing yet.
    pub fn new() -> (c: Self)
        ensures
            c.key_list().len() == 0,
            c.fetched() is None,
    {
        JwksCache { keys: Vec::new(), fetched_at: None }
    }

    /// Whether the keys must be fetched again at `now`.
    pub fn needs_refresh(&self, now: UnixTime) -> (b: bool)
        ensures
            b == jwks_stale(self.fetched(), now),
    {
        match self.fetched_at {
            None => true,
            Some(t) => {
                let n: u128 = (now.secs as u128) * 1_000_000_000 + (now.nanos as u128);
                let f: u128 = (t.secs as u128) * 1_000_000_000 + (t.nanos as u128);
                n < f || n - f > (JWKS_MAX_AGE_SECS as u128) * 1_000_000_000
            },
        }
    }

    /// The cached keys; not empty once they have been fetched.
    pub fn keys(&self) -> (r: &Vec<K>)
        ensures
            r@ == self.key_list(),
            self.fetched() is Some ==> r@.len() > 0,
    {
        proof {
            use_type_invariant(self);
        }
        &self.keys
    }

    /// Keeps freshly fetched keys, stamped `now`. An empty key set is
    /// refused and leaves the cache as it was.
    pub fn store(&mut self, keys: Vec<K>, now: UnixTime) -> (r: Result<(), String>)
        ensures
            r is Err <==> keys@.len() == 0,
            r matches Err(e) ==> e@ == "no keys in JWKS"@ && final(self).key_list() == old(self).key_list()
                && final(self).fetched() == old(self).fetched(),
            r is Ok ==> final(self).key_list() == keys@ && final(self).fetched() == Some(now),
    {
        if keys.len() == 0 {
            return Err("no keys in JWKS".to_owned());
        }
        self.keys = keys;
        self.fetched_at = Some(now);
        Ok(())
    }
}

/// Index of the first key whose id is `kid`.
pub open spec fn key_with_id(ids: Seq<Option<String>>, kid: Seq<char>) -> Option<int>
    decreases ids.len(),
{
    if ids.len() == 0 {
        None
    } else if opt_view(ids.last()) == Some(kid) && key_with_id(ids.drop_last(), kid) is None {
        Some(ids.len() - 1)
    } else {
        key_with_id(ids.drop_last(), kid)
    }
}

/// The key that signs a token: the first whose id is the token's `kid`,
/// or the first key when the token names none.
pub open spec fn key_choice(ids: Seq<Option<String>>, kid: Option<Seq<char>>) -> Option<int> {
    match kid {
        Some(k) => key_with_id(ids, k),
        None => if ids.len() > 0 {
            Some(0)
        } else {
            None
        },
    }
}

proof fn lemma_key_with_id(ids: Seq<Option<String>>, kid: Seq<char>, i: int)
    requires
        0 <= i <= ids.len(),
        forall|j: int| 0 <= j < i ==> opt_view(#[trigger] ids[j]) != Some(kid),
        i < ids.len() ==> opt_view(ids[i]) == Some(kid),
    ensures
        key_with_id(ids, kid) == (if i < ids.len() { Some(i) } else { None::<int> }),
    decreases ids.len(),
{
    if ids.len() > 0 {
        if i < ids.len() - 1 {
            lemma_key_with_id(ids.drop_last(), kid, i);
        } else if i == ids.len() - 1 {
            lemma_key_with_id(ids.drop_last(), kid, i);
        } else {
            lemma_key_with_id(ids.drop_last(), kid, i - 1);
        }
    }
}

/// A token that names a key is checked with the first cached key of that
/// id, and with none when no cached key has it; a token that names none is
/// checked with the first key.
pub proof fn lemma_key_choice_first(ids: Seq<Option<String>>, kid: Option<Seq<char>>)
    ensures
        kid matches Some(k) ==> (key_choice(ids, kid) matches Some(i) ==> 0 <= i < ids.len() && opt_view(ids[i])
            == Some(k) && forall|j: int| 0 <= j < i ==> opt_view(#[trigger] ids[j]) != Some(k)),
        kid matches Some(k) ==> (key_choice(ids, kid) is None ==> forall|j: int|
            0 <= j < ids.len() ==> opt_view(#[trigger] ids[j]) != Some(k)),
        kid is None ==> key_choice(ids, kid) == (if ids.len() > 0 { Some(0int) } else { None::<int> }),
{
    if let Some(k) = kid {
        if exists|j: int| 0 <= j < ids.len() && opt_view(#[trigger] ids[j]) == Some(k) {
            let w = choose|j: int| 0 <= j < ids.len() && opt_view(#[trigger] ids[j]) == Some(k);
            let i = lemma_least_with_id(ids, k, w);
            lemma_key_with_id(ids, k, i);
        } else {
            lemma_key_with_id(ids, k, ids.len() as int);
        }
    }
}

proof fn lemma_least_with_id(ids: Seq<Option<String>>, k: Seq<char>, w: int) -> (i: int)
    requires
        0 <= w < ids.len(),
        opt_view(ids[w]) == Some(k),
    ensures
        0 <= i <= w,
        opt_view(ids[i]) == Some(k),
        forall|j: int| 0 <= j < i ==> opt_view(#[trigger] ids[j]) != Some(k),
    decreases w,
{
    if exists|j: int| 0 <= j < w && opt_view(#[trigger] ids[j]) == Some(k) {
        let v = choose|j: int| 0 <= j < w && opt_view(#[trigger] ids[j]) == Some(k);
        lemma_least_with_id(ids, k, v)
    } else {
        w
    }
}

/// Picks the key for a token from the ids of the cached keys (`kid` is the
/// token header's key id).
#[verifier::loop_isolation(false)]
pub fn select_key(key_ids: &Vec<Option<String>>, kid: Option<&str>) -> (r: Option<usize>)
    ensures
        match r {
            Some(i) => key_choice(key_ids@, opt_str(kid)) == Some(i as int) && i < key_ids@.len(),
            None => key_choice(key_ids@, opt_str(kid)) is None,
        },
{
    match kid {
        None => if key_ids.len() > 0 {
            Some(0)
        } else {
            None
        },
        Some(k) => {
            let mut i: usize = 0;
            while i < key_ids.len()
                invariant
                    i <= key_ids@.len(),
                    forall|j: int| 0 <= j < i ==> opt_view(#[trigger] key_ids@[j]) != Some(k@),
                decreases key_ids.len() - i,
            {
                let hit = match &key_ids[i] {
                    Some(id) => same_text(id.as_str(), k),
                    None => false,
                };
                assert(hit == (opt_view(key_ids@[i as int]) == Some(k@)));
                if hit {
                    proof {
                        lemma_key_with_id(key_ids@, k@, i as int);
                    }
                    return Some(i);
                }
                i = i + 1;
            }
            proof {
                lemma_key_with_id(key_ids@, k@, i as int);
            }
            None
        },
    }
}

/// The text of an optional string slice.
pub open spec fn opt_str(o: Option<&str>) -> Option<Seq<char>> {
    match o {
        Some(s) => Some(s@),
        None => None,
    }
}

// ---------------------------------------------------------------------------
// Authorization request
// ---------------------------------------------------------------------------

/// The query of the authorization request (authorization code flow with
/// PKCE, method S256), in this order.
pub open spec fn authorize_pairs(config: OidcConfig, state: Seq<char>, challenge: Seq<char>) -> Seq<
    (Seq<char>, Seq<char>),
> {
    seq![
        ("response_type"@, "code"@),
        ("client_id"@, config.client_id@),
        ("redirect_uri"@, config.redirect_uri@),
        ("scope"@, "openid profile email groups"@),
        ("state"@, state),
        ("code_challenge"@, challenge),
        ("code_challenge_method"@, "S256"@),
    ]
}

/// The value of the first pair named `k`.
pub open spec fn pair_value(ps: Seq<(Seq<char>, Seq<char>)>, k: Seq<char>) -> Option<Seq<char>>
    decreases ps.len(),
{
    if ps.len() == 0 {
        None
    } else if ps[0].0 == k {
        Some(ps[0].1)
    } else {
        pair_value(ps.drop_first(), k)
    }
}

proof fn lemma_pair_value_at(ps: Seq<(Seq<char>, Seq<char>)>, i: int)
    requires
        0 <= i < ps.len(),
        forall|j: int| 0 <= j < i ==> (#[trigger] ps[j]).0 != ps[i].0,
    ensures
        pair_value(ps, ps[i].0) == Some(ps[i].1),
    decreases i,
{
    if i > 0 {
        assert forall|j: int| 0 <= j < i - 1 implies (#[trigger] ps.drop_first()[j]).0 != ps.drop_first()[i - 1].0 by {
            assert(ps.drop_first()[j] == ps[j + 1]);
        }
        lemma_pair_value_at(ps.drop_first(), i - 1);
        assert(ps[0].0 != ps[i].0);
    }
}

/// The authorization request names this client and its redirect URI, asks
/// for an authorization code with the OpenID, profile, email and groups
/// scopes, carries the state, and the PKCE challenge with method S256.
pub proof fn lemma_authorize_request_fields(config: OidcConfig, state: Seq<char>, challenge: Seq<char>)
    ensures
        ({
            let ps = authorize_pairs(config, state, challenge);
            &&& pair_value(ps, "response_type"@) == Some("code"@)
            &&& pair_value(ps, "client_id"@) == Some(config.client_id@)
            &&& pair_value(ps, "redirect_uri"@) == Some(config.redirect_uri@)
            &&& pair_value(ps, "scope"@) == Some("openid profile email groups"@)
            &&& pair_value(ps, "state"@) == Some(state)
            &&& pair_value(ps, "code_challenge"@) == Some(challenge)
            &&& pair_value(ps, "code_challenge_method"@) == Some("S256"@)
            &&& ps.len() == 7
        }),
{
    reveal_strlit("response_type");
    reveal_strlit("client_id");
    reveal_strlit("redirect_uri");
    reveal_strlit("scope");
    reveal_strlit("state");
    reveal_strlit("code_challenge");
    reveal_strlit("code_challenge_method");
    let ps = authorize_pairs(config, state, challenge);
    assert("scope"@[1] != "state"@[1]);
    assert forall|i: int, j: int| 0 <= j < i < 7 implies (#[trigger] ps[j]).0 != (#[trigger] ps[i]).0 by {
        if ps[j].0.len() == ps[i].0.len() {
            assert(ps[j].0[1] != ps[i].0[1]);
        }
    }
    lemma_pair_value_at(ps, 0);
    lemma_pair_value_at(ps, 1);
    lemma_pair_value_at(ps, 2);
    lemma_pair_value_at(ps, 3);
    lemma_pair_value_at(ps, 4);
    lemma_pair_value_at(ps, 5);
    lemma_pair_value_at(ps, 6);
}

/// The token request redeems the code as an authorization code, with this
/// client's redirect URI, id and secret and the PKCE verifier.
pub proof fn lemma_token_request_fields(config: OidcConfig, code: Seq<char>, verifier: Seq<char>)
    ensures
        ({
            let ps = token_request_pairs(config, code, verifier);
            &&& pair_value(ps, "grant_type"@) == Some("authorization_code"@)
            &&& pair_value(ps, "code"@) == Some(code)
            &&& pair_value(ps, "redirect_uri"@) == Some(config.redirect_uri@)
            &&& pair_value(ps, "client_id"@) == Some(config.client_id@)
            &&& pair_value(ps, "client_secret"@) == Some(config.client_secret@)
            &&& pair_value(ps, "code_verifier"@) == Some(verifier)
            &&& ps.len() == 6
        }),
{
    reveal_strlit("grant_type");
    reveal_strlit("code");
    reveal_strlit("redirect_uri");
    reveal_strlit("client_id");
    reveal_strlit("client_secret");
    reveal_strlit("code_verifier");
    let ps = token_request_pairs(config, code, verifier);
    assert("client_secret"@[1] != "code_verifier"@[1]);
    assert forall|i: int, j: int| 0 <= j < i < 6 implies (#[trigger] ps[j]).0 != (#[trigger] ps[i]).0 by {
        if ps[j].0.len() == ps[i].0.len() {
            assert(ps[j].0[1] != ps[i].0[1]);
        }
    }
    lemma_pair_value_at(ps, 0);
    lemma_pair_value_at(ps, 1);
    lemma_pair_value_at(ps, 2);
    lemma_pair_value_at(ps, 3);
    lemma_pair_value_at(ps, 4);
    lemma_pair_value_at(ps, 5);
}

fn authorize_params(config: &OidcConfig, state: &str, challenge: &str) -> (v: Vec<(String, String)>)
    ensures
        text_pairs(v@) == authorize_pairs(*config, state@, challenge@),
{
    let v = vec![
        ("response_type".to_owned(), "code".to_owned()),
        ("client_id".to_owned(), config.client_id.clone()),
        ("redirect_uri".to_owned(), config.redirect_uri.clone()),
        ("scope".to_owned(), "openid profile email groups".to_owned()),
        ("state".to_owned(), state.to_owned()),
        ("code_challenge".to_owned(), challenge.to_owned()),
        ("code_challenge_method".to_owned(), "S256".to_owned()),
    ];
    assert(text_pairs(v@) =~= authorize_pairs(*config, state@, challenge@));
    v
}

/// The URL the browser is sent to for login: the provider's authorization
/// endpoint with the request appended to its query. The endpoint must be
/// a valid absolute URL.
pub fn authorize_url(config: &OidcConfig, disc: &Discovery, state: &str, challenge: &str) -> (u: String)
    requires
        query_url(disc.authorization_endpoint@, authorize_pairs(*config, state@, challenge@)) is Some,
    ensures
        query_url(disc.authorization_endpoint@, authorize_pairs(*config, state@, challenge@)) == Some(u@),
{
    let params = authorize_params(config, state, challenge);
    match url_with_query(disc.authorization_endpoint.as_str(), &params) {
        Some(u) => u,
        None => {
            assert(false);
            String::new()
        },
    }
}

/// The login URL, or `None` when the authorization endpoint is not a
/// valid absolute URL.
pub fn try_authorize_url(config: &OidcConfig, disc: &Discovery, state: &str, challenge: &str) -> (r: Option<String>)
    ensures
        match r {
            Some(u) => query_url(disc.authorization_endpoint@, authorize_pairs(*config, state@, challenge@))
                == Some(u@),
            None => query_url(disc.authorization_endpoint@, authorize_pairs(*config, state@, challenge@))
                is None,
        },
{
    let params = authorize_params(config, state, challenge);
    match url_with_query(disc.authorization_endpoint.as_str(), &params) {
        Some(_) => Some(authorize_url(config, disc, state, challenge)),
        None => None,
    }
}

// ---------------------------------------------------------------------------
// Token request
// ---------------------------------------------------------------------------

/// The form fields of the authorization-code token request, in order.
pub open spec fn token_request_pairs(config: OidcConfig, code: Seq<char>, verifier: Seq<char>) -> Seq<
    (Seq<char>, Seq<char>),
> {
    seq![
        ("grant_type"@, "authorization_code"@),
        ("code"@, code),
        ("redirect_uri"@, config.redirect_uri@),
        ("client_id"@, config.client_id@),
        ("client_secret"@, config.client_secret@),
        ("code_verifier"@, verifier),
    ]
}

/// The form-encoded body of the token request that redeems `code`.
pub fn token_request_body(config: &OidcConfig, code: &str, code_verifier: &str) -> (b: String)
    ensures
        b@ == form_pairs_spec(token_request_pairs(*config, code@, code_verifier@)),
{
    let v = vec![
        ("grant_type".to_owned(), "authorization_code".to_owned()),
        ("code".to_owned(), code.to_owned()),
        ("redirect_uri".to_owned(), config.redirect_uri.clone()),
        ("client_id".to_owned(), config.client_id.clone()),
        ("client_secret".to_owned(), config.client_secret.clone()),
        ("code_verifier".to_owned(), code_verifier.to_owned()),
    ];
    assert(text_pairs(v@) =~= token_request_pairs(*config, code@, code_verifier@));
    urlencode_pairs(&v)
}

// ---------------------------------------------------------------------------
// PKCE
// ---------------------------------------------------------------------------

/// Length of the unpadded base64 text of `n` bytes.
pub open spec fn b64_len(n: int) -> int {
    4 * (n / 3) + (if n % 3 == 0 {
        0
    } else {
        n % 3 + 1
    })
}

/// Unpadded URL-safe base64 of `n` bytes is `b64_len(n)` characters long.
pub proof fn lemma_b64url_len(b: Seq<u8>)
    ensures
        b64url_spec(b).len() == b64_len(b.len() as int),
    decreases b.len(),
{
    if b.len() >= 3 {
        lemma_b64url_len(b.skip(3));
    }
}

/// The PKCE code verifier made from `random` (the login draws 32 random
/// bytes): its unpadded URL-safe base64 text.
pub fn code_verifier(random: &[u8]) -> (v: String)
    ensures
        v@ == b64url_spec(random@),
        v@.len() == b64_len(random@.len() as int),
{
    proof {
        lemma_b64url_len(random@);
    }
    random_b64url(random)
}

/// The PKCE S256 challenge of a verifier: the unpadded URL-safe base64 of
/// the SHA-256 digest of its UTF-8 bytes; 43 characters.
pub fn code_challenge(verifier: &str) -> (c: String)
    ensures
        c@ == b64url_spec(sha256_spec(verifier.spec_bytes())),
        c@.len() == 43,
{
    let digest = sha256(verifier.as_bytes());
    proof {
        lemma_b64url_len(digest@);
    }
    b64url_encode(digest.as_slice())
}

} // verus!
