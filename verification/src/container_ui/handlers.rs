//! The decisions the dashboard's request handlers make: whom a request
//! belongs to, CSRF checks, which containers an update covers, the update
//! of one container step by step, the webhook notice, the restart
//! redirect, the login callback and the session cookies. The handlers
//! themselves (HTTP, podman, the identity provider) run outside and hand
//! their outcomes to these functions.

use vstd::prelude::*;
use crate::codec::{form_decode, form_decoded, form_encode, form_text, text_pairs};
use crate::container_ui::oidc::{IdClaims, TokenResponse};
use crate::container_ui::podman::{ContainerInfo, UpdateResult};
use crate::container_ui::state::{
    cookie_pick, cookie_value, opt_view, random_hex, PendingAuth, Session, UnixTime,
    SESSION_COOKIE,
};
use crate::table::StrMap;
use crate::text::{
    first_word, first_word_spec, hex_digit, hex_spec, is_ws, join, join_spec, lemma_find_char, same_text,
    split_spec, trim_end_spec, trim_start_spec, views,
};

verus! {

// ---------------------------------------------------------------------------
// Who is asking
// ---------------------------------------------------------------------------

/// The user a request was authenticated as, and the CSRF token of their
/// session (empty when login is off).
#[derive(Clone, Debug)]
pub struct Authed {
    pub username: String,
    pub csrf: String,
}

/// Paths that need no login.
pub open spec fn is_public_path(path: Seq<char>) -> bool {
    path == "/health"@ || path == "/login"@ || path == "/oidc/callback"@
}

/// The text of an optional string slice.
pub open spec fn opt_text(o: Option<&str>) -> Option<Seq<char>> {
    match o {
        Some(s) => Some(s@),
        None => None,
    }
}

/// The session named by the session cookie in a `Cookie` header, if the
/// store holds one under that token.
pub open spec fn session_for(cookie_header: Option<Seq<char>>, sessions: Map<Seq<char>, Session>) -> Option<Session> {
    match cookie_header {
        Some(raw) => match cookie_pick(split_spec(raw, ';'), SESSION_COOKIE@) {
            Some(t) => if sessions.contains_key(t) {
                Some(sessions[t])
            } else {
                None
            },
            None => None,
        },
        None => None,
    }
}

/// A session token as it travels in a cookie: no `;` and no whitespace.
pub open spec fn cookie_safe(token: Seq<char>) -> bool {
    forall|i: int| 0 <= i < token.len() ==> #[trigger] token[i] != ';' && !is_ws(token[i])
}

/// The `Cookie` header a browser sends back with the session cookie.
pub open spec fn session_cookie_header(token: Seq<char>) -> Seq<char> {
    SESSION_COOKIE@ + "="@ + token
}

proof fn lemma_cookie_finds_token(token: Seq<char>)
    requires
        cookie_safe(token),
    ensures
        cookie_pick(split_spec(session_cookie_header(token), ';'), SESSION_COOKIE@) == Some(token),
{
    reveal_strlit("container_ui_session");
    reveal_strlit("=");
    let n = SESSION_COOKIE@;
    assert(n == "container_ui_session"@);
    let h = session_cookie_header(token);
    assert(n.len() == 20);
    assert forall|j: int| 0 <= j < h.len() implies #[trigger] h[j] != ';' by {
        if j >= 21 {
            assert(h[j] == token[j - 21]);
        }
    }
    lemma_find_char(h, ';', h.len() as int);
    assert(split_spec(h, ';') == seq![h]);
    assert(h[0] == 'c');
    assert(trim_start_spec(h) == h);
    if token.len() > 0 {
        assert(h.last() == token[token.len() - 1]);
    } else {
        assert(h.last() == '=');
    }
    assert(trim_end_spec(h) == h);
    assert forall|j: int| 0 <= j < 20 implies #[trigger] h[j] != '=' by {}
    lemma_find_char(h, '=', 20);
    assert(h.take(20) =~= n);
    assert(h.skip(21) =~= token);
    assert(seq![h][0] == h);
}

/// A session stored under a token is found from the cookie that carries
/// the token: login, then a request with the cookie, is that user.
pub proof fn lemma_login_then_request(sessions: Map<Seq<char>, Session>, token: Seq<char>, s: Session)
    requires
        cookie_safe(token),
    ensures
        session_for(Some(session_cookie_header(token)), sessions.insert(token, s)) == Some(s),
{
    lemma_cookie_finds_token(token);
}

/// After logout removes the session, the same cookie finds no session.
pub proof fn lemma_logout_then_request(sessions: Map<Seq<char>, Session>, token: Seq<char>)
    requires
        cookie_safe(token),
    ensures
        session_for(Some(session_cookie_header(token)), sessions.remove(token)) is None,
        end_session_view(sessions, Some(session_cookie_header(token))) == sessions.remove(token),
{
    lemma_cookie_finds_token(token);
}

/// The session tokens handed out (lower-case hex) are cookie-safe.
pub proof fn lemma_hex_tokens_cookie_safe(b: Seq<u8>)
    ensures
        cookie_safe(hex_spec(b)),
    decreases b.len(),
{
    if b.len() > 0 {
        lemma_hex_tokens_cookie_safe(b.drop_last());
        let p = hex_spec(b.drop_last());
        let hi = (b.last() / 16) as int;
        let lo = (b.last() % 16) as int;
        let t = hex_spec(b);
        assert(t == p + seq![hex_digit(hi), hex_digit(lo)]);
        assert forall|i: int| 0 <= i < t.len() implies #[trigger] t[i] != ';' && !is_ws(t[i]) by {
            if i < p.len() {
                assert(t[i] == p[i]);
            } else {
                let d = if i == p.len() { hi } else { lo };
                assert(t[i] == hex_digit(d));
                assert(0 <= d < 16);
                if d < 10 {
                    assert(48 <= (hex_digit(d) as int) <= 57);
                } else {
                    assert(97 <= (hex_digit(d) as int) <= 102);
                }
            }
        }
    }
}

/// What the login gate does with a request.
#[derive(Debug)]
pub enum Gate {
    /// Handle the request as this user.
    Proceed(Authed),
    /// A public path: handle it without a user.
    Public,
    /// Send the browser to `/login`.
    RedirectToLogin,
    /// Refuse with this status and message.
    Refuse(u16, String),
}

fn is_public(path: &str) -> (b: bool)
    ensures
        b == is_public_path(path@),
{
    same_text(path, "/health") || same_text(path, "/login") || same_text(path, "/oidc/callback")
}

/// The login gate. With login off every request is the user `dev` with
/// no CSRF token; otherwise public paths pass, a request with a known
/// session cookie is that session's user, and any other request is sent
/// to `/login` (a GET) or refused with 401.
pub fn gate(auth_enabled: bool, path: &str, is_get: bool, cookie_header: Option<&str>, sessions: &StrMap<Session>) -> (g: Gate)
    ensures
        !auth_enabled ==> (g matches Gate::Proceed(a) && a.username@ == "dev"@ && a.csrf@.len() == 0),
        auth_enabled && is_public_path(path@) ==> g is Public,
        auth_enabled && !is_public_path(path@) ==> match session_for(opt_text(cookie_header), sessions.view()) {
            Some(s) => g matches Gate::Proceed(a) && a.username@ == s.username@ && a.csrf@ == s.csrf@,
            None => if is_get {
                g is RedirectToLogin
            } else {
                g matches Gate::Refuse(code, msg) && code == 401 && msg@ == "authentication required"@
            },
        },
{
    if !auth_enabled {
        return Gate::Proceed(Authed { username: "dev".to_owned(), csrf: String::new() });
    }
    if is_public(path) {
        return Gate::Public;
    }
    let session = match cookie_header {
        Some(raw) => match cookie_value(raw, SESSION_COOKIE) {
            Some(token) => sessions.get(token.as_str()),
            None => None,
        },
        None => None,
    };
    match session {
        Some(s) => Gate::Proceed(Authed { username: s.username.clone(), csrf: s.csrf.clone() }),
        None => if is_get {
            Gate::RedirectToLogin
        } else {
            Gate::Refuse(401, "authentication required".to_owned())
        },
    }
}

/// A form's CSRF token is accepted when it equals the session's; with
/// login off (empty session token) any is. A refusal is 403 with a fixed
/// message.
pub fn check_csrf(authed: &Authed, provided: &str) -> (r: Result<(), (u16, String)>)
    ensures
        r is Ok <==> (authed.csrf@.len() == 0 || provided@ == authed.csrf@),
        r matches Err((code, msg)) ==> code == 403 && msg@ == "invalid or missing CSRF token"@,
{
    if authed.csrf.as_str().is_empty() {
        return Ok(());
    }
    if same_text(provided, authed.csrf.as_str()) {
        Ok(())
    } else {
        Err((403, "invalid or missing CSRF token".to_owned()))
    }
}

// ---------------------------------------------------------------------------
// The update form
// ---------------------------------------------------------------------------

/// The update form: its CSRF token, the containers ticked, and whether
/// "update all" was pressed.
#[derive(Clone, Debug)]
pub struct UpdateForm {
    pub csrf: String,
    pub selected: Vec<String>,
    pub all: bool,
}

/// The value of the first field named `key`.
pub open spec fn first_value(p: Seq<(Seq<char>, Seq<char>)>, key: Seq<char>) -> Option<Seq<char>>
    decreases p.len(),
{
    if p.len() == 0 {
        None
    } else {
        let before = first_value(p.drop_last(), key);
        if before is Some {
            before
        } else if p.last().0 == key {
            Some(p.last().1)
        } else {
            None
        }
    }
}

/// The values of every field named `key`, in order.
pub open spec fn values_of(p: Seq<(Seq<char>, Seq<char>)>, key: Seq<char>) -> Seq<Seq<char>>
    decreases p.len(),
{
    if p.len() == 0 {
        seq![]
    } else if p.last().0 == key {
        values_of(p.drop_last(), key).push(p.last().1)
    } else {
        values_of(p.drop_last(), key)
    }
}

/// Whether some field is named `key`.
pub open spec fn has_field(p: Seq<(Seq<char>, Seq<char>)>, key: Seq<char>) -> bool {
    exists|i: int| 0 <= i < p.len() && (#[trigger] p[i]).0 == key
}

/// `f` is the form made of the fields `p`: the first `csrf` (empty when
/// missing), every `selected` in order, and `all` when present at all.
pub open spec fn form_of(f: UpdateForm, p: Seq<(Seq<char>, Seq<char>)>) -> bool {
    &&& f.csrf@ == (match first_value(p, "csrf"@) {
        Some(v) => v,
        None => seq![],
    })
    &&& views(f.selected@) == values_of(p, "selected"@)
    &&& f.all == has_field(p, "all"@)
}

/// The update form from its decoded fields (repeated `selected` fields
/// are all kept).
pub fn form_from_pairs(pairs: &Vec<(String, String)>) -> (f: UpdateForm)
    ensures
        form_of(f, text_pairs(pairs@)),
{
    let ghost p = text_pairs(pairs@);
    let mut csrf: Option<String> = None;
    let mut selected: Vec<String> = Vec::new();
    let mut all = false;
    let mut i: usize = 0;
    while i < pairs.len()
        invariant
            i <= pairs@.len(),
            p == text_pairs(pairs@),
            opt_view(csrf) == first_value(p.take(i as int), "csrf"@),
            views(selected@) == values_of(p.take(i as int), "selected"@),
            all == has_field(p.take(i as int), "all"@),
        decreases pairs.len() - i,
    {
        let ghost q = p.take(i + 1);
        proof {
            assert(q.drop_last() =~= p.take(i as int));
            assert(q.last() == p[i as int]);
        }
        let k = pairs[i].0.as_str();
        let v = pairs[i].1.as_str();
        if csrf.is_none() && same_text(k, "csrf") {
            csrf = Some(v.to_owned());
        }
        if same_text(k, "selected") {
            let ghost before = selected@;
            selected.push(v.to_owned());
            assert(views(selected@) =~= views(before).push(v@));
        }
        if same_text(k, "all") {
            all = true;
            assert(q[i as int].0 == "all"@);
        }
        proof {
            if has_field(q, "all"@) {
                let j = choose|j: int| 0 <= j < q.len() && (#[trigger] q[j]).0 == "all"@;
                if j < i {
                    assert(p.take(i as int)[j] == q[j]);
                }
            }
            if has_field(p.take(i as int), "all"@) {
                let j = choose|j: int| 0 <= j < i && (#[trigger] p.take(i as int)[j]).0 == "all"@;
                assert(q[j] == p.take(i as int)[j]);
            }
        }
        i = i + 1;
    }
    assert(p.take(pairs@.len() as int) =~= p);
    let csrf = match csrf {
        Some(c) => c,
        None => String::new(),
    };
    UpdateForm { csrf, selected, all }
}

/// The update form from the raw request body. The body is form-decoded
/// by `url`; the fields are then read as `form_from_pairs` says.
pub fn parse_update_form(body: &[u8]) -> (f: UpdateForm)
    ensures
        form_of(f, form_decoded(body@)),
{
    let pairs = form_decode(body);
    form_from_pairs(&pairs)
}

// ---------------------------------------------------------------------------
// Which containers an update covers
// ---------------------------------------------------------------------------

/// The containers whose name was ticked, in list order.
pub open spec fn ticked(cs: Seq<ContainerInfo>, selected: Seq<Seq<char>>) -> Seq<ContainerInfo>
    decreases cs.len(),
{
    if cs.len() == 0 {
        seq![]
    } else if selected.contains(cs.last().name@) {
        ticked(cs.drop_last(), selected).push(cs.last())
    } else {
        ticked(cs.drop_last(), selected)
    }
}

/// What an update covers: every container for "update all", none when
/// nothing was ticked, else the ticked ones.
pub open spec fn targets_spec(cs: Seq<ContainerInfo>, all: bool, selected: Seq<Seq<char>>) -> Seq<ContainerInfo> {
    if all {
        cs
    } else if selected.len() == 0 {
        seq![]
    } else {
        ticked(cs, selected)
    }
}

fn contains_text(v: &Vec<String>, s: &str) -> (b: bool)
    ensures
        b == views(v@).contains(s@),
{
    let mut i: usize = 0;
    while i < v.len()
        invariant
            i <= v@.len(),
            forall|j: int| 0 <= j < i ==> (#[trigger] v@[j])@ != s@,
        decreases v.len() - i,
    {
        if same_text(v[i].as_str(), s) {
            assert(views(v@)[i as int] == s@);
            return true;
        }
        i = i + 1;
    }
    proof {
        if views(v@).contains(s@) {
            let j = choose|j: int| 0 <= j < views(v@).len() && views(v@)[j] == s@;
            assert(v@[j]@ == s@);
        }
    }
    false
}

/// The containers an update covers.
pub fn update_targets(containers: Vec<ContainerInfo>, form: &UpdateForm) -> (t: Vec<ContainerInfo>)
    ensures
        t@ == targets_spec(containers@, form.all, views(form.selected@)),
{
    if form.all {
        return containers;
    }
    if form.selected.len() == 0 {
        return Vec::new();
    }
    let ghost cs = containers@;
    let ghost sel = views(form.selected@);
    let n = containers.len();
    let mut rest = containers;
    let mut out: Vec<ContainerInfo> = Vec::new();
    let mut taken: usize = 0;
    while rest.len() > 0
        invariant
            rest@.len() + taken == n == cs.len(),
            rest@ == cs.subrange(taken as int, n as int),
            sel == views(form.selected@),
            out@ == ticked(cs.take(taken as int), sel),
        decreases rest.len(),
    {
        let c = rest.remove(0);
        assert(c == cs[taken as int]);
        assert(cs.take(taken + 1).drop_last() =~= cs.take(taken as int));
        if contains_text(&form.selected, c.name.as_str()) {
            out.push(c);
        }
        taken = taken + 1;
        assert(rest@ =~= cs.subrange(taken as int, n as int));
    }
    assert(cs.take(n as int) =~= cs);
    out
}

// ---------------------------------------------------------------------------
// Updating one container
// ---------------------------------------------------------------------------

/// The systemd unit that runs a container: its `PODMAN_SYSTEMD_UNIT`
/// label, else `podman-<name>.service`.
pub open spec fn unit_spec(c: ContainerInfo) -> Seq<char> {
    if c.unit@.len() == 0 {
        "podman-"@ + c.name@ + ".service"@
    } else {
        c.unit@
    }
}

/// The unit to restart for a container.
pub fn unit_for(c: &ContainerInfo) -> (u: String)
    ensures
        u@ == unit_spec(*c),
{
    if c.unit.as_str().is_empty() {
        let mut u = "podman-".to_owned();
        u.append(c.name.as_str());
        u.append(".service");
        u
    } else {
        c.unit.clone()
    }
}

/// Where an update of one container stands.
#[derive(Clone, Copy, Debug)]
pub enum UpdateStage {
    /// Waiting for the image's digest before the pull.
    OldDigest,
    /// Waiting for the pull.
    Pull,
    /// Waiting for the image's digest after the pull.
    NewDigest,
    /// Waiting for the unit's restart.
    Restart,
    /// Nothing more to do.
    Done,
}

/// What came back from the last action.
#[derive(Debug)]
pub enum UpdateEvent {
    Digest(Result<String, String>),
    Pulled(Result<(), String>),
    Restarted(Result<(), String>),
}

/// What the caller is to do next.
#[derive(Debug)]
pub enum UpdateAction {
    /// Read the digest of this image.
    GetDigest(String),
    /// Pull this image.
    Pull(String),
    /// Restart this unit.
    Restart(String),
    /// The result is final.
    Finish,
}

/// The update of one container: digest, pull, digest again, and a restart
/// when the digest changed. `result` is what the results page shows.
#[derive(Debug)]
pub struct UpdateRun {
    pub result: UpdateResult,
    pub unit: String,
    pub stage: UpdateStage,
}

/// The event that answers the action of `stage`.
pub open spec fn answers(stage: UpdateStage, ev: UpdateEvent) -> bool {
    match stage {
        UpdateStage::OldDigest => ev is Digest,
        UpdateStage::Pull => ev is Pulled,
        UpdateStage::NewDigest => ev is Digest,
        UpdateStage::Restart => ev is Restarted,
        UpdateStage::Done => false,
    }
}

/// The text of an optional digest.
pub open spec fn digest_text(d: Option<String>) -> Option<Seq<char>> {
    opt_view(d)
}

impl UpdateRun {
    /// What holds at every stage of an update: nothing is recorded before
    /// it is read; `changed` holds exactly when both digests were read and
    /// differ; a restart is only asked for after a change; an error ends
    /// the run; a run that ends without error has read both digests.
    pub open spec fn consistent(&self) -> bool {
        let r = self.result;
        &&& r.changed ==> (r.old is Some && r.new is Some && digest_text(r.old) != digest_text(r.new))
        &&& (r.old is Some && r.new is Some) ==> (r.changed <==> digest_text(r.old) != digest_text(r.new))
        &&& r.error is Some ==> self.stage is Done
        &&& self.stage is OldDigest ==> (r.old is None && r.new is None && !r.changed && r.error is None)
        &&& (self.stage is Pull || self.stage is NewDigest) ==> (r.old is Some && r.new is None && r.error is None)
        &&& self.stage is Restart ==> (r.changed && r.error is None)
        &&& (self.stage is Done && r.error is None) ==> (r.old is Some && r.new is Some)
    }

    /// Starts the update of `c`: read its image's digest first.
    pub fn start(c: &ContainerInfo) -> (res: (UpdateRun, UpdateAction))
        ensures
            res.0.consistent(),
            res.0.stage is OldDigest,
            res.0.result.name@ == c.name@,
            res.0.result.image@ == c.image@,
            res.0.unit@ == unit_spec(*c),
            res.1 matches UpdateAction::GetDigest(img) && img@ == c.image@,
    {
        let run = UpdateRun {
            result: UpdateResult {
                name: c.name.clone(),
                image: c.image.clone(),
                old: None,
                new: None,
                changed: false,
                error: None,
            },
            unit: unit_for(c),
            stage: UpdateStage::OldDigest,
        };
        (run, UpdateAction::GetDigest(c.image.clone()))
    }

    fn fail(&mut self, prefix: &str, e: &str) -> (a: UpdateAction)
        ensures
            final(self).result.name == old(self).result.name,
            final(self).result.image == old(self).result.image,
            final(self).result.old == old(self).result.old,
            final(self).result.new == old(self).result.new,
            final(self).result.changed == old(self).result.changed,
            final(self).unit == old(self).unit,
            final(self).result.error matches Some(m) && m@ == prefix@ + e@,
            final(self).stage is Done,
            a is Finish,
    {
        let mut m = prefix.to_owned();
        m.append(e);
        self.result.error = Some(m);
        self.stage = UpdateStage::Done;
        UpdateAction::Finish
    }

    /// Takes the outcome of the last action and says what to do next:
    /// a failed step records `get old digest: `, `pull: `, `get new
    /// digest: ` or `image changed but restart failed: ` before the
    /// error and ends the run; a changed digest asks for the restart.
    pub fn step(&mut self, ev: UpdateEvent) -> (a: UpdateAction)
        requires
            old(self).consistent(),
            answers(old(self).stage, ev),
        ensures
            final(self).consistent(),
            final(self).result.name == old(self).result.name,
            final(self).result.image == old(self).result.image,
            final(self).unit == old(self).unit,
            match (old(self).stage, ev) {
                (UpdateStage::OldDigest, UpdateEvent::Digest(Ok(d))) => {
                    &&& digest_text(final(self).result.old) == Some(d@)
                    &&& final(self).stage is Pull
                    &&& a matches UpdateAction::Pull(img) && img@ == old(self).result.image@
                },
                (UpdateStage::OldDigest, UpdateEvent::Digest(Err(e))) => {
                    &&& final(self).result.error matches Some(m) && m@ == "get old digest: "@ + e@
                    &&& final(self).stage is Done && a is Finish
                },
                (UpdateStage::Pull, UpdateEvent::Pulled(Ok(()))) => {
                    &&& final(self).result.old == old(self).result.old
                    &&& final(self).stage is NewDigest
                    &&& a matches UpdateAction::GetDigest(img) && img@ == old(self).result.image@
                },
                (UpdateStage::Pull, UpdateEvent::Pulled(Err(e))) => {
                    &&& final(self).result.old == old(self).result.old
                    &&& final(self).result.error matches Some(m) && m@ == "pull: "@ + e@
                    &&& final(self).stage is Done && a is Finish
                },
                (UpdateStage::NewDigest, UpdateEvent::Digest(Ok(d))) => {
                    &&& final(self).result.old == old(self).result.old
                    &&& digest_text(final(self).result.new) == Some(d@)
                    &&& final(self).result.changed == (digest_text(old(self).result.old) != Some(d@))
                    &&& if final(self).result.changed {
                        final(self).stage is Restart && (a matches UpdateAction::Restart(u) && u@
                            == old(self).unit@)
                    } else {
                        final(self).stage is Done && a is Finish
                    }
                },
                (UpdateStage::NewDigest, UpdateEvent::Digest(Err(e))) => {
                    &&& final(self).result.old == old(self).result.old
                    &&& final(self).result.error matches Some(m) && m@ == "get new digest: "@ + e@
                    &&& final(self).stage is Done && a is Finish
                },
                (UpdateStage::Restart, UpdateEvent::Restarted(r)) => {
                    &&& final(self).result.old == old(self).result.old
                    &&& final(self).result.new == old(self).result.new
                    &&& final(self).result.changed
                    &&& final(self).stage is Done && a is Finish
                    &&& match r {
                        Ok(()) => final(self).result.error is None,
                        Err(e) => final(self).result.error matches Some(m) && m@
                            == "image changed but restart failed: "@ + e@,
                    }
                },
                _ => false,
            },
    {
        match ev {
            UpdateEvent::Digest(Ok(d)) => {
                match self.stage {
                    UpdateStage::OldDigest => {
                        self.result.old = Some(d);
                        self.stage = UpdateStage::Pull;
                        UpdateAction::Pull(self.result.image.clone())
                    },
                    _ => {
                        let changed = match &self.result.old {
                            Some(o) => !same_text(o.as_str(), d.as_str()),
                            None => true,
                        };
                        self.result.new = Some(d);
                        if changed {
                            self.result.changed = true;
                            self.stage = UpdateStage::Restart;
                            UpdateAction::Restart(self.unit.clone())
                        } else {
                            self.stage = UpdateStage::Done;
                            UpdateAction::Finish
                        }
                    },
                }
            },
            UpdateEvent::Digest(Err(e)) => {
                match self.stage {
                    UpdateStage::OldDigest => self.fail("get old digest: ", e.as_str()),
                    _ => self.fail("get new digest: ", e.as_str()),
                }
            },
            UpdateEvent::Pulled(Ok(())) => {
                self.stage = UpdateStage::NewDigest;
                UpdateAction::GetDigest(self.result.image.clone())
            },
            UpdateEvent::Pulled(Err(e)) => self.fail("pull: ", e.as_str()),
            UpdateEvent::Restarted(Ok(())) => {
                self.stage = UpdateStage::Done;
                UpdateAction::Finish
            },
            UpdateEvent::Restarted(Err(e)) => self.fail("image changed but restart failed: ", e.as_str()),
        }
    }
}

// ---------------------------------------------------------------------------
// The webhook notice
// ---------------------------------------------------------------------------

/// Title of the notice sent when an update changed images.
pub const UPDATE_NOTICE_TITLE: &'static str = "Updated Containers";

/// The text of an optional string, empty when absent.
pub open spec fn text_or_empty(o: Option<String>) -> Seq<char> {
    match o {
        Some(s) => s@,
        None => seq![],
    }
}

/// The notice line of one changed container.
pub open spec fn change_line(r: UpdateResult) -> Seq<char> {
    "🔄 Updated \""@ + r.image@ + "\" - "@ + text_or_empty(r.old) + " => "@ + text_or_empty(r.new)
}

/// The notice lines of the changed results, in order.
pub open spec fn change_lines(rs: Seq<UpdateResult>) -> Seq<Seq<char>>
    decreases rs.len(),
{
    if rs.len() == 0 {
        seq![]
    } else if rs.last().changed {
        change_lines(rs.drop_last()).push(change_line(rs.last()))
    } else {
        change_lines(rs.drop_last())
    }
}

fn push_opt(out: &mut String, o: &Option<String>)
    ensures
        final(out)@ == old(out)@ + text_or_empty(*o),
{
    match o {
        Some(s) => out.append(s.as_str()),
        None => {},
    }
}

/// The webhook notice of an update: one line per changed image, or `None`
/// when nothing changed (then nothing is sent).
pub fn update_notice(results: &[UpdateResult]) -> (r: Option<String>)
    ensures
        match r {
            Some(t) => change_lines(results@).len() > 0 && t@ == join_spec(change_lines(results@), "\n"@),
            None => change_lines(results@).len() == 0,
        },
{
    let mut msgs: Vec<String> = Vec::new();
    let mut i: usize = 0;
    while i < results.len()
        invariant
            i <= results@.len(),
            views(msgs@) == change_lines(results@.take(i as int)),
        decreases results.len() - i,
    {
        let r = &results[i];
        proof {
            assert(results@.take(i + 1).drop_last() =~= results@.take(i as int));
        }
        if r.changed {
            let mut m = "🔄 Updated \"".to_owned();
            m.append(r.image.as_str());
            m.append("\" - ");
            push_opt(&mut m, &r.old);
            m.append(" => ");
            push_opt(&mut m, &r.new);
            let ghost before = msgs@;
            msgs.push(m);
            assert(views(msgs@) =~= views(before).push(m@));
        }
        i = i + 1;
    }
    assert(results@.take(results@.len() as int) =~= results@);
    if msgs.len() == 0 {
        None
    } else {
        Some(join(&msgs, "\n"))
    }
}

// ---------------------------------------------------------------------------
// Restarting one container
// ---------------------------------------------------------------------------

/// Index of the first container named `name`.
pub open spec fn container_named(cs: Seq<ContainerInfo>, name: Seq<char>) -> Option<int>
    decreases cs.len(),
{
    if cs.len() == 0 {
        None
    } else if container_named(cs.drop_last(), name) is Some {
        container_named(cs.drop_last(), name)
    } else if cs.last().name@ == name {
        Some(cs.len() - 1)
    } else {
        None
    }
}

/// The unit to restart for container `name`, or "no such container".
pub fn restart_target(containers: &[ContainerInfo], name: &str) -> (r: Result<String, String>)
    ensures
        match container_named(containers@, name@) {
            Some(i) => r matches Ok(u) && u@ == unit_spec(containers@[i]),
            None => r matches Err(e) && e@ == "no such container"@,
        },
{
    let mut i: usize = 0;
    while i < containers.len()
        invariant
            i <= containers@.len(),
            container_named(containers@.take(i as int), name@) is None,
        decreases containers.len() - i,
    {
        proof {
            assert(containers@.take(i + 1).drop_last() =~= containers@.take(i as int));
        }
        if same_text(containers[i].name.as_str(), name) {
            proof {
                lemma_container_named_prefix(containers@, name@, i + 1);
            }
            return Ok(unit_for(&containers[i]));
        }
        i = i + 1;
    }
    assert(containers@.take(containers@.len() as int) =~= containers@);
    Err("no such container".to_owned())
}

proof fn lemma_container_named_prefix(cs: Seq<ContainerInfo>, name: Seq<char>, k: int)
    requires
        0 <= k <= cs.len(),
        container_named(cs.take(k), name) is Some,
    ensures
        container_named(cs, name) == container_named(cs.take(k), name),
    decreases cs.len(),
{
    if k < cs.len() {
        assert(cs.drop_last().take(k) =~= cs.take(k));
        lemma_container_named_prefix(cs.drop_last(), name, k);
    } else {
        assert(cs.take(k) =~= cs);
    }
}

/// Where the browser goes after a restart: back to the container's page
/// with the unit as a notice, or with `restart <unit> failed: <error>` as
/// an error, form-encoded.
pub open spec fn restart_redirect_spec(name: Seq<char>, unit: Seq<char>, outcome: Result<(), Seq<char>>) -> Seq<char> {
    match outcome {
        Ok(()) => "/containers/"@ + name + "?msg="@ + form_text(unit),
        Err(e) => "/containers/"@ + name + "?error="@ + form_text("restart "@ + unit + " failed: "@ + e),
    }
}

/// The redirect after restarting `unit` of container `name`.
pub fn restart_redirect(name: &str, unit: &str, outcome: Result<(), String>) -> (url: String)
    ensures
        url@ == restart_redirect_spec(
            name@,
            unit@,
            match outcome {
                Ok(()) => Ok(()),
                Err(e) => Err(e@),
            },
        ),
{
    let mut url = "/containers/".to_owned();
    url.append(name);
    match outcome {
        Ok(()) => {
            url.append("?msg=");
            let enc = form_encode(unit.as_bytes());
            url.append(enc.as_str());
        },
        Err(e) => {
            url.append("?error=");
            let mut msg = "restart ".to_owned();
            msg.append(unit);
            msg.append(" failed: ");
            msg.append(e.as_str());
            let enc = form_encode(msg.as_str().as_bytes());
            url.append(enc.as_str());
        },
    }
    url
}

// ---------------------------------------------------------------------------
// Logs
// ---------------------------------------------------------------------------

/// The timestamp the live log view resumes from: the first word of the
/// last line.
pub fn last_timestamp(lines: &[String]) -> (r: Option<String>)
    ensures
        match r {
            Some(t) => lines@.len() > 0 && first_word_spec(lines@.last()@) == Some(t@),
            None => lines@.len() == 0 || first_word_spec(lines@.last()@) is None,
        },
{
    if lines.len() == 0 {
        None
    } else {
        first_word(lines[lines.len() - 1].as_str())
    }
}

// ---------------------------------------------------------------------------
// Login and logout
// ---------------------------------------------------------------------------

/// The message of a failed login start.
pub fn discovery_failure(e: &str) -> (m: String)
    ensures
        m@ == "OIDC discovery failed: "@ + e@,
{
    let mut m = "OIDC discovery failed: ".to_owned();
    m.append(e);
    m
}

/// The callback's `code` and `state`; without both, the provider's
/// `error`, or "missing code or state parameter".
pub fn callback_params(code: Option<String>, state: Option<String>, error: Option<String>) -> (r: Result<(String, String), String>)
    ensures
        r is Ok <==> (code is Some && state is Some),
        r matches Ok((c, s)) ==> opt_view(code) == Some(c@) && opt_view(state) == Some(s@),
        r matches Err(m) ==> m@ == (match error {
            Some(e) => e@,
            None => "missing code or state parameter"@,
        }),
{
    match (code, state) {
        (Some(c), Some(s)) => Ok((c, s)),
        _ => match error {
            Some(e) => Err(e),
            None => Err("missing code or state parameter".to_owned()),
        },
    }
}

/// Takes the pending login named by `state` out of the store; an unknown
/// state is refused.
pub fn take_pending(pending: &mut StrMap<PendingAuth>, state: &str) -> (r: Result<PendingAuth, String>)
    ensures
        final(pending).view() == old(pending).view().remove(state@),
        r is Ok <==> old(pending).view().contains_key(state@),
        r matches Ok(p) ==> p == old(pending).view()[state@],
        r matches Err(e) ==> e@ == "unknown or expired state parameter"@,
{
    match pending.remove(state) {
        Some(p) => Ok(p),
        None => Err("unknown or expired state parameter".to_owned()),
    }
}

/// The ID token of a token response, or "token response missing id_token".
pub fn id_token_of(tokens: TokenResponse) -> (r: Result<String, String>)
    ensures
        r is Ok <==> tokens.id_token is Some,
        r matches Ok(t) ==> opt_view(tokens.id_token) == Some(t@),
        r matches Err(e) ==> e@ == "token response missing id_token"@,
{
    match tokens.id_token {
        Some(t) => Ok(t),
        None => Err("token response missing id_token".to_owned()),
    }
}

/// The message of a refused ID token.
pub fn validation_failure(e: &str) -> (m: String)
    ensures
        m@ == "id_token validation failed: "@ + e@,
{
    let mut m = "id_token validation failed: ".to_owned();
    m.append(e);
    m
}

/// The name a user is shown as: `preferred_username`, else `email`, else
/// `sub`.
pub open spec fn username_spec(c: IdClaims) -> Seq<char> {
    match c.preferred_username {
        Some(u) => u@,
        None => match c.email {
            Some(e) => e@,
            None => c.sub@,
        },
    }
}

/// The name a user is shown as.
pub fn session_username(claims: &IdClaims) -> (u: String)
    ensures
        u@ == username_spec(*claims),
{
    match &claims.preferred_username {
        Some(u) => u.clone(),
        None => match &claims.email {
            Some(e) => e.clone(),
            None => claims.sub.clone(),
        },
    }
}

/// The session of a verified login: the user's name and email, a CSRF
/// token made from `csrf_random` (hex), created `now`.
pub fn new_session(claims: &IdClaims, csrf_random: &[u8], now: UnixTime) -> (s: Session)
    ensures
        s.username@ == username_spec(*claims),
        opt_view(s.email) == opt_view(claims.email),
        s.csrf@ == hex_spec(csrf_random@),
        s.created_at == now,
{
    let email = match &claims.email {
        Some(e) => Some(e.clone()),
        None => None,
    };
    Session { username: session_username(claims), email, csrf: random_hex(csrf_random), created_at: now }
}

/// The `Set-Cookie` value that starts a session: HTTP-only, lax, for the
/// whole site, and `Secure` when the site is served over https.
pub open spec fn session_cookie_spec(token: Seq<char>, secure: bool) -> Seq<char> {
    SESSION_COOKIE@ + "="@ + token + "; Path=/; HttpOnly; SameSite=Lax"@ + (if secure {
        "; Secure"@
    } else {
        seq![]
    })
}

/// The cookie that carries a new session's token.
pub fn session_cookie(token: &str, secure: bool) -> (c: String)
    ensures
        c@ == session_cookie_spec(token@, secure),
{
    let mut c = SESSION_COOKIE.to_owned();
    c.append("=");
    c.append(token);
    c.append("; Path=/; HttpOnly; SameSite=Lax");
    if secure {
        c.append("; Secure");
    }
    proof {
        if !secure {
            reveal_strlit("");
        }
    }
    c
}

/// The `Set-Cookie` value that ends a session.
pub fn logout_cookie() -> (c: String)
    ensures
        c@ == SESSION_COOKIE@ + "=; Path=/; HttpOnly; SameSite=Lax; Max-Age=0"@,
{
    let mut c = SESSION_COOKIE.to_owned();
    c.append("=; Path=/; HttpOnly; SameSite=Lax; Max-Age=0");
    c
}

/// The sessions left after logout: the one named by the cookie is gone.
pub open spec fn end_session_view(sessions: Map<Seq<char>, Session>, cookie_header: Option<Seq<char>>) -> Map<Seq<char>, Session> {
    match cookie_header {
        Some(raw) => match cookie_pick(split_spec(raw, ';'), SESSION_COOKIE@) {
            Some(t) => sessions.remove(t),
            None => sessions,
        },
        None => sessions,
    }
}

/// Logout: forgets the session named by the cookie, if any.
pub fn end_session(sessions: &mut StrMap<Session>, cookie_header: Option<&str>)
    ensures
        final(sessions).view() == end_session_view(old(sessions).view(), opt_text(cookie_header)),
{
    match cookie_header {
        Some(raw) => match cookie_value(raw, SESSION_COOKIE) {
            Some(token) => {
                let _ = sessions.remove(token.as_str());
            },
            None => {},
        },
        None => {},
    }
}

/// The session cookie names the token right after `container_ui_session=`,
/// and carries `Secure` exactly when asked to.
pub proof fn lemma_session_cookie_parts(token: Seq<char>, secure: bool)
    ensures
        (SESSION_COOKIE@ + "="@ + token).is_prefix_of(session_cookie_spec(token, secure)),
        secure ==> "; Secure"@.is_suffix_of(session_cookie_spec(token, secure)),
        !secure ==> "SameSite=Lax"@.is_suffix_of(session_cookie_spec(token, secure)),
{
    let head = SESSION_COOKIE@ + "="@ + token;
    let c = session_cookie_spec(token, secure);
    reveal_strlit("; Path=/; HttpOnly; SameSite=Lax");
    reveal_strlit("SameSite=Lax");
    reveal_strlit("; Secure");
    reveal_strlit("");
    if secure {
        assert(c =~= head + "; Path=/; HttpOnly; SameSite=Lax"@ + "; Secure"@);
        assert("; Secure"@ =~= c.subrange(c.len() - 8, c.len() as int));
    } else {
        assert(c =~= head + "; Path=/; HttpOnly; SameSite=Lax"@);
        assert("SameSite=Lax"@ =~= c.subrange(c.len() - 12, c.len() as int));
    }
    assert(head =~= c.subrange(0, head.len() as int));
}

/// After a restart the browser goes back to the container's page, with a
/// `msg` when the restart worked and an `error` when it failed.
pub proof fn lemma_restart_redirect_kind(name: Seq<char>, unit: Seq<char>, outcome: Result<(), Seq<char>>)
    ensures
        outcome is Ok ==> ("/containers/"@ + name + "?msg="@).is_prefix_of(restart_redirect_spec(name, unit, outcome)),
        outcome is Err ==> ("/containers/"@ + name + "?error="@).is_prefix_of(restart_redirect_spec(name, unit, outcome)),
{
    let r = restart_redirect_spec(name, unit, outcome);
    match outcome {
        Ok(()) => {
            let h = "/containers/"@ + name + "?msg="@;
            assert(h =~= r.subrange(0, h.len() as int));
        },
        Err(e) => {
            let h = "/containers/"@ + name + "?error="@;
            assert(h =~= r.subrange(0, h.len() as int));
        },
    }
}

/// A container's unit is its `PODMAN_SYSTEMD_UNIT` label when it has one,
/// otherwise `podman-<name>.service`.
pub proof fn lemma_unit_choice(c: ContainerInfo)
    ensures
        c.unit@.len() > 0 ==> unit_spec(c) == c.unit@,
        c.unit@.len() == 0 ==> unit_spec(c) == "podman-"@ + c.name@ + ".service"@,
{
}

/// A user is shown by their preferred user name when the token gives one,
/// else by their email address, else by their subject.
pub proof fn lemma_username_choice(c: IdClaims)
    ensures
        c.preferred_username matches Some(u) ==> username_spec(c) == u@,
        c.preferred_username is None ==> (c.email matches Some(e) ==> username_spec(c) == e@),
        c.preferred_username is None && c.email is None ==> username_spec(c) == c.sub@,
{
}

/// A notice line names the changed image and its old and new digest.
pub proof fn lemma_change_line_parts(r: UpdateResult)
    ensures
        ("🔄 Updated \""@ + r.image@ + "\" - "@).is_prefix_of(change_line(r)),
        (" => "@ + text_or_empty(r.new)).is_suffix_of(change_line(r)),
{
    let l = change_line(r);
    let h = "🔄 Updated \""@ + r.image@ + "\" - "@;
    let t = " => "@ + text_or_empty(r.new);
    assert(l =~= h + text_or_empty(r.old) + t);
    assert(h =~= l.subrange(0, h.len() as int));
    assert(t =~= l.subrange(l.len() - t.len(), l.len() as int));
}

/// The CSRF token of the update form is the value of the first `csrf`
/// field, and there is none when no field is named `csrf`.
pub proof fn lemma_first_value_is_first(p: Seq<(Seq<char>, Seq<char>)>, key: Seq<char>)
    ensures
        (forall|j: int| 0 <= j < p.len() ==> (#[trigger] p[j]).0 != key) ==> first_value(p, key) is None,
        first_value(p, key) matches Some(v) ==> exists|i: int|
            0 <= i < p.len() && #[trigger] p[i] == (key, v) && forall|j: int| 0 <= j < i ==> (#[trigger] p[j]).0 != key,
    decreases p.len(),
{
    if p.len() > 0 {
        lemma_first_value_is_first(p.drop_last(), key);
        if forall|j: int| 0 <= j < p.len() ==> (#[trigger] p[j]).0 != key {
            assert forall|j: int| 0 <= j < p.drop_last().len() implies (#[trigger] p.drop_last()[j]).0 != key by {
                assert(p.drop_last()[j] == p[j]);
            }
            assert(p[p.len() - 1] == p.last());
        }
        if first_value(p.drop_last(), key) is Some {
            let v = first_value(p.drop_last(), key)->0;
            let i = choose|i: int|
                0 <= i < p.drop_last().len() && #[trigger] p.drop_last()[i] == (key, v) && forall|j: int|
                    0 <= j < i ==> (#[trigger] p.drop_last()[j]).0 != key;
            assert(p[i] == p.drop_last()[i]);
            assert forall|j: int| 0 <= j < i implies (#[trigger] p[j]).0 != key by {
                assert(p.drop_last()[j] == p[j]);
            }
        } else if p.last().0 == key {
            let i = p.len() - 1;
            assert(p[i] == (key, p.last().1));
            assert forall|j: int| 0 <= j < i implies (#[trigger] p[j]).0 != key by {
                assert(p.drop_last()[j] == p[j]);
                if p[j].0 == key {
                    lemma_first_value_some(p.drop_last(), key, j);
                }
            }
        }
    }
}

proof fn lemma_first_value_some(p: Seq<(Seq<char>, Seq<char>)>, key: Seq<char>, j: int)
    requires
        0 <= j < p.len(),
        p[j].0 == key,
    ensures
        first_value(p, key) is Some,
    decreases p.len(),
{
    if j < p.len() - 1 {
        lemma_first_value_some(p.drop_last(), key, j);
        assert(p.drop_last()[j] == p[j]);
    }
}

/// The containers ticked in the update form are exactly the value of each
/// `selected` field: every such value is among them, and each of them is
/// the value of some `selected` field.
pub proof fn lemma_values_of_fields(p: Seq<(Seq<char>, Seq<char>)>, key: Seq<char>)
    ensures
        forall|i: int| 0 <= i < p.len() && (#[trigger] p[i]).0 == key ==> values_of(p, key).contains(p[i].1),
        forall|t: int|
            0 <= t < values_of(p, key).len() ==> exists|i: int|
                0 <= i < p.len() && #[trigger] p[i] == (key, #[trigger] values_of(p, key)[t]),
    decreases p.len(),
{
    if p.len() > 0 {
        lemma_values_of_fields(p.drop_last(), key);
        let w = values_of(p.drop_last(), key);
        let v = values_of(p, key);
        assert forall|i: int| 0 <= i < p.len() && (#[trigger] p[i]).0 == key implies v.contains(p[i].1) by {
            if i < p.len() - 1 {
                assert(p.drop_last()[i] == p[i]);
                assert(w.contains(p[i].1));
                let k = choose|k: int| 0 <= k < w.len() && w[k] == p[i].1;
                assert(v[k] == w[k]);
            } else {
                assert(v[v.len() - 1] == p.last().1);
            }
        }
        assert forall|t: int| 0 <= t < v.len() implies exists|i: int|
            0 <= i < p.len() && #[trigger] p[i] == (key, #[trigger] v[t]) by {
            if t < w.len() {
                assert(v[t] == w[t]);
                let i = choose|i: int| 0 <= i < p.drop_last().len() && #[trigger] p.drop_last()[i] == (key, #[trigger] w[t]);
                assert(p[i] == p.drop_last()[i]);
            } else {
                assert(p[p.len() - 1] == (key, v[t]));
            }
        }
    }
}

/// An update of ticked containers covers exactly the listed containers
/// whose name was ticked: each target is a listed container with a ticked
/// name, and each listed container with a ticked name is a target.
pub proof fn lemma_ticked_exactly(cs: Seq<ContainerInfo>, selected: Seq<Seq<char>>)
    ensures
        forall|t: int|
            0 <= t < ticked(cs, selected).len() ==> cs.contains(#[trigger] ticked(cs, selected)[t]) && selected.contains(
                ticked(cs, selected)[t].name@,
            ),
        forall|i: int| 0 <= i < cs.len() && selected.contains((#[trigger] cs[i]).name@) ==> ticked(cs, selected).contains(cs[i]),
    decreases cs.len(),
{
    if cs.len() > 0 {
        lemma_ticked_exactly(cs.drop_last(), selected);
        let w = ticked(cs.drop_last(), selected);
        let v = ticked(cs, selected);
        assert forall|t: int| 0 <= t < v.len() implies cs.contains(#[trigger] v[t]) && selected.contains(v[t].name@) by {
            if t < w.len() {
                assert(v[t] == w[t]);
                let k = choose|k: int| 0 <= k < cs.drop_last().len() && cs.drop_last()[k] == w[t];
                assert(cs[k] == cs.drop_last()[k]);
            } else {
                assert(v[t] == cs.last());
                assert(cs[cs.len() - 1] == cs.last());
            }
        }
        assert forall|i: int| 0 <= i < cs.len() && selected.contains((#[trigger] cs[i]).name@) implies v.contains(cs[i]) by {
            if i < cs.len() - 1 {
                assert(cs.drop_last()[i] == cs[i]);
                assert(w.contains(cs[i]));
                let k = choose|k: int| 0 <= k < w.len() && w[k] == cs[i];
                assert(v[k] == w[k]);
            } else {
                assert(cs[i] == cs.last());
                assert(v[v.len() - 1] == cs.last());
            }
        }
    }
}

} // verus!
