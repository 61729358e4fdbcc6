use nixos_utils::container_ui::handlers::{
    callback_params, check_csrf, discovery_failure, end_session, form_from_pairs, gate, id_token_of,
    last_timestamp, logout_cookie, new_session, parse_update_form, restart_redirect, restart_target,
    session_cookie, session_username, take_pending, unit_for, update_notice, update_targets,
    validation_failure, Authed, Gate, UpdateAction, UpdateEvent, UpdateForm, UpdateRun, UpdateStage,
    UPDATE_NOTICE_TITLE,
};
use nixos_utils::container_ui::html::{error_page, esc, list_page, update_results_page};
use nixos_utils::container_ui::oidc::{
    code_challenge, code_verifier, discovery_url, select_key, token_request_body, try_authorize_url,
    with_default_issuer, Discovery, IdClaims, JwksCache, TokenResponse,
};
use nixos_utils::container_ui::podman::{
    containers_from_ps, digest_from_inspect, logs_follow_args, logs_tail_args, lookup_stats,
    short_digest, stats_table, webhook_body, ContainerInfo,
    Podman, StatsInfo, UpdateResult,
};
use nixos_utils::container_ui::state::{
    cookie_value, insert_pending, insert_session, is_fresh, random_b64url, random_hex, Config, EnvVars, OidcConfig,
    PendingAuth, Session, UnixTime, PENDING_TTL_SECS, SESSION_COOKIE, SESSION_TTL_SECS,
};
use nixos_utils::json::{Json, JsonNumber};
use nixos_utils::table::StrMap;

fn s(x: &str) -> String {
    x.to_string()
}

fn oidc_config() -> OidcConfig {
    OidcConfig {
        issuer: s("https://id.example.com/"),
        client_id: s("dash"),
        client_secret: s("SECRET-REDACTED"),
        redirect_uri: s("https://dash.example.com/oidc/callback"),
    }
}

fn config(auth: bool) -> Config {
    Config {
        listen_addr: s("127.0.0.1:8091"),
        base_url: s("https://dash.example.com"),
        webhook_url: None,
        podman_bin: s("podman"),
        systemctl_bin: s("systemctl"),
        oidc: if auth { Some(oidc_config()) } else { None },
    }
}

fn container(name: &str, image: &str, unit: &str) -> ContainerInfo {
    ContainerInfo {
        name: s(name),
        image: s(image),
        state: s("running"),
        status: s("Up 2 hours"),
        ports: vec![],
        unit: s(unit),
    }
}

fn at(secs: u64) -> UnixTime {
    UnixTime { secs, nanos: 0 }
}

fn session(name: &str, csrf: &str, secs: u64) -> Session {
    Session { username: s(name), email: None, csrf: s(csrf), created_at: at(secs) }
}

// ---------------------------------------------------------------------------
// Configuration
// ---------------------------------------------------------------------------

fn no_vars() -> EnvVars {
    EnvVars {
        listen_addr: None,
        base_url: None,
        webhook_url: None,
        podman_bin: None,
        systemctl_bin: None,
        oidc_issuer: None,
        oidc_client_id: None,
        oidc_client_secret: None,
        oidc_redirect_uri: None,
    }
}

#[test]
fn config_defaults_and_blank_values() {
    let mut vars = no_vars();
    vars.base_url = Some(s("   "));
    vars.webhook_url = Some(s("https://hook"));
    let c = Config::from_env_vars(vars);
    assert_eq!(c.listen_addr, "127.0.0.1:8091");
    assert_eq!(c.base_url, "http://localhost:8091");
    assert_eq!(c.webhook_url, Some(s("https://hook")));
    assert_eq!(c.podman_bin, "podman");
    assert_eq!(c.systemctl_bin, "systemctl");
    assert!(c.oidc.is_none());
    assert!(!c.auth_enabled());
    assert!(!c.secure_cookies());
}

#[test]
fn config_auth_needs_all_four_oidc_variables() {
    let mut vars = no_vars();
    vars.oidc_issuer = Some(s("https://id"));
    vars.oidc_client_id = Some(s("c"));
    vars.oidc_client_secret = Some(s("x"));
    let c = Config::from_env_vars(vars);
    assert!(!c.auth_enabled());

    let mut vars = no_vars();
    vars.oidc_issuer = Some(s("https://id"));
    vars.oidc_client_id = Some(s("c"));
    vars.oidc_client_secret = Some(s("x"));
    vars.oidc_redirect_uri = Some(s("https://app/cb"));
    vars.base_url = Some(s("https://app"));
    let c = Config::from_env_vars(vars);
    assert!(c.auth_enabled());
    assert!(c.secure_cookies());
    assert_eq!(c.oidc.unwrap().redirect_uri, "https://app/cb");
}

// ---------------------------------------------------------------------------
// Sessions, tokens and cookies
// ---------------------------------------------------------------------------

#[test]
fn random_hex_is_two_chars_per_byte() {
    assert_eq!(random_hex(&[0xde, 0xad, 0x01]), "dead01");
    assert_eq!(random_hex(&[0u8; 16]).len(), 32);
}

#[test]
fn freshness_uses_whole_seconds() {
    assert!(is_fresh(at(100), at(100), 10));
    assert!(is_fresh(at(100), UnixTime { secs: 109, nanos: 999_999_999 }, 10));
    assert!(!is_fresh(at(100), at(110), 10));
    // an entry from the future is kept
    assert!(is_fresh(at(200), at(100), 10));
}

#[test]
fn token_map_read_after_write_and_remove() {
    let mut m: StrMap<u64> = StrMap::new();
    assert_eq!(m.get("a"), None);
    m.insert(s("a"), 1);
    m.insert(s("b"), 2);
    m.insert(s("a"), 3);
    assert_eq!(m.get("a"), Some(&3));
    assert_eq!(m.get("b"), Some(&2));
    assert_eq!(m.remove("a"), Some(3));
    assert_eq!(m.get("a"), None);
    assert_eq!(m.remove("a"), None);
    assert_eq!(m.get("b"), Some(&2));
}

#[test]
fn inserting_a_session_prunes_stale_ones() {
    let mut store = StrMap::new();
    let old_token = insert_session(&mut store, session("old", "c1", 1000), &[1, 2], at(1000));
    assert_eq!(old_token, "0102");
    let now = at(1000 + SESSION_TTL_SECS);
    let token = insert_session(&mut store, session("new", "c2", now.secs), &[0xff], now);
    assert_eq!(token, "ff");
    assert!(store.get("0102").is_none());
    assert_eq!(store.get("ff").map(|x| x.username.clone()), Some(s("new")));
}

#[test]
fn inserting_a_pending_login_keeps_fresh_ones() {
    let mut pending = StrMap::new();
    let a = insert_pending(&mut pending, PendingAuth { code_verifier: s("v1"), created_at: at(0) }, &[0xaa], at(0));
    let b = insert_pending(
        &mut pending,
        PendingAuth { code_verifier: s("v2"), created_at: at(PENDING_TTL_SECS - 1) },
        &[0xbb],
        at(PENDING_TTL_SECS - 1),
    );
    assert_eq!((a.as_str(), b.as_str()), ("aa", "bb"));
    assert!(pending.get("aa").is_some());
    assert!(pending.get("bb").is_some());
}

#[test]
fn cookie_value_finds_the_named_cookie() {
    assert_eq!(cookie_value("a=1; container_ui_session=tok; b=2", SESSION_COOKIE), Some(s("tok")));
    assert_eq!(cookie_value("  container_ui_session=x=y ", SESSION_COOKIE), Some(s("x=y")));
    assert_eq!(cookie_value("other=1", SESSION_COOKIE), None);
    assert_eq!(cookie_value("", SESSION_COOKIE), None);
}

// ---------------------------------------------------------------------------
// Pages
// ---------------------------------------------------------------------------

#[test]
fn esc_escapes_markup() {
    assert_eq!(esc("<a href=\"x\">Tom & Jerry's</a>"), "&lt;a href=&quot;x&quot;&gt;Tom &amp; Jerry&#39;s&lt;/a&gt;");
    assert_eq!(esc("plain"), "plain");
}

#[test]
fn error_page_shows_escaped_message() {
    let p = error_page(&config(true), "alice", "web", "no <such> container");
    assert!(p.starts_with("<!doctype html>\n"));
    assert!(p.contains("<title>web · Container UI</title>"));
    assert!(p.contains("<div class=\"banner err\">no &lt;such&gt; container</div>"));
    assert!(p.contains("<a href=\"/logout\">alice (logout)</a>"));
    assert!(!p.contains("http-equiv=\"refresh\""));
    let q = error_page(&config(false), "dev", "x", "y");
    assert!(q.contains("<span class=\"dim\">dev (auth disabled)</span>"));
}

#[test]
fn list_page_rows() {
    let mut c = container("web", "nginx:latest", "");
    c.ports = vec![s("8080->80/tcp")];
    let mut d = container("db", "postgres", "");
    d.state = s("exited");
    let stats = vec![(
        s("web"),
        StatsInfo { cpu_percent: s("1.5%"), mem_usage: s("10MB / 1GB"), mem_percent: s("1%") },
    )];
    let p = list_page(&config(true), "alice", "tok<", &[c, d], &stats);
    assert!(p.contains("<input type=\"hidden\" name=\"csrf\" value=\"tok&lt;\">"));
    assert!(p.contains("<td><a href=\"/containers/web\">web</a></td>"));
    assert!(p.contains("<td class=\"state-running\">● running <span class=\"dim\">(Up 2 hours)</span></td>"));
    assert!(p.contains("<td class=\"state-stopped\">○ exited"));
    assert!(p.contains("<span class=\"mono\">8080-&gt;80/tcp</span>"));
    assert!(p.contains("<td>1.5%</td>"));
    assert!(p.contains("http-equiv=\"refresh\""));
}

#[test]
fn update_results_page_lists_results() {
    let r = UpdateResult {
        name: s("web"),
        image: s("nginx"),
        old: Some(s("aaa")),
        new: Some(s("bbb")),
        changed: true,
        error: None,
    };
    let p = update_results_page(&config(true), "alice", &[r]);
    assert!(p.contains("web"));
    assert!(p.contains("aaa"));
    assert!(p.contains("bbb"));
}

// ---------------------------------------------------------------------------
// podman output
// ---------------------------------------------------------------------------

fn obj(members: Vec<(&str, Json)>) -> Json {
    Json::Object(members.into_iter().map(|(k, v)| (s(k), v)).collect())
}

#[test]
fn containers_from_podman_ps() {
    let item = obj(vec![
        ("Names", Json::Array(vec![Json::Str(s("/web"))])),
        ("Image", Json::Str(s("nginx"))),
        ("State", Json::Str(s("running"))),
        ("Status", Json::Str(s("Up"))),
        (
            "Ports",
            Json::Array(vec![obj(vec![
                ("host_port", Json::Number(JsonNumber::PosInt(8080))),
                ("container_port", Json::Number(JsonNumber::PosInt(80))),
                ("protocol", Json::Str(s("tcp"))),
            ])]),
        ),
        ("Labels", obj(vec![("PODMAN_SYSTEMD_UNIT", Json::Str(s("web.service")))])),
    ]);
    let cs = containers_from_ps(&Json::Array(vec![item]));
    assert_eq!(cs.len(), 1);
    assert_eq!(cs[0].name, "web");
    assert_eq!(cs[0].image, "nginx");
    assert_eq!(cs[0].ports, vec![s("8080->80/tcp")]);
    assert_eq!(cs[0].unit, "web.service");
    assert_eq!(containers_from_ps(&Json::Null).len(), 0);
}

#[test]
fn stats_lookup_takes_the_last_entry_for_a_name() {
    let row = |name: &str, cpu: &str| {
        obj(vec![
            ("name", Json::Str(s(name))),
            ("cpu_percent", Json::Str(s(cpu))),
            ("mem_usage", Json::Str(s("1MB"))),
            ("mem_percent", Json::Str(s("0.1%"))),
        ])
    };
    let t = stats_table(&Json::Array(vec![row("a", "1%"), row("a", "2%"), row("b", "3%")]));
    assert_eq!(t.len(), 3);
    assert_eq!(lookup_stats(&t, "a").map(|x| x.cpu_percent.clone()), Some(s("2%")));
    assert!(lookup_stats(&t, "c").is_none());
}

#[test]
fn digests_are_shortened() {
    assert_eq!(short_digest("sha256:0123456789abcdef0123"), "0123456789ab");
    assert_eq!(short_digest("0123456789abcdef"), "0123456789ab");
    assert_eq!(short_digest("sha256:abc"), "sha256:abc");
    let insp = Json::Array(vec![obj(vec![("Digest", Json::Str(s("sha256:ffffffffffffffffff")))])]);
    assert_eq!(digest_from_inspect(&insp), Ok(s("ffffffffffff")));
    assert_eq!(digest_from_inspect(&Json::Array(vec![])), Err(s("image has no digest")));
}

#[test]
fn podman_takes_binaries_from_config() {
    let p = Podman::new(&config(false));
    assert_eq!(p.bin, "podman");
    assert_eq!(p.systemctl, "systemctl");
    assert_eq!(p.timeout_secs, 600);
}

// ---------------------------------------------------------------------------
// OpenID Connect
// ---------------------------------------------------------------------------

#[test]
fn discovery_url_drops_trailing_slashes() {
    assert_eq!(discovery_url("https://id.example.com//"), "https://id.example.com/.well-known/openid-configuration");
    assert_eq!(discovery_url("https://id.example.com"), "https://id.example.com/.well-known/openid-configuration");
}

#[test]
fn discovery_issuer_defaults_to_configured() {
    let d = Discovery {
        authorization_endpoint: s("https://id/auth"),
        token_endpoint: s("https://id/token"),
        jwks_uri: s("https://id/jwks"),
        issuer: String::new(),
    };
    assert_eq!(with_default_issuer(d.clone(), "https://id").issuer, "https://id");
    let mut d2 = d;
    d2.issuer = s("https://other");
    assert_eq!(with_default_issuer(d2, "https://id").issuer, "https://other");
}

#[test]
fn jwks_cache_refreshes_after_an_hour() {
    let mut c: JwksCache<u32> = JwksCache::new();
    assert!(c.needs_refresh(at(0)));
    assert_eq!(c.store(vec![], at(10)), Err(s("no keys in JWKS")));
    assert!(c.needs_refresh(at(10)));
    assert_eq!(c.store(vec![7, 8], at(10)), Ok(()));
    assert_eq!(c.keys(), &vec![7, 8]);
    assert!(!c.needs_refresh(at(10 + 3600)));
    assert!(c.needs_refresh(UnixTime { secs: 10 + 3600, nanos: 1 }));
    assert!(c.needs_refresh(at(5)));
}

#[test]
fn key_selection() {
    let ids = vec![None, Some(s("k1")), Some(s("k2")), Some(s("k1"))];
    assert_eq!(select_key(&ids, Some("k1")), Some(1));
    assert_eq!(select_key(&ids, Some("k2")), Some(2));
    assert_eq!(select_key(&ids, Some("k9")), None);
    assert_eq!(select_key(&ids, None), Some(0));
    assert_eq!(select_key(&vec![], None), None);
}

#[test]
fn authorize_url_carries_the_pkce_request() {
    let disc = Discovery {
        authorization_endpoint: s("https://id.example.com/authorize?x=1"),
        token_endpoint: s("t"),
        jwks_uri: s("j"),
        issuer: s("i"),
    };
    let u = try_authorize_url(&oidc_config(), &disc, "st8", "chal").unwrap();
    assert_eq!(
        u,
        "https://id.example.com/authorize?x=1&response_type=code&client_id=dash&redirect_uri=https%3A%2F%2Fdash.example.com%2Foidc%2Fcallback&scope=openid+profile+email+groups&state=st8&code_challenge=chal&code_challenge_method=S256"
    );
    let bad = Discovery { authorization_endpoint: s("not a url"), ..disc };
    assert_eq!(try_authorize_url(&oidc_config(), &bad, "st8", "chal"), None);
}

#[test]
fn token_request_is_form_encoded() {
    let b = token_request_body(&oidc_config(), "c o+d", "ver");
    assert_eq!(
        b,
        "grant_type=authorization_code&code=c+o%2Bd&redirect_uri=https%3A%2F%2Fdash.example.com%2Foidc%2Fcallback&client_id=dash&client_secret=SECRET-REDACTED&code_verifier=ver"
    );
}

#[test]
fn pkce_verifier_and_challenge() {
    // RFC 7636, appendix B
    let random: [u8; 32] = [
        116, 24, 223, 180, 151, 153, 224, 37, 79, 250, 96, 125, 216, 173, 187, 186, 22, 212, 37, 77,
        105, 214, 191, 240, 91, 88, 5, 88, 83, 132, 141, 121,
    ];
    let v = code_verifier(&random);
    assert_eq!(v, "dBjftJeZ4CVP-mB92K27uhbUJU1p1r_wW1gFWFOEjXk");
    assert_eq!(code_challenge(&v), "E9Melhoa2OwvFrEMTJguCHaoeK1t8URWbuGJSstw-cM");
    assert_eq!(code_verifier(&[0xfb]), "-w");
    assert_eq!(code_verifier(&[]), "");
}

// ---------------------------------------------------------------------------
// Request decisions
// ---------------------------------------------------------------------------

#[test]
fn gate_without_login_is_dev() {
    let store = StrMap::new();
    match gate(false, "/", true, None, &store) {
        Gate::Proceed(a) => {
            assert_eq!(a.username, "dev");
            assert_eq!(a.csrf, "");
        }
        other => panic!("unexpected {:?}", other),
    }
}

#[test]
fn gate_with_login() {
    let mut store = StrMap::new();
    store.insert(s("tok"), session("alice", "c", 0));
    assert!(matches!(gate(true, "/health", false, None, &store), Gate::Public));
    assert!(matches!(gate(true, "/login", true, None, &store), Gate::Public));
    assert!(matches!(gate(true, "/", true, None, &store), Gate::RedirectToLogin));
    match gate(true, "/update", false, Some("container_ui_session=nope"), &store) {
        Gate::Refuse(code, msg) => {
            assert_eq!(code, 401);
            assert_eq!(msg, "authentication required");
        }
        other => panic!("unexpected {:?}", other),
    }
    match gate(true, "/", true, Some("x=1; container_ui_session=tok"), &store) {
        Gate::Proceed(a) => {
            assert_eq!(a.username, "alice");
            assert_eq!(a.csrf, "c");
        }
        other => panic!("unexpected {:?}", other),
    }
}

#[test]
fn csrf_check() {
    let dev = Authed { username: s("dev"), csrf: String::new() };
    assert!(check_csrf(&dev, "anything").is_ok());
    let a = Authed { username: s("alice"), csrf: s("abc") };
    assert!(check_csrf(&a, "abc").is_ok());
    assert_eq!(check_csrf(&a, "abd"), Err((403, s("invalid or missing CSRF token"))));
    assert_eq!(check_csrf(&a, ""), Err((403, s("invalid or missing CSRF token"))));
}

#[test]
fn update_form_keeps_repeated_fields() {
    let f = parse_update_form(b"csrf=t1&selected=web&selected=db&csrf=t2");
    assert_eq!(f.csrf, "t1");
    assert_eq!(f.selected, vec![s("web"), s("db")]);
    assert!(!f.all);
    let g = parse_update_form(b"all=1&csrf=a%20b");
    assert!(g.all);
    assert_eq!(g.csrf, "a b");
    let h = form_from_pairs(&vec![]);
    assert_eq!(h.csrf, "");
    assert!(h.selected.is_empty());
}

#[test]
fn update_targets_follow_the_form() {
    let cs = || vec![container("a", "i", ""), container("b", "i", ""), container("c", "i", "")];
    let form = |all: bool, sel: &[&str]| UpdateForm {
        csrf: String::new(),
        selected: sel.iter().map(|x| s(x)).collect(),
        all,
    };
    let names = |v: Vec<ContainerInfo>| v.into_iter().map(|c| c.name).collect::<Vec<_>>();
    assert_eq!(names(update_targets(cs(), &form(true, &[]))), vec![s("a"), s("b"), s("c")]);
    assert!(update_targets(cs(), &form(false, &[])).is_empty());
    assert_eq!(names(update_targets(cs(), &form(false, &["c", "a", "zz"]))), vec![s("a"), s("c")]);
}

#[test]
fn unit_names() {
    assert_eq!(unit_for(&container("web", "i", "")), "podman-web.service");
    assert_eq!(unit_for(&container("web", "i", "custom.service")), "custom.service");
}

fn run_to_end(c: &ContainerInfo, events: Vec<UpdateEvent>) -> (UpdateRun, Vec<UpdateAction>) {
    let (mut run, first) = UpdateRun::start(c);
    let mut actions = vec![first];
    for e in events {
        actions.push(run.step(e));
    }
    (run, actions)
}

#[test]
fn update_with_changed_digest_restarts() {
    let c = container("web", "nginx", "");
    let (run, actions) = run_to_end(
        &c,
        vec![
            UpdateEvent::Digest(Ok(s("aaa"))),
            UpdateEvent::Pulled(Ok(())),
            UpdateEvent::Digest(Ok(s("bbb"))),
            UpdateEvent::Restarted(Ok(())),
        ],
    );
    assert!(matches!(&actions[0], UpdateAction::GetDigest(i) if i == "nginx"));
    assert!(matches!(&actions[1], UpdateAction::Pull(i) if i == "nginx"));
    assert!(matches!(&actions[2], UpdateAction::GetDigest(i) if i == "nginx"));
    assert!(matches!(&actions[3], UpdateAction::Restart(u) if u == "podman-web.service"));
    assert!(matches!(&actions[4], UpdateAction::Finish));
    assert!(matches!(run.stage, UpdateStage::Done));
    assert!(run.result.changed);
    assert_eq!(run.result.old, Some(s("aaa")));
    assert_eq!(run.result.new, Some(s("bbb")));
    assert_eq!(run.result.error, None);
}

#[test]
fn update_with_same_digest_does_not_restart() {
    let c = container("web", "nginx", "");
    let (run, actions) = run_to_end(
        &c,
        vec![UpdateEvent::Digest(Ok(s("aaa"))), UpdateEvent::Pulled(Ok(())), UpdateEvent::Digest(Ok(s("aaa")))],
    );
    assert!(matches!(&actions[3], UpdateAction::Finish));
    assert!(!run.result.changed);
    assert_eq!(run.result.error, None);
}

#[test]
fn update_errors_end_the_run() {
    let c = container("web", "nginx", "u.service");
    let (run, _) = run_to_end(&c, vec![UpdateEvent::Digest(Err(s("boom")))]);
    assert_eq!(run.result.error, Some(s("get old digest: boom")));
    assert!(matches!(run.stage, UpdateStage::Done));

    let (run, _) = run_to_end(&c, vec![UpdateEvent::Digest(Ok(s("a"))), UpdateEvent::Pulled(Err(s("net")))]);
    assert_eq!(run.result.error, Some(s("pull: net")));
    assert_eq!(run.result.old, Some(s("a")));

    let (run, _) = run_to_end(
        &c,
        vec![UpdateEvent::Digest(Ok(s("a"))), UpdateEvent::Pulled(Ok(())), UpdateEvent::Digest(Err(s("x")))],
    );
    assert_eq!(run.result.error, Some(s("get new digest: x")));

    let (run, actions) = run_to_end(
        &c,
        vec![
            UpdateEvent::Digest(Ok(s("a"))),
            UpdateEvent::Pulled(Ok(())),
            UpdateEvent::Digest(Ok(s("b"))),
            UpdateEvent::Restarted(Err(s("unit failed"))),
        ],
    );
    assert!(matches!(&actions[3], UpdateAction::Restart(u) if u == "u.service"));
    assert!(run.result.changed);
    assert_eq!(run.result.error, Some(s("image changed but restart failed: unit failed")));
}

#[test]
fn update_notice_lists_changed_images() {
    let r = |img: &str, old: Option<&str>, new: Option<&str>, changed: bool| UpdateResult {
        name: s(img),
        image: s(img),
        old: old.map(s),
        new: new.map(s),
        changed,
        error: None,
    };
    assert_eq!(update_notice(&[r("a", Some("1"), Some("1"), false)]), None);
    assert_eq!(update_notice(&[]), None);
    assert_eq!(
        update_notice(&[r("a", Some("1"), Some("2"), true), r("b", None, None, false), r("c", Some("3"), Some("4"), true)]),
        Some(s("🔄 Updated \"a\" - 1 => 2\n🔄 Updated \"c\" - 3 => 4"))
    );
    assert_eq!(UPDATE_NOTICE_TITLE, "Updated Containers");
}

#[test]
fn restart_target_and_redirect() {
    let cs = vec![container("web", "i", ""), container("web", "i", "second.service")];
    assert_eq!(restart_target(&cs, "web"), Ok(s("podman-web.service")));
    assert_eq!(restart_target(&cs, "db"), Err(s("no such container")));
    assert_eq!(restart_redirect("web", "podman-web.service", Ok(())), "/containers/web?msg=podman-web.service");
    assert_eq!(
        restart_redirect("web", "u.service", Err(s("exit 1"))),
        "/containers/web?error=restart+u.service+failed%3A+exit+1"
    );
}

#[test]
fn last_log_timestamp() {
    assert_eq!(last_timestamp(&[]), None);
    assert_eq!(last_timestamp(&[s("t1 a"), s("t2 b c")]), Some(s("t2")));
    assert_eq!(last_timestamp(&[s("t1 a"), s("   ")]), None);
}

#[test]
fn callback_parameters() {
    assert_eq!(callback_params(Some(s("c")), Some(s("st")), None), Ok((s("c"), s("st"))));
    assert_eq!(callback_params(Some(s("c")), None, None), Err(s("missing code or state parameter")));
    assert_eq!(callback_params(None, None, Some(s("access_denied"))), Err(s("access_denied")));
}

#[test]
fn pending_login_is_taken_once() {
    let mut p = StrMap::new();
    p.insert(s("st"), PendingAuth { code_verifier: s("v"), created_at: at(0) });
    assert_eq!(take_pending(&mut p, "st").map(|x| x.code_verifier), Ok(s("v")));
    assert_eq!(take_pending(&mut p, "st").map(|x| x.code_verifier), Err(s("unknown or expired state parameter")));
}

#[test]
fn token_response_and_claims() {
    assert_eq!(id_token_of(TokenResponse { id_token: Some(s("jwt")), access_token: None }), Ok(s("jwt")));
    assert_eq!(
        id_token_of(TokenResponse { id_token: None, access_token: Some(s("a")) }),
        Err(s("token response missing id_token"))
    );
    assert_eq!(validation_failure("expired"), "id_token validation failed: expired");
    assert_eq!(discovery_failure("timeout"), "OIDC discovery failed: timeout");
    let mut c = IdClaims {
        iss: s("i"),
        exp: 0,
        sub: s("sub-1"),
        email: Some(s("a@x")),
        preferred_username: Some(s("alice")),
        name: None,
    };
    assert_eq!(session_username(&c), "alice");
    c.preferred_username = None;
    assert_eq!(session_username(&c), "a@x");
    c.email = None;
    assert_eq!(session_username(&c), "sub-1");
    c.email = Some(s("e@x"));
    let sess = new_session(&c, &[0x01, 0xff], at(5));
    assert_eq!(sess.username, "e@x");
    assert_eq!(sess.email, Some(s("e@x")));
    assert_eq!(sess.csrf, "01ff");
    assert_eq!(sess.created_at.secs, 5);
}

#[test]
fn cookies() {
    assert_eq!(session_cookie("tok", false), "container_ui_session=tok; Path=/; HttpOnly; SameSite=Lax");
    assert_eq!(session_cookie("tok", true), "container_ui_session=tok; Path=/; HttpOnly; SameSite=Lax; Secure");
    assert_eq!(logout_cookie(), "container_ui_session=; Path=/; HttpOnly; SameSite=Lax; Max-Age=0");
}

#[test]
fn logout_forgets_the_session() {
    let mut store = StrMap::new();
    store.insert(s("tok"), session("alice", "c", 0));
    store.insert(s("other"), session("bob", "d", 0));
    end_session(&mut store, Some("container_ui_session=tok"));
    assert!(store.get("tok").is_none());
    assert!(store.get("other").is_some());
    end_session(&mut store, None);
    assert!(store.get("other").is_some());
}

#[test]
fn podman_log_arguments() {
    assert_eq!(logs_tail_args("web", 500), vec![s("logs"), s("--timestamps"), s("--tail"), s("500"), s("web")]);
    assert_eq!(
        logs_follow_args("web", Some("2024-01-01T00:00:00Z")),
        vec![s("logs"), s("--timestamps"), s("--follow"), s("--since"), s("2024-01-01T00:00:00Z"), s("web")]
    );
    assert_eq!(logs_follow_args("web", None), vec![s("logs"), s("--timestamps"), s("--follow"), s("web")]);
}

#[test]
fn webhook_body_is_json() {
    assert_eq!(
        webhook_body("Updated Containers", "line \"1\"\nline 2"),
        "{\"message\":\"line \\\"1\\\"\\nline 2\",\"title\":\"Updated Containers\"}"
    );
}

#[test]
fn random_tokens_in_base64() {
    assert_eq!(random_b64url(&[0xff, 0xee]), "_-4");
    assert_eq!(random_b64url(&[1, 2, 3]), "AQID");
}
