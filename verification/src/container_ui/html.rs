//! The dashboard's HTML pages.

use vstd::prelude::*;
use crate::container_ui::podman::{ContainerInfo, StatsInfo, UpdateResult, lookup_stats, member_text, stats_for};
use crate::codec::{json_quoted, json_string};
use crate::container_ui::state::Config;
use crate::json::{
    as_array, as_bool, as_i64, as_object, as_str, get, items, jarray, jbool, jget, ji64, jobject,
    jstr, jstr_or, opt, str_or, text, text_of, Json,
};
use crate::text::{
    join, join_spec, lex_order, occurs_in, pair_order, pair_views, push_char, push_signed_decimal, same_text,
    signed_decimal, sort_pairs, sort_strings, views,
};

verus! {

broadcast use vstd::string::group_string_axioms;

// ---------------------------------------------------------------------------
// HTML escaping
// ---------------------------------------------------------------------------

/// The HTML-safe form of one character.
pub open spec fn esc_char(c: char) -> Seq<char> {
    if c == '&' {
        seq!['&', 'a', 'm', 'p', ';']
    } else if c == '<' {
        seq!['&', 'l', 't', ';']
    } else if c == '>' {
        seq!['&', 'g', 't', ';']
    } else if c == '"' {
        seq!['&', 'q', 'u', 'o', 't', ';']
    } else if c == '\'' {
        seq!['&', '#', '3', '9', ';']
    } else {
        seq![c]
    }
}

/// Every character replaced by its HTML-safe form.
pub open spec fn esc_spec(s: Seq<char>) -> Seq<char>
    decreases s.len(),
{
    if s.len() == 0 {
        seq![]
    } else {
        esc_spec(s.drop_last()) + esc_char(s.last())
    }
}

/// Escapes `&`, `<`, `>`, `"` and `'` for use in HTML text and attributes.
pub fn esc(s: &str) -> (r: String)
    ensures
        r@ == esc_spec(s@),
{
    let mut out = String::new();
    for c in it: s.chars()
        invariant
            it.seq() == s@,
            out@ == esc_spec(it.seq().take(it.index() as int)),
    {
        assert(it.seq().take(it.index() + 1).drop_last() =~= it.seq().take(it.index() as int));
        proof {
            reveal_strlit("&amp;");
            reveal_strlit("&lt;");
            reveal_strlit("&gt;");
            reveal_strlit("&quot;");
            reveal_strlit("&#39;");
        }
        if c == '&' {
            out.append("&amp;");
        } else if c == '<' {
            out.append("&lt;");
        } else if c == '>' {
            out.append("&gt;");
        } else if c == '"' {
            out.append("&quot;");
        } else if c == '\'' {
            out.append("&#39;");
        } else {
            push_char(&mut out, c);
        }
        assert(out@ =~= esc_spec(it.seq().take(it.index() + 1)));
    }
    assert(s@.take(s@.len() as int) =~= s@);
    out
}

/// Escaped text never holds a raw `<`, `>`, `"` or `'`.
pub proof fn lemma_esc_is_markup_free(s: Seq<char>)
    ensures
        forall|i: int|
            0 <= i < esc_spec(s).len() ==> {
                let c = #[trigger] esc_spec(s)[i];
                c != '<' && c != '>' && c != '"' && c != '\''
            },
    decreases s.len(),
{
    if s.len() > 0 {
        lemma_esc_is_markup_free(s.drop_last());
        let a = esc_spec(s.drop_last());
        let b = esc_char(s.last());
        assert forall|i: int| 0 <= i < esc_spec(s).len() implies {
            let c = #[trigger] esc_spec(s)[i];
            c != '<' && c != '>' && c != '"' && c != '\''
        } by {
            if i >= a.len() {
                assert(esc_spec(s)[i] == b[i - a.len()]);
            } else {
                assert(esc_spec(s)[i] == a[i]);
            }
        }
    }
}


/// The dashboard's style sheet.
pub const CSS: &'static str = r#"
:root { color-scheme: dark; }
* { box-sizing: border-box; }
body { font-family: system-ui, -apple-system, sans-serif; margin: 0; background: #14161b; color: #d7dae0; }
a { color: #7ab8f5; text-decoration: none; }
a:hover { text-decoration: underline; }
header { display: flex; align-items: baseline; gap: 1rem; padding: 0.7rem 1.25rem; border-bottom: 1px solid #262b34; background: #191c22; position: sticky; top: 0; z-index: 1; }
header h1 { font-size: 1.05rem; margin: 0; font-weight: 600; }
header .spacer { flex: 1; }
main { padding: 1.25rem; max-width: 1100px; margin: 0 auto; }
h2 { font-size: 1.3rem; margin-top: 0; }
h3 { font-size: 0.95rem; margin-top: 1.5rem; color: #aeb4bf; }
table { border-collapse: collapse; width: 100%; }
th, td { text-align: left; padding: 0.4rem 0.6rem; border-bottom: 1px solid #22262e; vertical-align: top; }
th { color: #8b919d; font-weight: 600; font-size: 0.72rem; text-transform: uppercase; letter-spacing: 0.04em; }
tbody tr:hover td { background: #181b21; }
.state-running { color: #4ade80; white-space: nowrap; }
.state-stopped { color: #f87171; white-space: nowrap; }
.dim { color: #767d89; }
.mono { font-family: ui-monospace, SFMono-Regular, Menlo, monospace; font-size: 0.85em; word-break: break-all; }
button { background: #262c39; color: #d7dae0; border: 1px solid #39414f; border-radius: 6px; padding: 0.32rem 0.85rem; cursor: pointer; font-size: 0.88rem; }
button:hover { background: #2f3745; }
button.warn { background: #4a2d2d; border-color: #6b3f3f; }
button.warn:hover { background: #5a3636; }
form.inline { display: inline; }
.banner { padding: 0.55rem 0.9rem; border-radius: 6px; margin-bottom: 1rem; font-size: 0.92rem; }
.banner.ok { background: #14301e; border: 1px solid #1f5c34; }
.banner.err { background: #38191b; border: 1px solid #5c2528; }
pre#logs { background: #0e1014; border: 1px solid #22262e; border-radius: 8px; padding: 0.8rem; height: 62vh; overflow-y: auto; font-size: 0.78rem; line-height: 1.5; white-space: pre-wrap; word-break: break-word; margin: 0.5rem 0; }
pre.small { background: #0e1014; border: 1px solid #22262e; border-radius: 8px; padding: 0.7rem; font-size: 0.78rem; line-height: 1.5; white-space: pre-wrap; word-break: break-all; margin: 0.25rem 0 0; }
dl.detail { display: grid; grid-template-columns: 150px 1fr; gap: 0.35rem 1rem; margin: 1rem 0; }
dl.detail dt { color: #8b919d; font-size: 0.82rem; padding-top: 0.1rem; }
dl.detail dd { margin: 0; }
ul.plain { list-style: none; padding: 0; margin: 0.25rem 0; }
#stream-status { font-size: 0.85rem; margin: 0.5rem 0; }
.actions { margin: 1.25rem 0; display: flex; gap: 0.75rem; align-items: center; flex-wrap: wrap; }
input[type="checkbox"] { width: 1.05rem; height: 1.05rem; vertical-align: middle; }
"#;

/// A line break between page lines.
pub open spec fn nl() -> Seq<char> {
    "\n"@
}

/// Who is logged in, with a logout link when logins are enabled.
pub open spec fn user_nav_spec(auth: bool, username: Seq<char>) -> Seq<char> {
    if auth {
        "<a href=\"/logout\">"@ + esc_spec(username) + " (logout)</a>"@
    } else {
        "<span class=\"dim\">"@ + esc_spec(username) + " (auth disabled)</span>"@
    }
}

/// The page frame around `body`; `refresh` makes the browser reload it
/// every 30 seconds.
pub open spec fn page_spec(auth: bool, title: Seq<char>, username: Seq<char>, refresh: bool, body: Seq<char>) -> Seq<char> {
    let refresh_tag = if refresh {
        "<meta http-equiv=\"refresh\" content=\"30\">"@
    } else {
        ""@
    };
    "<!doctype html>"@ + nl() + "<html lang=\"en\">"@ + nl() + "<head>"@ + nl() + "<meta charset=\"utf-8\">"@
        + nl() + "<meta name=\"viewport\" content=\"width=device-width, initial-scale=1\">"@ + nl()
        + refresh_tag + nl() + title_spec(title) + nl() + "<style>"@ + nl() + CSS@ + nl() + "</style>"@
        + nl() + "</head>"@ + nl() + "<body>"@ + nl() + "<header>"@ + nl()
        + "<h1><a href=\"/\">Containers</a></h1>"@ + nl() + "<span class=\"spacer\"></span>"@ + nl()
        + user_nav_spec(auth, username) + nl() + "</header>"@ + nl() + "<main>"@ + nl() + body + nl()
        + "</main>"@ + nl() + "</body>"@ + nl() + "</html>"@
}

/// The document title.
pub open spec fn title_spec(title: Seq<char>) -> Seq<char> {
    "<title>"@ + title + " · Container UI</title>"@
}

fn user_nav(auth: bool, username: &str) -> (s: String)
    ensures
        s@ == user_nav_spec(auth, username@),
{
    let e = esc(username);
    if auth {
        let mut s = "<a href=\"/logout\">".to_owned();
        s.append(e.as_str());
        s.append(" (logout)</a>");
        s
    } else {
        let mut s = "<span class=\"dim\">".to_owned();
        s.append(e.as_str());
        s.append(" (auth disabled)</span>");
        s
    }
}

fn title_tag(title: &str) -> (s: String)
    ensures
        s@ == title_spec(title@),
{
    let mut s = "<title>".to_owned();
    s.append(title);
    s.append(" · Container UI</title>");
    s
}

/// Appends `piece` and a line break.
fn line(out: &mut String, piece: &str)
    ensures
        final(out)@ == old(out)@ + piece@ + nl(),
{
    out.append(piece);
    out.append("\n");
}

/// Wraps `body` in the page frame: head, style sheet, header with the
/// user's name, and the main section.
pub fn page(config: &Config, title: &str, username: &str, refresh: bool, body: String) -> (s: String)
    ensures
        s@ == page_spec(config.oidc is Some, title@, username@, refresh, body@),
{
    let nav = user_nav(config.auth_enabled(), username);
    let refresh_tag = if refresh {
        "<meta http-equiv=\"refresh\" content=\"30\">"
    } else {
        ""
    };
    let t = title_tag(title);
    let mut s = "<!doctype html>".to_owned();
    s.append("\n");
    line(&mut s, "<html lang=\"en\">");
    line(&mut s, "<head>");
    line(&mut s, "<meta charset=\"utf-8\">");
    line(&mut s, "<meta name=\"viewport\" content=\"width=device-width, initial-scale=1\">");
    line(&mut s, refresh_tag);
    line(&mut s, t.as_str());
    line(&mut s, "<style>");
    line(&mut s, CSS);
    line(&mut s, "</style>");
    line(&mut s, "</head>");
    line(&mut s, "<body>");
    line(&mut s, "<header>");
    line(&mut s, "<h1><a href=\"/\">Containers</a></h1>");
    line(&mut s, "<span class=\"spacer\"></span>");
    line(&mut s, nav.as_str());
    line(&mut s, "</header>");
    line(&mut s, "<main>");
    line(&mut s, body.as_str());
    line(&mut s, "</main>");
    line(&mut s, "</body>");
    s.append("</html>");
    s
}

// ---------------------------------------------------------------------------
// Error page
// ---------------------------------------------------------------------------

/// The body of an error page.
pub open spec fn error_body_spec(title: Seq<char>, message: Seq<char>) -> Seq<char> {
    "<h2>"@ + esc_spec(title) + "</h2>"@ + nl() + "<div class=\"banner err\">"@ + esc_spec(message)
        + "</div>"@ + nl() + "<p><a href=\"/\">← back to containers</a></p>"@
}

/// A page that shows `message` under the heading `title`.
pub fn error_page(config: &Config, username: &str, title: &str, message: &str) -> (s: String)
    ensures
        s@ == page_spec(config.oidc is Some, title@, username@, false, error_body_spec(title@, message@)),
{
    let t = esc(title);
    let m = esc(message);
    let mut body = "<h2>".to_owned();
    body.append(t.as_str());
    body.append("</h2>");
    body.append("\n");
    body.append("<div class=\"banner err\">");
    body.append(m.as_str());
    body.append("</div>");
    body.append("\n");
    body.append("<p><a href=\"/\">← back to containers</a></p>");
    page(config, title, username, false, body)
}

// ---------------------------------------------------------------------------
// Container list
// ---------------------------------------------------------------------------

/// Whether podman reports the container as running.
pub open spec fn is_running(state: Seq<char>) -> bool {
    state == "running"@
}

/// The CSS class of a state.
pub open spec fn state_class_spec(state: Seq<char>) -> Seq<char> {
    if is_running(state) {
        "state-running"@
    } else {
        "state-stopped"@
    }
}

/// The dot shown before a state.
pub open spec fn dot_spec(state: Seq<char>) -> Seq<char> {
    if is_running(state) {
        "●"@
    } else {
        "○"@
    }
}

/// One port in the list.
pub open spec fn port_span(p: Seq<char>) -> Seq<char> {
    "<span class=\"mono\">"@ + esc_spec(p) + "</span>"@
}

/// The ports cell: one span per port, or a dash.
pub open spec fn ports_cell_spec(ports: Seq<Seq<char>>) -> Seq<char> {
    if ports.len() == 0 {
        "<span class=\"dim\">—</span>"@
    } else {
        join_spec(ports.map_values(|p: Seq<char>| port_span(p)), "<br>"@)
    }
}

/// The CPU (`cpu`) or memory cell of a row.
pub open spec fn stat_cell(st: Option<StatsInfo>, cpu: bool) -> Seq<char> {
    match st {
        Some(s) => esc_spec(
            if cpu {
                s.cpu_percent@
            } else {
                s.mem_usage@
            },
        ),
        None => "—"@,
    }
}

/// One table row of the container list.
pub open spec fn row_spec(c: ContainerInfo, st: Option<StatsInfo>) -> Seq<char> {
    let n = esc_spec(c.name@);
    "<tr>\n<td><input type=\"checkbox\" name=\"selected\" value=\""@ + n
        + "\"></td>\n<td><a href=\"/containers/"@ + n + "\">"@ + n + "</a></td>\n<td class=\""@
        + state_class_spec(c.state@) + "\">"@ + dot_spec(c.state@) + " "@ + esc_spec(c.state@)
        + " <span class=\"dim\">("@ + esc_spec(c.status@) + ")</span></td>\n<td class=\"mono\">"@
        + esc_spec(c.image@) + "</td>\n<td>"@ + ports_cell_spec(views(c.ports@)) + "</td>\n<td>"@
        + stat_cell(st, true) + "</td>\n<td>"@ + stat_cell(st, false)
        + "</td>\n<td><a href=\"/containers/"@ + n + "/logs\">logs</a></td>\n</tr>\n"@
}

/// All rows of the container list, with each container's numbers.
pub open spec fn rows_spec(cs: Seq<ContainerInfo>, stats: Seq<(String, StatsInfo)>) -> Seq<char>
    decreases cs.len(),
{
    if cs.len() == 0 {
        seq![]
    } else {
        rows_spec(cs.drop_last(), stats) + row_spec(cs.last(), stats_for(stats, cs.last().name@))
    }
}

/// The hidden form field that carries the CSRF token.
pub open spec fn csrf_input_spec(csrf: Seq<char>) -> Seq<char> {
    "<input type=\"hidden\" name=\"csrf\" value=\""@ + esc_spec(csrf) + "\">"@
}

/// The body of the container list page.
pub open spec fn list_body_spec(csrf: Seq<char>, rows: Seq<char>) -> Seq<char> {
    "<p class=\"dim\">Refreshes every 30 s. Tick containers and press <em>Update selected</em> to pull their images and restart the ones that changed.</p>"@
        + nl() + "<form method=\"post\" action=\"/update\">"@ + nl() + csrf_input_spec(csrf) + nl()
        + "<table>"@ + nl()
        + "<thead><tr><th></th><th>Name</th><th>State</th><th>Image</th><th>Ports</th><th>CPU</th><th>Memory</th><th></th></tr></thead>"@
        + nl() + ("<tbody>"@ + rows + "</tbody>"@) + nl() + "</table>"@ + nl()
        + "<p><button>Update selected</button></p>"@ + nl() + "</form>"@ + nl()
        + "<form method=\"post\" action=\"/update\" class=\"inline\">"@ + nl() + csrf_input_spec(csrf)
        + nl() + "<input type=\"hidden\" name=\"all\" value=\"1\">"@ + nl()
        + "<button class=\"warn\">Update all</button>"@ + nl() + "</form>"@
}

fn ports_cell(ports: &Vec<String>) -> (s: String)
    ensures
        s@ == ports_cell_spec(views(ports@)),
{
    if ports.len() == 0 {
        return "<span class=\"dim\">—</span>".to_owned();
    }
    let mut spans: Vec<String> = Vec::new();
    let mut i: usize = 0;
    while i < ports.len()
        invariant
            i <= ports@.len(),
            views(spans@) == views(ports@).take(i as int).map_values(|p: Seq<char>| port_span(p)),
        decreases ports.len() - i,
    {
        let mut sp = "<span class=\"mono\">".to_owned();
        let e = esc(ports[i].as_str());
        sp.append(e.as_str());
        sp.append("</span>");
        let ghost before = views(spans@);
        spans.push(sp);
        assert(views(spans@) =~= before.push(sp@));
        assert(views(ports@).take(i + 1).map_values(|p: Seq<char>| port_span(p)) =~= views(
            ports@,
        ).take(i as int).map_values(|p: Seq<char>| port_span(p)).push(port_span(ports@[i as int]@)));
        i = i + 1;
    }
    assert(views(ports@).take(ports@.len() as int) =~= views(ports@));
    join(&spans, "<br>")
}

fn stat_text(st: Option<&StatsInfo>, cpu: bool) -> (s: String)
    ensures
        s@ == stat_cell(
            match st {
                Some(x) => Some(*x),
                None => None,
            },
            cpu,
        ),
{
    match st {
        Some(x) => if cpu {
            esc(x.cpu_percent.as_str())
        } else {
            esc(x.mem_usage.as_str())
        },
        None => "—".to_owned(),
    }
}

fn csrf_input(csrf: &str) -> (s: String)
    ensures
        s@ == csrf_input_spec(csrf@),
{
    let mut s = "<input type=\"hidden\" name=\"csrf\" value=\"".to_owned();
    let e = esc(csrf);
    s.append(e.as_str());
    s.append("\">");
    s
}

fn list_row(c: &ContainerInfo, st: Option<&StatsInfo>) -> (s: String)
    ensures
        s@ == row_spec(
            *c,
            match st {
                Some(x) => Some(*x),
                None => None,
            },
        ),
{
    let n = esc(c.name.as_str());
    let running = same_text(c.state.as_str(), "running");
    let (state_class, dot) = if running {
        ("state-running", "●")
    } else {
        ("state-stopped", "○")
    };
    let state = esc(c.state.as_str());
    let status = esc(c.status.as_str());
    let image = esc(c.image.as_str());
    let ports = ports_cell(&c.ports);
    let cpu = stat_text(st, true);
    let mem = stat_text(st, false);
    let mut s = "<tr>\n<td><input type=\"checkbox\" name=\"selected\" value=\"".to_owned();
    s.append(n.as_str());
    s.append("\"></td>\n<td><a href=\"/containers/");
    s.append(n.as_str());
    s.append("\">");
    s.append(n.as_str());
    s.append("</a></td>\n<td class=\"");
    s.append(state_class);
    s.append("\">");
    s.append(dot);
    s.append(" ");
    s.append(state.as_str());
    s.append(" <span class=\"dim\">(");
    s.append(status.as_str());
    s.append(")</span></td>\n<td class=\"mono\">");
    s.append(image.as_str());
    s.append("</td>\n<td>");
    s.append(ports.as_str());
    s.append("</td>\n<td>");
    s.append(cpu.as_str());
    s.append("</td>\n<td>");
    s.append(mem.as_str());
    s.append("</td>\n<td><a href=\"/containers/");
    s.append(n.as_str());
    s.append("/logs\">logs</a></td>\n</tr>\n");
    s
}

/// The container list: one row per container with its state, image, ports
/// and current CPU and memory use, check boxes to pick containers for an
/// update, and a button to update all.
pub fn list_page(
    config: &Config,
    username: &str,
    csrf: &str,
    containers: &[ContainerInfo],
    stats: &Vec<(String, StatsInfo)>,
) -> (s: String)
    ensures
        s@ == page_spec(
            config.oidc is Some,
            "containers"@,
            username@,
            true,
            list_body_spec(csrf@, rows_spec(containers@, stats@)),
        ),
{
    let mut rows = String::new();
    let mut i: usize = 0;
    while i < containers.len()
        invariant
            i <= containers@.len(),
            rows@ == rows_spec(containers@.take(i as int), stats@),
        decreases containers.len() - i,
    {
        let c = &containers[i];
        let st = lookup_stats(stats, c.name.as_str());
        let row = list_row(c, st);
        rows.append(row.as_str());
        assert(containers@.take(i + 1).drop_last() =~= containers@.take(i as int));
        i = i + 1;
    }
    assert(containers@.take(containers@.len() as int) =~= containers@);
    let input = csrf_input(csrf);
    let mut tbody = "<tbody>".to_owned();
    tbody.append(rows.as_str());
    tbody.append("</tbody>");
    let mut body = "<p class=\"dim\">Refreshes every 30 s. Tick containers and press <em>Update selected</em> to pull their images and restart the ones that changed.</p>".to_owned();
    body.append("\n");
    line(&mut body, "<form method=\"post\" action=\"/update\">");
    line(&mut body, input.as_str());
    line(&mut body, "<table>");
    line(&mut body, "<thead><tr><th></th><th>Name</th><th>State</th><th>Image</th><th>Ports</th><th>CPU</th><th>Memory</th><th></th></tr></thead>");
    line(&mut body, tbody.as_str());
    line(&mut body, "</table>");
    line(&mut body, "<p><button>Update selected</button></p>");
    line(&mut body, "</form>");
    line(&mut body, "<form method=\"post\" action=\"/update\" class=\"inline\">");
    line(&mut body, input.as_str());
    line(&mut body, "<input type=\"hidden\" name=\"all\" value=\"1\">");
    line(&mut body, "<button class=\"warn\">Update all</button>");
    body.append("</form>");
    page(config, "containers", username, true, body)
}

// ---------------------------------------------------------------------------
// Update results
// ---------------------------------------------------------------------------

/// The status text of an update.
pub open spec fn result_status(r: UpdateResult) -> Seq<char> {
    match r.error {
        Some(e) => "error: "@ + e@,
        None => if r.changed {
            "updated — restarted"@
        } else {
            "unchanged"@
        },
    }
}

/// The CSS class of an update's status.
pub open spec fn result_class(r: UpdateResult) -> Seq<char> {
    match r.error {
        Some(_) => "state-stopped"@,
        None => if r.changed {
            "state-running"@
        } else {
            "dim"@
        },
    }
}

/// A digest cell: the digest, or a dash.
pub open spec fn digest_cell(d: Option<String>) -> Seq<char> {
    match d {
        Some(x) => esc_spec(x@),
        None => "—"@,
    }
}

/// One row of the update results.
pub open spec fn result_row(r: UpdateResult) -> Seq<char> {
    let n = esc_spec(r.name@);
    "<tr><td><a href=\"/containers/"@ + n + "\">"@ + n + "</a></td><td class=\"mono\">"@
        + esc_spec(r.image@) + "</td><td class=\"mono\">"@ + digest_cell(r.old)
        + "</td><td class=\"mono\">"@ + digest_cell(r.new) + "</td><td class=\""@ + result_class(r)
        + "\">"@ + esc_spec(result_status(r)) + "</td></tr>"@
}

/// The rows of all results.
pub open spec fn result_rows(rs: Seq<UpdateResult>) -> Seq<char>
    decreases rs.len(),
{
    if rs.len() == 0 {
        seq![]
    } else {
        result_rows(rs.drop_last()) + result_row(rs.last())
    }
}

/// The table rows of the results page: a note when nothing was selected.
pub open spec fn update_rows_spec(rs: Seq<UpdateResult>) -> Seq<char> {
    if rs.len() == 0 {
        "<tr><td colspan=\"5\" class=\"dim\">No containers selected.</td></tr>"@
    } else {
        result_rows(rs)
    }
}

/// The body of the results page.
pub open spec fn results_body_spec(rows: Seq<char>) -> Seq<char> {
    "<h2>Update results</h2>"@ + nl() + "<table>"@ + nl()
        + "<thead><tr><th>Container</th><th>Image</th><th>Old digest</th><th>New digest</th><th>Status</th></tr></thead>"@
        + nl() + ("<tbody>"@ + rows + "</tbody>"@) + nl() + "</table>"@ + nl()
        + "<p><a href=\"/\">← back to containers</a></p>"@
}

fn digest_text(d: &Option<String>) -> (s: String)
    ensures
        s@ == digest_cell(*d),
{
    match d {
        Some(x) => esc(x.as_str()),
        None => "—".to_owned(),
    }
}

fn result_row_text(r: &UpdateResult) -> (s: String)
    ensures
        s@ == result_row(*r),
{
    let (status, cls) = match &r.error {
        Some(e) => {
            let mut t = "error: ".to_owned();
            t.append(e.as_str());
            (t, "state-stopped")
        },
        None => if r.changed {
            ("updated — restarted".to_owned(), "state-running")
        } else {
            ("unchanged".to_owned(), "dim")
        },
    };
    let n = esc(r.name.as_str());
    let image = esc(r.image.as_str());
    let old = digest_text(&r.old);
    let new = digest_text(&r.new);
    let st = esc(status.as_str());
    let mut s = "<tr><td><a href=\"/containers/".to_owned();
    s.append(n.as_str());
    s.append("\">");
    s.append(n.as_str());
    s.append("</a></td><td class=\"mono\">");
    s.append(image.as_str());
    s.append("</td><td class=\"mono\">");
    s.append(old.as_str());
    s.append("</td><td class=\"mono\">");
    s.append(new.as_str());
    s.append("</td><td class=\"");
    s.append(cls);
    s.append("\">");
    s.append(st.as_str());
    s.append("</td></tr>");
    s
}

/// The outcome of an update: per container the old and new image digest
/// and whether it was restarted or failed.
pub fn update_results_page(config: &Config, username: &str, results: &[UpdateResult]) -> (s: String)
    ensures
        s@ == page_spec(
            config.oidc is Some,
            "update results"@,
            username@,
            false,
            results_body_spec(update_rows_spec(results@)),
        ),
{
    let mut rows = String::new();
    if results.len() == 0 {
        rows.append("<tr><td colspan=\"5\" class=\"dim\">No containers selected.</td></tr>");
        assert(rows@ =~= update_rows_spec(results@));
    }
    let mut i: usize = 0;
    while i < results.len()
        invariant
            i <= results@.len(),
            results@.len() > 0 ==> rows@ == result_rows(results@.take(i as int)),
            results@.len() == 0 ==> rows@ == update_rows_spec(results@),
        decreases results.len() - i,
    {
        let row = result_row_text(&results[i]);
        rows.append(row.as_str());
        assert(results@.take(i + 1).drop_last() =~= results@.take(i as int));
        i = i + 1;
    }
    assert(results@.take(results@.len() as int) =~= results@);
    let mut tbody = "<tbody>".to_owned();
    tbody.append(rows.as_str());
    tbody.append("</tbody>");
    let mut body = "<h2>Update results</h2>".to_owned();
    body.append("\n");
    line(&mut body, "<table>");
    line(&mut body, "<thead><tr><th>Container</th><th>Image</th><th>Old digest</th><th>New digest</th><th>Status</th></tr></thead>");
    line(&mut body, tbody.as_str());
    line(&mut body, "</table>");
    body.append("<p><a href=\"/\">← back to containers</a></p>");
    page(config, "update results", username, false, body)
}

// ---------------------------------------------------------------------------
// Logs
// ---------------------------------------------------------------------------

/// A JavaScript value: the quoted text, or `null`.
pub open spec fn js_value(s: Option<Seq<char>>) -> Seq<char> {
    match s {
        Some(x) => json_quoted(x),
        None => "null"@,
    }
}

/// The escaped log lines, each followed by a line break.
pub open spec fn history_spec(lines: Seq<Seq<char>>) -> Seq<char>
    decreases lines.len(),
{
    if lines.len() == 0 {
        seq![]
    } else {
        history_spec(lines.drop_last()) + esc_spec(lines.last()) + nl()
    }
}

/// The script that follows the log stream, resuming after `since` and
/// skipping the repeated `last_line`.
pub open spec fn script_spec(since: Seq<char>, last_line: Seq<char>, name: Seq<char>) -> Seq<char> {
    SCRIPT_0@ + since + SCRIPT_1@ + last_line + SCRIPT_2@ + name + SCRIPT_3@
}

/// The log page's script, in pieces around the values it is given.
pub const SCRIPT_0: &'static str = r#"<script>
(function () {
  var pre = document.getElementById('logs');
  var status = document.getElementById('stream-status');
  var since = "#;

pub const SCRIPT_1: &'static str = r#";
  var lastLine = "#;

pub const SCRIPT_2: &'static str = r#";
  var MAX_LINES = 5000;
  function connect() {
    var url = '/containers/' + "#;

pub const SCRIPT_3: &'static str = r#" + '/logs/stream' +
      (since ? '?since=' + encodeURIComponent(since).replace(/\+/g, '%2B') : '');
    var es = new EventSource(url);
    es.onopen = function () {
      status.textContent = 'live';
      status.className = 'state-running';
    };
    es.onmessage = function (e) {
      var line = e.data;
      if (line === lastLine) { lastLine = null; return; }
      lastLine = line;
      var atBottom = pre.scrollTop + pre.clientHeight >= pre.scrollHeight - 30;
      pre.textContent += line + '\n';
      var all = pre.textContent.split('\n');
      if (all.length > MAX_LINES) {
        pre.textContent = all.slice(-MAX_LINES).join('\n');
      }
      if (atBottom) pre.scrollTop = pre.scrollHeight;
    };
    es.onerror = function () {
      status.textContent = 'disconnected — retrying in 2 s';
      status.className = 'state-stopped';
      es.close();
      setTimeout(connect, 2000);
    };
  }
  // Start at the latest line (tail -f style) so no manual scroll is needed
  pre.scrollTop = pre.scrollHeight;
  connect();
})();
</script>"#;

/// The body of the log page.
pub open spec fn logs_body_spec(name: Seq<char>, history: Seq<char>, script: Seq<char>) -> Seq<char> {
    let ne = esc_spec(name);
    "<p><a href=\"/containers/"@ + ne + "\">← "@ + ne + "</a></p>"@ + nl()
        + "<div id=\"stream-status\" class=\"dim\">connecting…</div>"@ + nl() + ("<pre id=\"logs\">"@
        + history + "</pre>"@) + nl() + script
}

/// The log page: the last lines of the container's log, then a script that
/// streams new lines, starting from `last_ts`.
pub fn logs_page(config: &Config, username: &str, name: &str, lines: &[String], last_ts: Option<&str>) -> (s: String)
    ensures
        s@ == page_spec(
            config.oidc is Some,
            "logs · "@ + esc_spec(name@),
            username@,
            false,
            logs_body_spec(
                name@,
                history_spec(views(lines@)),
                script_spec(
                    js_value(
                        match last_ts {
                            Some(t) => Some(t@),
                            None => None,
                        },
                    ),
                    js_value(
                        if lines@.len() > 0 {
                            Some(lines@.last()@)
                        } else {
                            None
                        },
                    ),
                    json_quoted(name@),
                ),
            ),
        ),
{
    let mut history = String::new();
    let mut i: usize = 0;
    while i < lines.len()
        invariant
            i <= lines@.len(),
            history@ == history_spec(views(lines@.take(i as int))),
        decreases lines.len() - i,
    {
        let e = esc(lines[i].as_str());
        history.append(e.as_str());
        history.append("\n");
        assert(views(lines@.take(i + 1)).drop_last() =~= views(lines@.take(i as int)));
        i = i + 1;
    }
    assert(lines@.take(lines@.len() as int) =~= lines@);
    let since_js = match last_ts {
        Some(ts) => json_string(ts),
        None => "null".to_owned(),
    };
    let last_line_js = if lines.len() > 0 {
        json_string(lines[lines.len() - 1].as_str())
    } else {
        "null".to_owned()
    };
    let name_js = json_string(name);
    let mut script = SCRIPT_0.to_owned();
    script.append(since_js.as_str());
    script.append(SCRIPT_1);
    script.append(last_line_js.as_str());
    script.append(SCRIPT_2);
    script.append(name_js.as_str());
    script.append(SCRIPT_3);
    let ne = esc(name);
    let mut pre = "<pre id=\"logs\">".to_owned();
    pre.append(history.as_str());
    pre.append("</pre>");
    let mut body = "<p><a href=\"/containers/".to_owned();
    body.append(ne.as_str());
    body.append("\">← ");
    body.append(ne.as_str());
    body.append("</a></p>");
    body.append("\n");
    line(&mut body, "<div id=\"stream-status\" class=\"dim\">connecting…</div>");
    line(&mut body, pre.as_str());
    body.append(script.as_str());
    let mut title = "logs · ".to_owned();
    title.append(ne.as_str());
    page(config, title.as_str(), username, false, body)
}

// ---------------------------------------------------------------------------
// Container details
// ---------------------------------------------------------------------------

/// The names of an object's members, in the document's order.
pub open spec fn member_names(es: Seq<(String, Json)>) -> Seq<Seq<char>> {
    es.map_values(|e: (String, Json)| e.0@)
}

/// One published port binding of container port `k`.
pub open spec fn binding_text(b: Json, k: Seq<char>) -> Seq<char> {
    text_of(Some(b), "HostIp"@) + ":"@ + text_of(Some(b), "HostPort"@) + " → "@ + k
}

/// The lines for container port `k`: its bindings, or that it is only
/// exposed.
pub open spec fn key_port_texts(k: Seq<char>, v: Option<Json>) -> Seq<Seq<char>> {
    let bs = items(v);
    if bs.len() == 0 {
        seq![k + " (exposed)"@]
    } else {
        bs.map_values(|b: Json| binding_text(b, k))
    }
}

/// The port lines for the container ports `keys` of the port map `pm`.
pub open spec fn port_texts_for(keys: Seq<Seq<char>>, pm: Option<Json>) -> Seq<Seq<char>>
    decreases keys.len(),
{
    if keys.len() == 0 {
        seq![]
    } else {
        port_texts_for(keys.drop_last(), pm) + key_port_texts(keys.last(), jget(pm, keys.last()))
    }
}

/// The port lines of `podman inspect`, container ports in sorted order.
pub open spec fn inspect_ports(i: Json) -> Seq<Seq<char>> {
    let pm = jget(jget(Some(i), "NetworkSettings"@), "Ports"@);
    match jobject(pm) {
        Some(es) => port_texts_for(member_names(es).sort_by(lex_order()), pm),
        None => seq![],
    }
}

/// One row of the mounts table.
pub open spec fn mount_row(m: Json) -> Seq<char> {
    "<tr><td class=\"mono\">"@ + esc_spec(text_of(Some(m), "Source"@)) + "</td><td class=\"mono\">"@
        + esc_spec(text_of(Some(m), "Destination"@)) + "</td><td>"@ + esc_spec(text_of(Some(m), "Type"@))
        + "</td><td class=\"mono\">"@ + esc_spec(text_of(Some(m), "Mode"@)) + "</td><td>"@ + (if jbool(
        jget(Some(m), "RW"@),
    ) == Some(true) {
        "rw"@
    } else {
        "ro"@
    }) + "</td></tr>"@
}

/// The rows of the mounts table.
pub open spec fn mount_rows(ms: Seq<Json>) -> Seq<char>
    decreases ms.len(),
{
    if ms.len() == 0 {
        seq![]
    } else {
        mount_rows(ms.drop_last()) + mount_row(ms.last())
    }
}

/// The escaped environment entries that are strings.
pub open spec fn env_texts(a: Seq<Json>) -> Seq<Seq<char>>
    decreases a.len(),
{
    if a.len() == 0 {
        seq![]
    } else {
        env_texts(a.drop_last()) + match jstr(Some(a.last())) {
            Some(s) => seq![esc_spec(s)],
            None => seq![],
        }
    }
}

/// The environment of `podman inspect`, one entry per line.
pub open spec fn inspect_env(i: Json) -> Seq<char> {
    match jarray(jget(jget(Some(i), "Config"@), "Env"@)) {
        Some(a) => join_spec(env_texts(a), "\n"@),
        None => seq![],
    }
}

/// The labels of `podman inspect` as (name, text) pairs.
pub open spec fn label_pairs(es: Seq<(String, Json)>) -> Seq<(Seq<char>, Seq<char>)> {
    es.map_values(|e: (String, Json)| (e.0@, jstr_or(Some(e.1), seq![])))
}

/// The labels, sorted, as `name = value` lines.
pub open spec fn inspect_labels(i: Json) -> Seq<char> {
    match jobject(jget(jget(Some(i), "Config"@), "Labels"@)) {
        Some(es) => join_spec(
            label_pairs(es).sort_by(pair_order()).map_values(
                |p: (Seq<char>, Seq<char>)| p.0 + " = "@ + p.1,
            ),
            "\n"@,
        ),
        None => seq![],
    }
}

/// The status a container is in (`?` when podman did not say).
pub open spec fn inspect_state(i: Json) -> Seq<char> {
    jstr_or(jget(jget(Some(i), "State"@), "Status"@), "?"@)
}

/// The message banner: the error if any, else the message if any.
pub open spec fn banner_spec(msg: Option<Seq<char>>, error: Option<Seq<char>>) -> Seq<char> {
    match error {
        Some(e) => "<div class=\"banner err\">"@ + esc_spec(e) + "</div>"@,
        None => match msg {
            Some(m) => "<div class=\"banner ok\">"@ + esc_spec(m) + "</div>"@,
            None => seq![],
        },
    }
}

/// The usage table row.
pub open spec fn stats_row_spec(st: Option<StatsInfo>) -> Seq<char> {
    match st {
        Some(s) => "<tr><td>"@ + esc_spec(s.cpu_percent@) + "</td><td>"@ + esc_spec(s.mem_usage@)
            + "</td></tr>"@,
        None => "<tr><td class=\"dim\">—</td><td class=\"dim\">—</td></tr>"@,
    }
}

/// One item of the port list.
pub open spec fn port_item(p: Seq<char>) -> Seq<char> {
    "<li>"@ + esc_spec(p) + "</li>"@
}

/// The port list, or `none`.
pub open spec fn ports_html_spec(ports: Seq<Seq<char>>) -> Seq<char> {
    if ports.len() == 0 {
        "<span class=\"dim\">none</span>"@
    } else {
        "<ul class=\"plain mono\">"@ + join_spec(ports.map_values(|p: Seq<char>| port_item(p)), ""@)
            + "</ul>"@
    }
}

/// The heading: name and state.
pub open spec fn heading_spec(name: Seq<char>, state: Seq<char>) -> Seq<char> {
    "<h2>"@ + esc_spec(name) + " <span class=\""@ + state_class_spec(state) + "\">"@ + dot_spec(state)
        + " "@ + state + "</span></h2>"@
}

/// The exit code, or a dash.
pub open spec fn exit_code_spec(c: Option<i64>) -> Seq<char> {
    match c {
        Some(x) => signed_decimal(x as int),
        None => "—"@,
    }
}

/// The definition list with image, network, times, exit code, OOM kill and
/// systemd unit.
pub open spec fn details_spec(i: Json) -> Seq<char> {
    let st = jget(Some(i), "State"@);
    let net = jget(Some(i), "NetworkSettings"@);
    "<dl class=\"detail\">"@ + nl() + "<dt>Image</dt><dd class=\"mono\">"@ + esc_spec(
        text_of(Some(i), "ImageName"@),
    ) + "</dd>"@ + nl() + "<dt>Image digest</dt><dd class=\"mono\">"@ + esc_spec(
        text_of(Some(i), "ImageDigest"@),
    ) + "</dd>"@ + nl() + "<dt>Network</dt><dd class=\"mono\">"@ + esc_spec(text_of(net, "IPAddress"@))
        + " <span class=\"dim\">(gw "@ + esc_spec(text_of(net, "Gateway"@)) + ")</span></dd>"@ + nl()
        + "<dt>Created</dt><dd>"@ + esc_spec(text_of(Some(i), "Created"@)) + "</dd>"@ + nl()
        + "<dt>Started</dt><dd>"@ + esc_spec(text_of(st, "StartedAt"@)) + "</dd>"@ + nl()
        + "<dt>Exit code</dt><dd>"@ + exit_code_spec(ji64(jget(st, "ExitCode"@))) + "</dd>"@ + nl()
        + "<dt>OOM killed</dt><dd>"@ + (if jbool(jget(st, "OOMKilled"@)) == Some(true) {
        "yes"@
    } else {
        "no"@
    }) + "</dd>"@ + nl() + "<dt>Systemd unit</dt><dd class=\"mono\">"@ + esc_spec(
        text_of(jget(jget(Some(i), "Config"@), "Labels"@), "PODMAN_SYSTEMD_UNIT"@),
    ) + "</dd>"@ + nl() + "</dl>"@
}

/// The ports, mounts, usage, environment and labels sections.
pub open spec fn sections_spec(i: Json, st: Option<StatsInfo>) -> Seq<char> {
    let env = inspect_env(i);
    let labels = inspect_labels(i);
    "<h3>Ports</h3>"@ + nl() + ports_html_spec(inspect_ports(i)) + nl() + "<h3>Mounts</h3>"@ + nl()
        + ("<table><thead><tr><th>Host</th><th>Container</th><th>Type</th><th>Mode</th><th>Access</th></tr></thead><tbody>"@
        + mount_rows(items(jget(Some(i), "Mounts"@))) + "</tbody></table>"@) + nl() + "<h3>Usage</h3>"@
        + nl() + ("<table><thead><tr><th>CPU</th><th>Memory</th></tr></thead><tbody>"@
        + stats_row_spec(st) + "</tbody></table>"@) + nl() + "<h3>Environment</h3>"@ + nl() + (
    "<pre class=\"small\">"@ + (if env.len() == 0 {
        "—"@
    } else {
        env
    }) + "</pre>"@) + nl() + "<h3>Labels</h3>"@ + nl() + ("<pre class=\"small\">"@ + (if labels.len()
        == 0 {
        "—"@
    } else {
        labels
    }) + "</pre>"@)
}

/// The links and forms to view logs, restart and update the container.
pub open spec fn actions_spec(name: Seq<char>, csrf: Seq<char>) -> Seq<char> {
    let ne = esc_spec(name);
    let ce = esc_spec(csrf);
    "<div class=\"actions\">"@ + nl() + ("<a href=\"/containers/"@ + ne + "/logs\">View logs →</a>"@) + nl()
        + ("<form method=\"post\" action=\"/containers/"@ + ne
        + "/restart\" class=\"inline\"><input type=\"hidden\" name=\"csrf\" value=\""@ + ce
        + "\"><button class=\"warn\">Restart</button></form>"@) + nl()
        + ("<form method=\"post\" action=\"/update\" class=\"inline\"><input type=\"hidden\" name=\"csrf\" value=\""@
        + ce + "\"><input type=\"hidden\" name=\"selected\" value=\""@ + ne
        + "\"><button>Update image</button></form>"@) + nl() + "</div>"@
}

/// The body of the container page.
pub open spec fn container_body_spec(
    name: Seq<char>,
    csrf: Seq<char>,
    i: Json,
    st: Option<StatsInfo>,
    msg: Option<Seq<char>>,
    error: Option<Seq<char>>,
) -> Seq<char> {
    heading_spec(name, inspect_state(i)) + nl() + banner_spec(msg, error) + nl() + details_spec(i) + nl()
        + sections_spec(i, st) + nl() + actions_spec(name, csrf)
}

fn port_lines_for_key(k: &String, v: Option<&Json>, out: &mut Vec<String>)
    ensures
        views(final(out)@) == views(old(out)@) + key_port_texts(k@, opt(v)),
{
    match as_array(v) {
        Some(bs) => if bs.len() > 0 {
            let mut i: usize = 0;
            while i < bs.len()
                invariant
                    i <= bs@.len(),
                    bs@ == items(opt(v)),
                    bs@.len() > 0,
                    views(out@) == views(old(out)@) + bs@.take(i as int).map_values(
                        |b: Json| binding_text(b, k@),
                    ),
                decreases bs.len() - i,
            {
                let b = &bs[i];
                let mut t = text(Some(b), "HostIp");
                t.append(":");
                let hp = text(Some(b), "HostPort");
                t.append(hp.as_str());
                t.append(" → ");
                t.append(k.as_str());
                let ghost before = views(out@);
                out.push(t);
                assert(views(out@) =~= before.push(t@));
                assert(bs@.take(i + 1).map_values(|b: Json| binding_text(b, k@)) =~= bs@.take(
                    i as int,
                ).map_values(|b: Json| binding_text(b, k@)).push(binding_text(bs@[i as int], k@)));
                i = i + 1;
            }
            assert(bs@.take(bs@.len() as int) =~= bs@);
            return ;
        },
        None => {},
    }
    let mut t = k.clone();
    t.append(" (exposed)");
    let ghost before = views(out@);
    out.push(t);
    assert(views(out@) =~= before.push(t@));
}

fn inspect_port_lines(i: &Json) -> (r: Vec<String>)
    ensures
        views(r@) == inspect_ports(*i),
{
    let pm = get(get(Some(i), "NetworkSettings"), "Ports");
    let mut out: Vec<String> = Vec::new();
    match as_object(pm) {
        Some(es) => {
            let mut names: Vec<String> = Vec::new();
            let mut k: usize = 0;
            while k < es.len()
                invariant
                    k <= es@.len(),
                    views(names@) == member_names(es@.take(k as int)),
                decreases es.len() - k,
            {
                let ghost before = views(names@);
                names.push(es[k].0.clone());
                assert(views(names@) =~= before.push(es@[k as int].0@));
                assert(member_names(es@.take(k + 1)) =~= member_names(es@.take(k as int)).push(
                    es@[k as int].0@,
                ));
                k = k + 1;
            }
            assert(es@.take(es@.len() as int) =~= es@);
            let keys = sort_strings(&names);
            let mut j: usize = 0;
            while j < keys.len()
                invariant
                    j <= keys@.len(),
                    views(out@) == port_texts_for(views(keys@).take(j as int), opt(pm)),
                decreases keys.len() - j,
            {
                let v = get(pm, keys[j].as_str());
                port_lines_for_key(&keys[j], v, &mut out);
                assert(views(keys@).take(j + 1).drop_last() =~= views(keys@).take(j as int));
                j = j + 1;
            }
            assert(views(keys@).take(keys@.len() as int) =~= views(keys@));
        },
        None => {},
    }
    out
}

fn mount_row_text(m: &Json) -> (s: String)
    ensures
        s@ == mount_row(*m),
{
    let src = esc(text(Some(m), "Source").as_str());
    let dst = esc(text(Some(m), "Destination").as_str());
    let ty = esc(text(Some(m), "Type").as_str());
    let mode = esc(text(Some(m), "Mode").as_str());
    let rw = match as_bool(get(Some(m), "RW")) {
        Some(true) => "rw",
        _ => "ro",
    };
    let mut s = "<tr><td class=\"mono\">".to_owned();
    s.append(src.as_str());
    s.append("</td><td class=\"mono\">");
    s.append(dst.as_str());
    s.append("</td><td>");
    s.append(ty.as_str());
    s.append("</td><td class=\"mono\">");
    s.append(mode.as_str());
    s.append("</td><td>");
    s.append(rw);
    s.append("</td></tr>");
    s
}

fn mounts_text(i: &Json) -> (s: String)
    ensures
        s@ == mount_rows(items(jget(Some(*i), "Mounts"@))),
{
    let mut s = String::new();
    match as_array(get(Some(i), "Mounts")) {
        Some(ms) => {
            let mut k: usize = 0;
            while k < ms.len()
                invariant
                    k <= ms@.len(),
                    s@ == mount_rows(ms@.take(k as int)),
                decreases ms.len() - k,
            {
                let row = mount_row_text(&ms[k]);
                s.append(row.as_str());
                assert(ms@.take(k + 1).drop_last() =~= ms@.take(k as int));
                k = k + 1;
            }
            assert(ms@.take(ms@.len() as int) =~= ms@);
        },
        None => {},
    }
    s
}

fn env_text(i: &Json) -> (s: String)
    ensures
        s@ == inspect_env(*i),
{
    match as_array(get(get(Some(i), "Config"), "Env")) {
        Some(a) => {
            let mut lines: Vec<String> = Vec::new();
            let mut k: usize = 0;
            while k < a.len()
                invariant
                    k <= a@.len(),
                    views(lines@) == env_texts(a@.take(k as int)),
                decreases a.len() - k,
            {
                assert(a@.take(k + 1).drop_last() =~= a@.take(k as int));
                assert(a@.take(k + 1).last() == a@[k as int]);
                match as_str(Some(&a[k])) {
                    Some(x) => {
                        let e = esc(x);
                        let ghost before = views(lines@);
                        lines.push(e);
                        assert(views(lines@) =~= before + seq![e@]);
                    },
                    None => {
                        assert(views(lines@) =~= views(lines@) + Seq::<Seq<char>>::empty());
                    },
                }
                k = k + 1;
            }
            assert(a@.take(a@.len() as int) =~= a@);
            join(&lines, "\n")
        },
        None => String::new(),
    }
}

fn labels_text(i: &Json) -> (s: String)
    ensures
        s@ == inspect_labels(*i),
{
    match as_object(get(get(Some(i), "Config"), "Labels")) {
        Some(es) => {
            let mut pairs: Vec<(String, String)> = Vec::new();
            let mut k: usize = 0;
            while k < es.len()
                invariant
                    k <= es@.len(),
                    pair_views(pairs@) == label_pairs(es@.take(k as int)),
                decreases es.len() - k,
            {
                proof {
                    reveal_strlit("");
                }
                let v = str_or(Some(&es[k].1), "");
                assert(""@ =~= Seq::<char>::empty());
                assert(v@ == jstr_or(Some(es@[k as int].1), seq![]));
                let ghost before = pair_views(pairs@);
                pairs.push((es[k].0.clone(), v));
                assert(pair_views(pairs@) =~= before.push((es@[k as int].0@, v@)));
                assert(label_pairs(es@.take(k + 1)) =~= label_pairs(es@.take(k as int)).push(
                    (es@[k as int].0@, jstr_or(Some(es@[k as int].1), seq![])),
                ));
                k = k + 1;
            }
            assert(es@.take(es@.len() as int) =~= es@);
            let sorted = sort_pairs(&pairs);
            let mut lines: Vec<String> = Vec::new();
            let mut j: usize = 0;
            while j < sorted.len()
                invariant
                    j <= sorted@.len(),
                    views(lines@) == pair_views(sorted@).take(j as int).map_values(
                        |p: (Seq<char>, Seq<char>)| p.0 + " = "@ + p.1,
                    ),
                decreases sorted.len() - j,
            {
                let mut t = sorted[j].0.clone();
                t.append(" = ");
                t.append(sorted[j].1.as_str());
                let ghost before = views(lines@);
                lines.push(t);
                assert(views(lines@) =~= before.push(t@));
                assert(pair_views(sorted@).take(j + 1).map_values(
                    |p: (Seq<char>, Seq<char>)| p.0 + " = "@ + p.1,
                ) =~= pair_views(sorted@).take(j as int).map_values(
                    |p: (Seq<char>, Seq<char>)| p.0 + " = "@ + p.1,
                ).push(sorted@[j as int].0@ + " = "@ + sorted@[j as int].1@));
                j = j + 1;
            }
            assert(pair_views(sorted@).take(sorted@.len() as int) =~= pair_views(sorted@));
            join(&lines, "\n")
        },
        None => String::new(),
    }
}

fn ports_html(ports: &Vec<String>) -> (s: String)
    ensures
        s@ == ports_html_spec(views(ports@)),
{
    if ports.len() == 0 {
        return "<span class=\"dim\">none</span>".to_owned();
    }
    let mut items_v: Vec<String> = Vec::new();
    let mut i: usize = 0;
    while i < ports.len()
        invariant
            i <= ports@.len(),
            views(items_v@) == views(ports@).take(i as int).map_values(|p: Seq<char>| port_item(p)),
        decreases ports.len() - i,
    {
        let mut li = "<li>".to_owned();
        let e = esc(ports[i].as_str());
        li.append(e.as_str());
        li.append("</li>");
        let ghost before = views(items_v@);
        items_v.push(li);
        assert(views(items_v@) =~= before.push(li@));
        assert(views(ports@).take(i + 1).map_values(|p: Seq<char>| port_item(p)) =~= views(
            ports@,
        ).take(i as int).map_values(|p: Seq<char>| port_item(p)).push(port_item(ports@[i as int]@)));
        i = i + 1;
    }
    assert(views(ports@).take(ports@.len() as int) =~= views(ports@));
    let mut s = "<ul class=\"plain mono\">".to_owned();
    let joined = join(&items_v, "");
    s.append(joined.as_str());
    s.append("</ul>");
    s
}

fn details_text(i: &Json) -> (s: String)
    ensures
        s@ == details_spec(*i),
{
    let st = get(Some(i), "State");
    let net = get(Some(i), "NetworkSettings");
    let image_name = esc(text(Some(i), "ImageName").as_str());
    let image_digest = esc(text(Some(i), "ImageDigest").as_str());
    let ip = esc(text(net, "IPAddress").as_str());
    let gateway = esc(text(net, "Gateway").as_str());
    let created = esc(text(Some(i), "Created").as_str());
    let started = esc(text(st, "StartedAt").as_str());
    let mut exit = String::new();
    match as_i64(get(st, "ExitCode")) {
        Some(c) => {
            push_signed_decimal(&mut exit, c);
            assert(exit@ =~= signed_decimal(c as int));
        },
        None => {
            exit.append("—");
            assert(exit@ =~= "—"@);
        },
    }
    let oom = match as_bool(get(st, "OOMKilled")) {
        Some(true) => "yes",
        _ => "no",
    };
    let unit = esc(text(get(get(Some(i), "Config"), "Labels"), "PODMAN_SYSTEMD_UNIT").as_str());
    let mut s = "<dl class=\"detail\">".to_owned();
    s.append("\n");
    s.append("<dt>Image</dt><dd class=\"mono\">");
    s.append(image_name.as_str());
    s.append("</dd>");
    s.append("\n");
    s.append("<dt>Image digest</dt><dd class=\"mono\">");
    s.append(image_digest.as_str());
    s.append("</dd>");
    s.append("\n");
    s.append("<dt>Network</dt><dd class=\"mono\">");
    s.append(ip.as_str());
    s.append(" <span class=\"dim\">(gw ");
    s.append(gateway.as_str());
    s.append(")</span></dd>");
    s.append("\n");
    s.append("<dt>Created</dt><dd>");
    s.append(created.as_str());
    s.append("</dd>");
    s.append("\n");
    s.append("<dt>Started</dt><dd>");
    s.append(started.as_str());
    s.append("</dd>");
    s.append("\n");
    s.append("<dt>Exit code</dt><dd>");
    s.append(exit.as_str());
    s.append("</dd>");
    s.append("\n");
    s.append("<dt>OOM killed</dt><dd>");
    s.append(oom);
    s.append("</dd>");
    s.append("\n");
    s.append("<dt>Systemd unit</dt><dd class=\"mono\">");
    s.append(unit.as_str());
    s.append("</dd>");
    s.append("\n");
    s.append("</dl>");
    s
}

fn sections_text(i: &Json, stats: Option<&StatsInfo>) -> (s: String)
    ensures
        s@ == sections_spec(
            *i,
            match stats {
                Some(x) => Some(*x),
                None => None,
            },
        ),
{
    let ports = inspect_port_lines(i);
    let ph = ports_html(&ports);
    let mut mounts = "<table><thead><tr><th>Host</th><th>Container</th><th>Type</th><th>Mode</th><th>Access</th></tr></thead><tbody>".to_owned();
    let rows = mounts_text(i);
    mounts.append(rows.as_str());
    mounts.append("</tbody></table>");
    let stats_row = match stats {
        Some(x) => {
            let mut r = "<tr><td>".to_owned();
            let c = esc(x.cpu_percent.as_str());
            r.append(c.as_str());
            r.append("</td><td>");
            let m = esc(x.mem_usage.as_str());
            r.append(m.as_str());
            r.append("</td></tr>");
            r
        },
        None => "<tr><td class=\"dim\">—</td><td class=\"dim\">—</td></tr>".to_owned(),
    };
    let mut usage = "<table><thead><tr><th>CPU</th><th>Memory</th></tr></thead><tbody>".to_owned();
    usage.append(stats_row.as_str());
    usage.append("</tbody></table>");
    let env = env_text(i);
    let mut env_pre = "<pre class=\"small\">".to_owned();
    if env.as_str().is_empty() {
        env_pre.append("—");
    } else {
        env_pre.append(env.as_str());
    }
    env_pre.append("</pre>");
    let labels = labels_text(i);
    let mut labels_pre = "<pre class=\"small\">".to_owned();
    if labels.as_str().is_empty() {
        labels_pre.append("—");
    } else {
        labels_pre.append(labels.as_str());
    }
    labels_pre.append("</pre>");
    let mut s = "<h3>Ports</h3>".to_owned();
    s.append("\n");
    line(&mut s, ph.as_str());
    line(&mut s, "<h3>Mounts</h3>");
    line(&mut s, mounts.as_str());
    line(&mut s, "<h3>Usage</h3>");
    line(&mut s, usage.as_str());
    line(&mut s, "<h3>Environment</h3>");
    line(&mut s, env_pre.as_str());
    line(&mut s, "<h3>Labels</h3>");
    s.append(labels_pre.as_str());
    s
}

fn actions_text(name: &str, csrf: &str) -> (s: String)
    ensures
        s@ == actions_spec(name@, csrf@),
{
    let ne = esc(name);
    let ce = esc(csrf);
    let mut logs = "<a href=\"/containers/".to_owned();
    logs.append(ne.as_str());
    logs.append("/logs\">View logs →</a>");
    let mut restart = "<form method=\"post\" action=\"/containers/".to_owned();
    restart.append(ne.as_str());
    restart.append("/restart\" class=\"inline\"><input type=\"hidden\" name=\"csrf\" value=\"");
    restart.append(ce.as_str());
    restart.append("\"><button class=\"warn\">Restart</button></form>");
    let mut update = "<form method=\"post\" action=\"/update\" class=\"inline\"><input type=\"hidden\" name=\"csrf\" value=\"".to_owned();
    update.append(ce.as_str());
    update.append("\"><input type=\"hidden\" name=\"selected\" value=\"");
    update.append(ne.as_str());
    update.append("\"><button>Update image</button></form>");
    let mut s = "<div class=\"actions\">".to_owned();
    s.append("\n");
    line(&mut s, logs.as_str());
    line(&mut s, restart.as_str());
    line(&mut s, update.as_str());
    s.append("</div>");
    s
}

/// The page of one container: state, image and digest, network, times,
/// exit code, ports, mounts, usage, environment and labels as `podman
/// inspect` reports them, a banner for `msg` or `error`, and the restart
/// and update actions.
pub fn container_page(
    config: &Config,
    username: &str,
    csrf: &str,
    name: &str,
    inspect: &Json,
    stats: Option<&StatsInfo>,
    msg: Option<&str>,
    error: Option<&str>,
) -> (s: String)
    ensures
        s@ == page_spec(
            config.oidc is Some,
            esc_spec(name@),
            username@,
            true,
            container_body_spec(
                name@,
                csrf@,
                *inspect,
                match stats {
                    Some(x) => Some(*x),
                    None => None,
                },
                match msg {
                    Some(m) => Some(m@),
                    None => None,
                },
                match error {
                    Some(e) => Some(e@),
                    None => None,
                },
            ),
        ),
{
    let state = str_or(get(get(Some(inspect), "State"), "Status"), "?");
    let running = same_text(state.as_str(), "running");
    let (state_class, dot) = if running {
        ("state-running", "●")
    } else {
        ("state-stopped", "○")
    };
    let name_e = esc(name);
    let mut heading = "<h2>".to_owned();
    heading.append(name_e.as_str());
    heading.append(" <span class=\"");
    heading.append(state_class);
    heading.append("\">");
    heading.append(dot);
    heading.append(" ");
    heading.append(state.as_str());
    heading.append("</span></h2>");
    let banner = match error {
        Some(e) => {
            let mut b = "<div class=\"banner err\">".to_owned();
            let x = esc(e);
            b.append(x.as_str());
            b.append("</div>");
            b
        },
        None => match msg {
            Some(m) => {
                let mut b = "<div class=\"banner ok\">".to_owned();
                let x = esc(m);
                b.append(x.as_str());
                b.append("</div>");
                b
            },
            None => String::new(),
        },
    };
    let details = details_text(inspect);
    let sections = sections_text(inspect, stats);
    let actions = actions_text(name, csrf);
    let mut body = heading;
    body.append("\n");
    line(&mut body, banner.as_str());
    line(&mut body, details.as_str());
    line(&mut body, sections.as_str());
    body.append(actions.as_str());
    page(config, name_e.as_str(), username, true, body)
}

// ---------------------------------------------------------------------------
// What the pages show
// ---------------------------------------------------------------------------

proof fn lemma_suffix_of_sum(pre: Seq<char>, tail: Seq<char>)
    ensures
        tail.is_suffix_of(pre + tail),
{
    assert(tail =~= (pre + tail).subrange(((pre + tail).len() - tail.len()) as int, (pre + tail).len() as int));
}

/// Escaping distributes over concatenation.
proof fn lemma_esc_concat(a: Seq<char>, b: Seq<char>)
    ensures
        esc_spec(a + b) == esc_spec(a) + esc_spec(b),
    decreases b.len(),
{
    if b.len() == 0 {
        assert(a + b =~= a);
        assert(esc_spec(a) + esc_spec(b) =~= esc_spec(a));
    } else {
        lemma_esc_concat(a, b.drop_last());
        assert((a + b).drop_last() =~= a + b.drop_last());
        assert((a + b).last() == b.last());
        assert(esc_spec(a) + esc_spec(b) =~= esc_spec(a) + esc_spec(b.drop_last()) + esc_char(b.last()));
    }
}

/// Text without `&`, `<`, `>`, `"` and `'` escapes to itself.
proof fn lemma_esc_plain(s: Seq<char>)
    requires
        forall|i: int|
            0 <= i < s.len() ==> {
                let c = #[trigger] s[i];
                c != '&' && c != '<' && c != '>' && c != '"' && c != '\''
            },
    ensures
        esc_spec(s) == s,
    decreases s.len(),
{
    if s.len() > 0 {
        assert forall|i: int| 0 <= i < s.drop_last().len() implies {
            let c = #[trigger] s.drop_last()[i];
            c != '&' && c != '<' && c != '>' && c != '"' && c != '\''
        } by {
            assert(s.drop_last()[i] == s[i]);
        }
        lemma_esc_plain(s.drop_last());
        assert(s[s.len() - 1] == s.last());
        assert(esc_spec(s) =~= s.drop_last() + seq![s.last()]);
        assert(s.drop_last() + seq![s.last()] =~= s);
    }
}

/// The status cell of an update's row on the results page: a failed update
/// shows `error: ` and its (escaped) error, marked as stopped; an update
/// that changed the image shows that the container was restarted, marked
/// as running; any other shows `unchanged`, dimmed. The row ends with that
/// cell.
pub proof fn lemma_result_row_status(r: UpdateResult)
    ensures
        r.error matches Some(e) ==> ("</td><td class=\""@ + "state-stopped"@ + "\">"@ + "error: "@ + esc_spec(e@)
            + "</td></tr>"@).is_suffix_of(result_row(r)),
        r.error is None && r.changed ==> ("</td><td class=\""@ + "state-running"@ + "\">"@
            + "updated — restarted"@ + "</td></tr>"@).is_suffix_of(result_row(r)),
        r.error is None && !r.changed ==> ("</td><td class=\""@ + "dim"@ + "\">"@ + "unchanged"@
            + "</td></tr>"@).is_suffix_of(result_row(r)),
{
    let n = esc_spec(r.name@);
    let pre = "<tr><td><a href=\"/containers/"@ + n + "\">"@ + n + "</a></td><td class=\"mono\">"@
        + esc_spec(r.image@) + "</td><td class=\"mono\">"@ + digest_cell(r.old)
        + "</td><td class=\"mono\">"@ + digest_cell(r.new);
    let tail = "</td><td class=\""@ + result_class(r) + "\">"@ + esc_spec(result_status(r)) + "</td></tr>"@;
    assert(result_row(r) =~= pre + tail);
    lemma_suffix_of_sum(pre, tail);
    match r.error {
        Some(e) => {
            reveal_strlit("error: ");
            lemma_esc_plain("error: "@);
            lemma_esc_concat("error: "@, e@);
            assert(tail =~= "</td><td class=\""@ + "state-stopped"@ + "\">"@ + "error: "@ + esc_spec(e@) + "</td></tr>"@);
        },
        None => {
            if r.changed {
                reveal_strlit("updated — restarted");
                lemma_esc_plain("updated — restarted"@);
            } else {
                reveal_strlit("unchanged");
                lemma_esc_plain("unchanged"@);
            }
        },
    }
}

/// The digest cells of an update's row: the old digest, then the new one,
/// each escaped, or a dash when it was not read.
pub proof fn lemma_result_row_digests(r: UpdateResult)
    ensures
        ("</td><td class=\"mono\">"@ + (match r.old {
            Some(d) => esc_spec(d@),
            None => "—"@,
        }) + "</td><td class=\"mono\">"@ + (match r.new {
            Some(d) => esc_spec(d@),
            None => "—"@,
        }) + "</td><td class=\""@).is_prefix_of(
            result_row(r).skip(("<tr><td><a href=\"/containers/"@ + esc_spec(r.name@) + "\">"@ + esc_spec(r.name@)
                + "</a></td><td class=\"mono\">"@ + esc_spec(r.image@)).len() as int),
        ),
{
    let n = esc_spec(r.name@);
    let head = "<tr><td><a href=\"/containers/"@ + n + "\">"@ + n + "</a></td><td class=\"mono\">"@ + esc_spec(r.image@);
    let mid = "</td><td class=\"mono\">"@ + digest_cell(r.old) + "</td><td class=\"mono\">"@ + digest_cell(r.new)
        + "</td><td class=\""@;
    let rest = result_class(r) + "\">"@ + esc_spec(result_status(r)) + "</td></tr>"@;
    assert(result_row(r) =~= head + mid + rest);
    assert(result_row(r).skip(head.len() as int) =~= mid + rest);
    assert(mid =~= (mid + rest).subrange(0, mid.len() as int));
}

/// The usage cells of a row of the container list: the CPU cell shows the
/// (escaped) CPU percentage and the Memory cell the (escaped) memory usage
/// of the container's stats, both a dash without stats; the row then ends
/// with the link to the container's logs.
pub proof fn lemma_list_row_usage(c: ContainerInfo, st: Option<StatsInfo>)
    ensures
        ("</td>\n<td>"@ + (match st {
            Some(s) => esc_spec(s.cpu_percent@),
            None => "—"@,
        }) + "</td>\n<td>"@ + (match st {
            Some(s) => esc_spec(s.mem_usage@),
            None => "—"@,
        }) + "</td>\n<td><a href=\"/containers/"@ + esc_spec(c.name@) + "/logs\">logs</a></td>\n</tr>\n"@).is_suffix_of(
            row_spec(c, st),
        ),
{
    let n = esc_spec(c.name@);
    let pre = "<tr>\n<td><input type=\"checkbox\" name=\"selected\" value=\""@ + n
        + "\"></td>\n<td><a href=\"/containers/"@ + n + "\">"@ + n + "</a></td>\n<td class=\""@
        + state_class_spec(c.state@) + "\">"@ + dot_spec(c.state@) + " "@ + esc_spec(c.state@)
        + " <span class=\"dim\">("@ + esc_spec(c.status@) + ")</span></td>\n<td class=\"mono\">"@
        + esc_spec(c.image@) + "</td>\n<td>"@ + ports_cell_spec(views(c.ports@));
    let tail = "</td>\n<td>"@ + stat_cell(st, true) + "</td>\n<td>"@ + stat_cell(st, false)
        + "</td>\n<td><a href=\"/containers/"@ + n + "/logs\">logs</a></td>\n</tr>\n"@;
    assert(row_spec(c, st) =~= pre + tail);
    lemma_suffix_of_sum(pre, tail);
}

/// A row of the container list begins with its checkbox, whose value (what
/// the update form sends) is the container's escaped name, and with a link
/// to the container's page under that name.
pub proof fn lemma_list_row_name(c: ContainerInfo, st: Option<StatsInfo>)
    ensures
        ("<tr>\n<td><input type=\"checkbox\" name=\"selected\" value=\""@ + esc_spec(c.name@)
            + "\"></td>\n<td><a href=\"/containers/"@ + esc_spec(c.name@) + "\">"@ + esc_spec(c.name@)
            + "</a></td>\n<td class=\""@).is_prefix_of(row_spec(c, st)),
{
    let n = esc_spec(c.name@);
    let head = "<tr>\n<td><input type=\"checkbox\" name=\"selected\" value=\""@ + n
        + "\"></td>\n<td><a href=\"/containers/"@ + n + "\">"@ + n + "</a></td>\n<td class=\""@;
    let rest = state_class_spec(c.state@) + "\">"@ + dot_spec(c.state@) + " "@ + esc_spec(c.state@)
        + " <span class=\"dim\">("@ + esc_spec(c.status@) + ")</span></td>\n<td class=\"mono\">"@
        + esc_spec(c.image@) + "</td>\n<td>"@ + ports_cell_spec(views(c.ports@)) + "</td>\n<td>"@
        + stat_cell(st, true) + "</td>\n<td>"@ + stat_cell(st, false)
        + "</td>\n<td><a href=\"/containers/"@ + n + "/logs\">logs</a></td>\n</tr>\n"@;
    assert(row_spec(c, st) =~= head + rest);
    assert(head =~= (head + rest).subrange(0, head.len() as int));
}

/// The Access cell of a row of the mounts table: `rw` exactly when the
/// mount's `RW` member is the boolean true, `ro` otherwise; the row ends
/// with it.
pub proof fn lemma_mount_row_access(m: Json)
    ensures
        ("</td><td>"@ + (if jget(Some(m), "RW"@) == Some(Json::Bool(true)) {
            "rw"@
        } else {
            "ro"@
        }) + "</td></tr>"@).is_suffix_of(mount_row(m)),
{
    let pre = "<tr><td class=\"mono\">"@ + esc_spec(text_of(Some(m), "Source"@)) + "</td><td class=\"mono\">"@
        + esc_spec(text_of(Some(m), "Destination"@)) + "</td><td>"@ + esc_spec(text_of(Some(m), "Type"@))
        + "</td><td class=\"mono\">"@ + esc_spec(text_of(Some(m), "Mode"@));
    let tail = "</td><td>"@ + (if jbool(jget(Some(m), "RW"@)) == Some(true) {
        "rw"@
    } else {
        "ro"@
    }) + "</td></tr>"@;
    assert(mount_row(m) =~= pre + tail);
    lemma_suffix_of_sum(pre, tail);
    assert((jbool(jget(Some(m), "RW"@)) == Some(true)) == (jget(Some(m), "RW"@) == Some(Json::Bool(true))));
}

/// The cells of a row of the container list after the name: the state,
/// marked running (green dot) exactly when podman says `running` and
/// stopped (hollow dot) otherwise, with the status in brackets, then the
/// image; each text escaped.
pub proof fn lemma_list_row_state(c: ContainerInfo, st: Option<StatsInfo>)
    ensures
        ({
            let n = esc_spec(c.name@);
            let head = "<tr>\n<td><input type=\"checkbox\" name=\"selected\" value=\""@ + n
                + "\"></td>\n<td><a href=\"/containers/"@ + n + "\">"@ + n;
            let running = c.state@ == "running"@;
            ("</a></td>\n<td class=\""@ + (if running { "state-running"@ } else { "state-stopped"@ }) + "\">"@
                + (if running { "●"@ } else { "○"@ }) + " "@ + esc_spec(c.state@) + " <span class=\"dim\">("@
                + esc_spec(c.status@) + ")</span></td>\n<td class=\"mono\">"@ + esc_spec(c.image@)
                + "</td>\n<td>"@).is_prefix_of(row_spec(c, st).skip(head.len() as int))
        }),
{
    let n = esc_spec(c.name@);
    let head = "<tr>\n<td><input type=\"checkbox\" name=\"selected\" value=\""@ + n
        + "\"></td>\n<td><a href=\"/containers/"@ + n + "\">"@ + n;
    let mid = "</a></td>\n<td class=\""@ + state_class_spec(c.state@) + "\">"@ + dot_spec(c.state@) + " "@
        + esc_spec(c.state@) + " <span class=\"dim\">("@ + esc_spec(c.status@) + ")</span></td>\n<td class=\"mono\">"@
        + esc_spec(c.image@) + "</td>\n<td>"@;
    let rest = ports_cell_spec(views(c.ports@)) + "</td>\n<td>"@ + stat_cell(st, true) + "</td>\n<td>"@
        + stat_cell(st, false) + "</td>\n<td><a href=\"/containers/"@ + n + "/logs\">logs</a></td>\n</tr>\n"@;
    assert(row_spec(c, st) =~= head + mid + rest);
    assert(row_spec(c, st).skip(head.len() as int) =~= mid + rest);
    assert(mid =~= (mid + rest).subrange(0, mid.len() as int));
}

/// Each container of the list gets the numbers of its own stats entry
/// (the last one under its name), and the rows come in the containers'
/// order: the rows of the first `i + 1` containers are those of the first
/// `i` and then the row of container `i` with its stats, and they begin
/// the whole list.
pub proof fn lemma_list_rows_in_order(cs: Seq<ContainerInfo>, stats: Seq<(String, StatsInfo)>, i: int)
    requires
        0 <= i < cs.len(),
    ensures
        rows_spec(cs.take(i + 1), stats) == rows_spec(cs.take(i), stats) + row_spec(
            cs[i],
            stats_for(stats, cs[i].name@),
        ),
        rows_spec(cs.take(i + 1), stats).is_prefix_of(rows_spec(cs, stats)),
    decreases cs.len(),
{
    assert(cs.take(i + 1).drop_last() =~= cs.take(i));
    assert(cs.take(i + 1).last() == cs[i]);
    if i == cs.len() - 1 {
        assert(cs.take(i + 1) =~= cs);
    } else {
        lemma_list_rows_in_order(cs.drop_last(), stats, i);
        assert(cs.drop_last().take(i + 1) =~= cs.take(i + 1));
        let p = rows_spec(cs.drop_last(), stats);
        let q = rows_spec(cs.take(i + 1), stats);
        let last = row_spec(cs.last(), stats_for(stats, cs.last().name@));
        assert(rows_spec(cs, stats) =~= p + last);
        assert(q =~= (p + last).subrange(0, q.len() as int)) by {
            assert forall|k: int| 0 <= k < q.len() implies q[k] == (p + last)[k] by {
                assert(q[k] == p[k]);
            }
        }
    }
}

/// The results page lists every result in order: the rows of the first
/// `i + 1` results are those of the first `i` followed by the row of
/// result `i`, and they begin the whole table.
pub proof fn lemma_result_rows_in_order(rs: Seq<UpdateResult>, i: int)
    requires
        0 <= i < rs.len(),
    ensures
        result_rows(rs.take(i + 1)) == result_rows(rs.take(i)) + result_row(rs[i]),
        result_rows(rs.take(i + 1)).is_prefix_of(result_rows(rs)),
    decreases rs.len(),
{
    assert(rs.take(i + 1).drop_last() =~= rs.take(i));
    assert(rs.take(i + 1).last() == rs[i]);
    if i == rs.len() - 1 {
        assert(rs.take(i + 1) =~= rs);
    } else {
        lemma_result_rows_in_order(rs.drop_last(), i);
        assert(rs.drop_last().take(i + 1) =~= rs.take(i + 1));
        let p = result_rows(rs.drop_last());
        let q = result_rows(rs.take(i + 1));
        assert(result_rows(rs) =~= p + result_row(rs.last()));
        assert(q =~= (p + result_row(rs.last())).subrange(0, q.len() as int)) by {
            assert forall|k: int| 0 <= k < q.len() implies q[k] == (p + result_row(rs.last()))[k] by {
                assert(q[k] == p[k]);
            }
        }
    }
}

/// A row of the mounts table shows, in order, the mount's `Source`,
/// `Destination`, `Type` and `Mode` members, each escaped (empty when the
/// member is not a string), before the Access cell.
pub proof fn lemma_mount_row_paths(m: Json)
    ensures
        ("<tr><td class=\"mono\">"@ + esc_spec(member_text(m, "Source"@)) + "</td><td class=\"mono\">"@
            + esc_spec(member_text(m, "Destination"@)) + "</td><td>"@ + esc_spec(member_text(m, "Type"@))
            + "</td><td class=\"mono\">"@ + esc_spec(member_text(m, "Mode"@)) + "</td><td>"@).is_prefix_of(
            mount_row(m),
        ),
{
    let pre = "<tr><td class=\"mono\">"@ + esc_spec(member_text(m, "Source"@)) + "</td><td class=\"mono\">"@
        + esc_spec(member_text(m, "Destination"@)) + "</td><td>"@ + esc_spec(member_text(m, "Type"@))
        + "</td><td class=\"mono\">"@ + esc_spec(member_text(m, "Mode"@)) + "</td><td>"@;
    let tail = (if jbool(jget(Some(m), "RW"@)) == Some(true) {
        "rw"@
    } else {
        "ro"@
    }) + "</td></tr>"@;
    assert(mount_row(m) =~= pre + tail);
    assert(pre =~= (pre + tail).subrange(0, pre.len() as int));
}

/// The lines for a container port of `podman inspect`: with no host
/// bindings, the port marked as only exposed; otherwise one line per
/// binding, in order, giving the binding's `HostIp` and `HostPort`
/// members, an arrow and the container port.
pub proof fn lemma_port_lines_of_key(k: Seq<char>, v: Option<Json>)
    ensures
        items(v).len() == 0 ==> key_port_texts(k, v) == seq![k + " (exposed)"@],
        items(v).len() > 0 ==> key_port_texts(k, v).len() == items(v).len(),
        items(v).len() > 0 ==> forall|j: int|
            0 <= j < items(v).len() ==> #[trigger] key_port_texts(k, v)[j] == member_text(items(v)[j], "HostIp"@) + ":"@
                + member_text(items(v)[j], "HostPort"@) + " → "@ + k,
{
}

/// The definition list of the container page shows the image name and
/// digest first, and further on the creation and start times, the exit
/// code (a dash when podman gave none that fits) and whether the container
/// was killed for want of memory (`yes` exactly when `OOMKilled` is the
/// boolean true); texts escaped.
#[verifier::rlimit(100)]
pub proof fn lemma_details_fields(i: Json)
    ensures
        ({
            let st = jget(Some(i), "State"@);
            let started = match st {
                Some(x) => member_text(x, "StartedAt"@),
                None => seq![],
            };
            let code = match ji64(jget(st, "ExitCode"@)) {
                Some(x) => signed_decimal(x as int),
                None => "—"@,
            };
            let oom = if jget(st, "OOMKilled"@) == Some(Json::Bool(true)) {
                "yes"@
            } else {
                "no"@
            };
            &&& ("<dl class=\"detail\">"@ + nl() + "<dt>Image</dt><dd class=\"mono\">"@ + esc_spec(member_text(i, "ImageName"@))
                + "</dd>"@ + nl() + "<dt>Image digest</dt><dd class=\"mono\">"@ + esc_spec(member_text(i, "ImageDigest"@))
                + "</dd>"@ + nl()).is_prefix_of(details_spec(i))
            &&& occurs_in(
                "<dt>Created</dt><dd>"@ + esc_spec(member_text(i, "Created"@)) + "</dd>"@ + nl() + "<dt>Started</dt><dd>"@
                    + esc_spec(started) + "</dd>"@ + nl() + "<dt>Exit code</dt><dd>"@ + code
                    + "</dd>"@ + nl() + "<dt>OOM killed</dt><dd>"@ + oom + "</dd>"@ + nl(),
                details_spec(i),
            )
        }),
{
    let st = jget(Some(i), "State"@);
    let net = jget(Some(i), "NetworkSettings"@);
    let head = "<dl class=\"detail\">"@ + nl() + "<dt>Image</dt><dd class=\"mono\">"@ + esc_spec(member_text(i, "ImageName"@))
        + "</dd>"@ + nl() + "<dt>Image digest</dt><dd class=\"mono\">"@ + esc_spec(member_text(i, "ImageDigest"@))
        + "</dd>"@ + nl();
    let net_part = "<dt>Network</dt><dd class=\"mono\">"@ + esc_spec(text_of(net, "IPAddress"@))
        + " <span class=\"dim\">(gw "@ + esc_spec(text_of(net, "Gateway"@)) + ")</span></dd>"@ + nl();
    let times = "<dt>Created</dt><dd>"@ + esc_spec(text_of(Some(i), "Created"@)) + "</dd>"@ + nl()
        + "<dt>Started</dt><dd>"@ + esc_spec(text_of(st, "StartedAt"@)) + "</dd>"@ + nl()
        + "<dt>Exit code</dt><dd>"@ + exit_code_spec(ji64(jget(st, "ExitCode"@))) + "</dd>"@ + nl()
        + "<dt>OOM killed</dt><dd>"@ + (if jbool(jget(st, "OOMKilled"@)) == Some(true) {
        "yes"@
    } else {
        "no"@
    }) + "</dd>"@ + nl();
    let rest = "<dt>Systemd unit</dt><dd class=\"mono\">"@ + esc_spec(
        text_of(jget(jget(Some(i), "Config"@), "Labels"@), "PODMAN_SYSTEMD_UNIT"@),
    ) + "</dd>"@ + nl() + "</dl>"@;
    assert(details_spec(i) =~= head + net_part + times + rest);
    assert(head =~= details_spec(i).subrange(0, head.len() as int));
    let at = (head + net_part).len() as int;
    assert(details_spec(i).skip(at) =~= times + rest);
    assert(times =~= (times + rest).subrange(0, times.len() as int));
    assert(times.is_prefix_of(details_spec(i).skip(at)));
}

/// The banner of the container page shows the error when there is one
/// (and then never the message), else the message, else nothing; either
/// text escaped.
pub proof fn lemma_banner_choice(msg: Option<Seq<char>>, error: Option<Seq<char>>)
    ensures
        error matches Some(e) ==> banner_spec(msg, error) == "<div class=\"banner err\">"@ + esc_spec(e) + "</div>"@,
        error is None ==> (msg matches Some(m) ==> banner_spec(msg, error) == "<div class=\"banner ok\">"@
            + esc_spec(m) + "</div>"@),
        error is None && msg is None ==> banner_spec(msg, error).len() == 0,
{
}

/// The usage table of the container page shows the (escaped) CPU
/// percentage and memory usage of the container's stats, or dashes.
pub proof fn lemma_usage_row_cells(st: Option<StatsInfo>)
    ensures
        st matches Some(s) ==> stats_row_spec(st) == "<tr><td>"@ + esc_spec(s.cpu_percent@) + "</td><td>"@
            + esc_spec(s.mem_usage@) + "</td></tr>"@,
        st is None ==> stats_row_spec(st) == "<tr><td class=\"dim\">—</td><td class=\"dim\">—</td></tr>"@,
{
}

} // verus!
