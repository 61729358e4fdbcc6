//! What the dashboard reads out of podman's JSON and command output.

use vstd::prelude::*;
use crate::container_ui::state::Config;
use crate::json::{
    JsonNumber,
    as_array, as_str, as_u64, first_of, get, items, jarray, jget, jstr, jstr_or, ju64, opt, str_or, text, text_of, Json,
};
use crate::codec::{json_quoted, json_string};
use crate::text::{
    byte_prefix, byte_prefix_len, chars_of, lemma_byte_prefix_ascii, decimal, join, join_spec, lines, lines_spec,
    push_decimal, string_of, u64_text, strip_leading, trim, trim_spec, trim_start_char, views,
};

verus! {

/// One row of `podman ps`.
#[derive(Clone, Debug)]
pub struct ContainerInfo {
    pub name: String,
    pub image: String,
    pub state: String,
    pub status: String,
    pub ports: Vec<String>,
    pub unit: String,
}

/// One row of `podman stats`, as podman formats the numbers.
#[derive(Clone, Debug)]
pub struct StatsInfo {
    pub cpu_percent: String,
    pub mem_usage: String,
    pub mem_percent: String,
}

impl Default for StatsInfo {
    fn default() -> (s: Self)
        ensures
            s.cpu_percent@.len() == 0,
            s.mem_usage@.len() == 0,
            s.mem_percent@.len() == 0,
    {
        StatsInfo { cpu_percent: String::new(), mem_usage: String::new(), mem_percent: String::new() }
    }
}

/// Outcome of updating one container.
#[derive(Clone, Debug)]
pub struct UpdateResult {
    pub name: String,
    pub image: String,
    pub old: Option<String>,
    pub new: Option<String>,
    pub changed: bool,
    pub error: Option<String>,
}

/// How podman and systemctl are invoked.
#[derive(Clone, Debug)]
pub struct Podman {
    pub bin: String,
    pub systemctl: String,
    /// Seconds a pull, restart or log read may take.
    pub timeout_secs: u64,
}

impl Podman {
    /// The binaries from the configuration and a ten-minute timeout.
    pub fn new(config: &Config) -> (p: Podman)
        ensures
            p.bin@ == config.podman_bin@,
            p.systemctl@ == config.systemctl_bin@,
            p.timeout_secs == 600,
    {
        Podman {
            bin: config.podman_bin.clone(),
            systemctl: config.systemctl_bin.clone(),
            timeout_secs: 600,
        }
    }
}

/// A port mapping as `host->container/proto`, or `container/proto` when it
/// is not published.
pub open spec fn port_text(p: Json) -> Seq<char> {
    let c = match ju64(jget(Some(p), "container_port"@)) {
        Some(x) => x,
        None => 0,
    };
    let h = match ju64(jget(Some(p), "host_port"@)) {
        Some(x) => x,
        None => 0,
    };
    let proto = jstr_or(jget(Some(p), "protocol"@), "tcp"@);
    if h > 0 {
        decimal(h as nat) + "->"@ + decimal(c as nat) + "/"@ + proto
    } else {
        decimal(c as nat) + "/"@ + proto
    }
}

/// The text of a port is `host->container/protocol` when the port is
/// published on a host port (a positive number), else `container/protocol`;
/// the numbers are the members read as non-negative integers (0 when not
/// one), and the protocol is the `protocol` member when it is a string,
/// `tcp` otherwise.
pub proof fn lemma_port_text_members(p: Json)
    ensures
        ({
            let num = |k: Seq<char>|
                match jget(Some(p), k) {
                    Some(Json::Number(JsonNumber::PosInt(x))) => x as nat,
                    _ => 0nat,
                };
            let proto = match jget(Some(p), "protocol"@) {
                Some(Json::Str(s)) => s@,
                _ => "tcp"@,
            };
            let c = num("container_port"@);
            let h = num("host_port"@);
            port_text(p) == if h > 0 {
                decimal(h) + "->"@ + decimal(c) + "/"@ + proto
            } else {
                decimal(c) + "/"@ + proto
            }
        }),
{
}

/// The text of a JSON member that is a string, or the empty text.
pub open spec fn member_text(item: Json, k: Seq<char>) -> Seq<char> {
    match jget(Some(item), k) {
        Some(Json::Str(s)) => s@,
        _ => seq![],
    }
}

/// A row of `podman ps` takes its image, state and status from the item's
/// `Image`, `State` and `Status` members and its unit from the
/// `PODMAN_SYSTEMD_UNIT` label, each the member's text or empty.
pub proof fn lemma_info_members(c: ContainerInfo, item: Json)
    requires
        info_of(c, item),
    ensures
        c.image@ == member_text(item, "Image"@),
        c.state@ == member_text(item, "State"@),
        c.status@ == member_text(item, "Status"@),
        c.unit@ == (match jget(Some(item), "Labels"@) {
            Some(l) => member_text(l, "PODMAN_SYSTEMD_UNIT"@),
            None => seq![],
        }),
{
}

/// A row of `podman stats` takes the CPU percentage, memory usage and
/// memory percentage from the members `cpu_percent`, `mem_usage` and
/// `mem_percent` respectively.
pub proof fn lemma_stats_members(st: StatsInfo, item: Json)
    requires
        stats_of(st, item),
    ensures
        st.cpu_percent@ == member_text(item, "cpu_percent"@),
        st.mem_usage@ == member_text(item, "mem_usage"@),
        st.mem_percent@ == member_text(item, "mem_percent"@),
{
}

/// The port texts of a `Ports` member.
pub open spec fn ports_of(v: Option<Json>) -> Seq<Seq<char>> {
    match jarray(v) {
        Some(ps) => ps.map_values(|p: Json| port_text(p)),
        None => seq![],
    }
}

/// `c` is what `podman ps` reported in `item`.
pub open spec fn info_of(c: ContainerInfo, item: Json) -> bool {
    &&& c.name@ == strip_leading(jstr_or(first_of(jget(Some(item), "Names"@)), seq![]), '/')
    &&& c.image@ == text_of(Some(item), "Image"@)
    &&& c.state@ == text_of(Some(item), "State"@)
    &&& c.status@ == text_of(Some(item), "Status"@)
    &&& views(c.ports@) == ports_of(jget(Some(item), "Ports"@))
    &&& c.unit@ == text_of(jget(Some(item), "Labels"@), "PODMAN_SYSTEMD_UNIT"@)
}

/// `s` is what `podman stats` reported in `item`.
pub open spec fn stats_of(s: StatsInfo, item: Json) -> bool {
    &&& s.cpu_percent@ == text_of(Some(item), "cpu_percent"@)
    &&& s.mem_usage@ == text_of(Some(item), "mem_usage"@)
    &&& s.mem_percent@ == text_of(Some(item), "mem_percent"@)
}

fn first<'a>(v: Option<&'a Json>) -> (r: Option<&'a Json>)
    ensures
        opt(r) == first_of(opt(v)),
{
    match as_array(v) {
        Some(a) => if a.len() > 0 {
            Some(&a[0])
        } else {
            None
        },
        None => None,
    }
}

/// A port mapping of `podman ps` as text.
pub fn format_port(p: &Json) -> (s: String)
    ensures
        s@ == port_text(*p),
{
    let c = match as_u64(get(Some(p), "container_port")) {
        Some(x) => x,
        None => 0,
    };
    let h = match as_u64(get(Some(p), "host_port")) {
        Some(x) => x,
        None => 0,
    };
    let proto = str_or(get(Some(p), "protocol"), "tcp");
    let mut s = String::new();
    if h > 0 {
        push_decimal(&mut s, h);
        s.append("->");
    }
    push_decimal(&mut s, c);
    s.append("/");
    s.append(proto.as_str());
    s
}

/// The containers listed in the output of `podman ps -a --format=json`.
pub fn containers_from_ps(v: &Json) -> (r: Vec<ContainerInfo>)
    ensures
        r@.len() == items(Some(*v)).len(),
        forall|i: int| 0 <= i < r@.len() ==> info_of(#[trigger] r@[i], items(Some(*v))[i]),
{
    let mut out: Vec<ContainerInfo> = Vec::new();
    match as_array(Some(v)) {
        Some(a) => {
            let mut i: usize = 0;
            while i < a.len()
                invariant
                    i <= a@.len(),
                    a@ == items(Some(*v)),
                    out@.len() == i,
                    forall|j: int| 0 <= j < i ==> info_of(#[trigger] out@[j], a@[j]),
                decreases a.len() - i,
            {
                let item = &a[i];
                proof {
                    reveal_strlit("");
                }
                let raw_name = str_or(first(get(Some(item), "Names")), "");
                let name = trim_start_char(raw_name.as_str(), '/');
                let mut ports: Vec<String> = Vec::new();
                match as_array(get(Some(item), "Ports")) {
                    Some(ps) => {
                        let mut k: usize = 0;
                        while k < ps.len()
                            invariant
                                k <= ps@.len(),
                                views(ports@) == ps@.take(k as int).map_values(|p: Json| port_text(p)),
                            decreases ps.len() - k,
                        {
                            let t = format_port(&ps[k]);
                            let ghost pv = views(ports@);
                            ports.push(t);
                            assert(views(ports@) =~= pv.push(t@));
                            assert(ps@.take(k + 1).map_values(|p: Json| port_text(p)) =~= ps@.take(
                                k as int,
                            ).map_values(|p: Json| port_text(p)).push(port_text(ps@[k as int])));
                            k = k + 1;
                        }
                        assert(ps@.take(ps@.len() as int) =~= ps@);
                    },
                    None => {
                        assert(views(ports@) =~= seq![]);
                    },
                }
                let info = ContainerInfo {
                    name,
                    image: text(Some(item), "Image"),
                    state: text(Some(item), "State"),
                    status: text(Some(item), "Status"),
                    ports,
                    unit: text(get(Some(item), "Labels"), "PODMAN_SYSTEMD_UNIT"),
                };
                assert(info.name@ == strip_leading(jstr_or(first_of(jget(Some(a@[i as int]), "Names"@)), seq![]), '/'));
                assert(views(info.ports@) == ports_of(jget(Some(a@[i as int]), "Ports"@)));
                assert(info_of(info, a@[i as int]));
                out.push(info);
                i = i + 1;
            }
        },
        None => {},
    }
    out
}

/// The numbers of one `podman stats` row.
pub fn parse_stats(item: &Json) -> (s: StatsInfo)
    ensures
        stats_of(s, *item),
{
    StatsInfo {
        cpu_percent: text(Some(item), "cpu_percent"),
        mem_usage: text(Some(item), "mem_usage"),
        mem_percent: text(Some(item), "mem_percent"),
    }
}

/// The rows of `podman stats --all --no-stream --format=json`, as
/// (container name, numbers) in podman's order.
pub fn stats_table(v: &Json) -> (r: Vec<(String, StatsInfo)>)
    ensures
        r@.len() == items(Some(*v)).len(),
        forall|i: int|
            0 <= i < r@.len() ==> (#[trigger] r@[i]).0@ == text_of(Some(items(Some(*v))[i]), "name"@)
                && stats_of(r@[i].1, items(Some(*v))[i]),
{
    let mut out: Vec<(String, StatsInfo)> = Vec::new();
    match as_array(Some(v)) {
        Some(a) => {
            let mut i: usize = 0;
            while i < a.len()
                invariant
                    i <= a@.len(),
                    a@ == items(Some(*v)),
                    out@.len() == i,
                    forall|j: int|
                        0 <= j < i ==> (#[trigger] out@[j]).0@ == text_of(Some(a@[j]), "name"@)
                            && stats_of(out@[j].1, a@[j]),
                decreases a.len() - i,
            {
                let item = &a[i];
                out.push((text(Some(item), "name"), parse_stats(item)));
                i = i + 1;
            }
        },
        None => {},
    }
    out
}

/// Index of the last row for container `name` (a later row replaces an
/// earlier one, as inserting them into a map does).
pub open spec fn stats_index(t: Seq<(String, StatsInfo)>, name: Seq<char>) -> Option<int>
    decreases t.len(),
{
    if t.len() == 0 {
        None
    } else if t.last().0@ == name {
        Some(t.len() - 1)
    } else {
        stats_index(t.drop_last(), name)
    }
}

/// A container's numbers are those of the last stats entry under its
/// name, and there are none when no entry has its name.
pub proof fn lemma_stats_for_last(t: Seq<(String, StatsInfo)>, name: Seq<char>)
    ensures
        (forall|j: int| 0 <= j < t.len() ==> (#[trigger] t[j]).0@ != name) ==> stats_index(t, name) is None,
        stats_index(t, name) matches Some(i) ==> 0 <= i < t.len() && t[i].0@ == name && forall|j: int|
            i < j < t.len() ==> (#[trigger] t[j]).0@ != name,
    decreases t.len(),
{
    if t.len() > 0 {
        lemma_stats_for_last(t.drop_last(), name);
        if t.last().0@ != name {
            if forall|j: int| 0 <= j < t.len() ==> (#[trigger] t[j]).0@ != name {
                assert forall|j: int| 0 <= j < t.drop_last().len() implies (#[trigger] t.drop_last()[j]).0@ != name by {
                    assert(t.drop_last()[j] == t[j]);
                }
            }
            if stats_index(t, name) is Some {
                let i = stats_index(t, name)->0;
                assert(t.drop_last()[i] == t[i]);
                assert forall|j: int| i < j < t.len() implies (#[trigger] t[j]).0@ != name by {
                    if j < t.len() - 1 {
                        assert(t.drop_last()[j] == t[j]);
                    }
                }
            }
        }
    }
}

/// The numbers for container `name`.
pub open spec fn stats_for(t: Seq<(String, StatsInfo)>, name: Seq<char>) -> Option<StatsInfo> {
    match stats_index(t, name) {
        Some(i) => Some(t[i].1),
        None => None,
    }
}

proof fn lemma_stats_index_range(t: Seq<(String, StatsInfo)>, name: Seq<char>)
    ensures
        stats_index(t, name) matches Some(i) ==> 0 <= i < t.len(),
    decreases t.len(),
{
    if t.len() > 0 {
        lemma_stats_index_range(t.drop_last(), name);
    }
}

/// The numbers for container `name` in a stats table.
pub fn lookup_stats<'a>(t: &'a Vec<(String, StatsInfo)>, name: &str) -> (r: Option<&'a StatsInfo>)
    ensures
        match r {
            Some(s) => stats_for(t@, name@) == Some(*s),
            None => stats_for(t@, name@) is None,
        },
{
    let mut i = t.len();
    assert(t@.take(i as int) =~= t@);
    while i > 0
        invariant
            i <= t@.len(),
            stats_index(t@, name@) == stats_index(t@.take(i as int), name@),
        decreases i,
    {
        assert(t@.take(i as int).drop_last() =~= t@.take(i - 1));
        assert(t@.take(i as int).last() == t@[i - 1]);
        if crate::text::same_text(t[i - 1].0.as_str(), name) {
            proof {
                lemma_stats_index_range(t@, name@);
            }
            return Some(&t[i - 1].1);
        }
        i = i - 1;
    }
    None
}

/// The numbers of the first row of `podman stats ... <name>`.
pub fn first_stats(v: &Json) -> (r: Option<StatsInfo>)
    ensures
        match first_of(Some(*v)) {
            Some(item) => r matches Some(s) && stats_of(s, item),
            None => r is None,
        },
{
    match first(Some(v)) {
        Some(item) => Some(parse_stats(item)),
        None => None,
    }
}

/// The document of `podman inspect <name> --format=json`: its first element.
pub fn inspect_result(v: &Json) -> (r: Result<&Json, String>)
    ensures
        match first_of(Some(*v)) {
            Some(item) => r matches Ok(x) && *x == item,
            None => r matches Err(e) && e@ == "empty inspect result"@,
        },
{
    match first(Some(v)) {
        Some(item) => Ok(item),
        None => Err("empty inspect result".to_owned()),
    }
}

/// A digest as shown: without `sha256:`, cut to its first twelve bytes;
/// the digest as given when it is shorter than that.
pub open spec fn short_digest_spec(d: Seq<char>) -> Seq<char> {
    let body = if "sha256:"@.is_prefix_of(d) {
        d.skip(7)
    } else {
        d
    };
    match byte_prefix(body, 12) {
        Some(p) => p,
        None => d,
    }
}

/// A digest is shown by its first twelve characters: for an ASCII digest
/// body `h` of at least twelve characters, with or without the `sha256:`
/// prefix, what is shown is the first twelve characters of `h`; a shorter
/// digest is shown whole, as given.
pub proof fn lemma_short_digest_ascii(h: Seq<char>)
    requires
        forall|i: int| 0 <= i < h.len() ==> (#[trigger] h[i] as int) < 0x80,
        !"sha256:"@.is_prefix_of(h),
    ensures
        h.len() >= 12 ==> short_digest_spec("sha256:"@ + h) == h.take(12),
        h.len() >= 12 ==> short_digest_spec(h) == h.take(12),
        h.len() < 12 ==> short_digest_spec("sha256:"@ + h) == "sha256:"@ + h,
        h.len() < 12 ==> short_digest_spec(h) == h,
{
    reveal_strlit("sha256:");
    let d = "sha256:"@ + h;
    assert("sha256:"@.is_prefix_of(d)) by {
        assert(d.take(7) =~= "sha256:"@);
    }
    assert(d.skip(7) =~= h);
    lemma_byte_prefix_ascii(h, 12);
}

/// Shortens an image digest for display.
pub fn short_digest(digest: &str) -> (s: String)
    ensures
        s@ == short_digest_spec(digest@),
{
    let v = chars_of(digest);
    let full = v.len();
    assert(v@.subrange(0, full as int) =~= v@);
    let start: usize = if crate::text::has_prefix_at(&v, 0, "sha256:") {
        proof {
            reveal_strlit("sha256:");
        }
        7
    } else {
        0
    };
    let body = string_of(&v, start, full);
    let bv = chars_of(body.as_str());
    assert(bv@ =~= if "sha256:"@.is_prefix_of(digest@) { digest@.skip(7) } else { digest@ });
    match byte_prefix_len(&bv, 12) {
        Some(k) => string_of(&bv, 0, k),
        None => digest.to_owned(),
    }
}

/// The shortened `Digest` of the image in `podman inspect <image>` output.
pub fn digest_from_inspect(v: &Json) -> (r: Result<String, String>)
    ensures
        match jstr(jget(first_of(Some(*v)), "Digest"@)) {
            Some(d) => r matches Ok(s) && s@ == short_digest_spec(d),
            None => r matches Err(e) && e@ == "image has no digest"@,
        },
{
    match as_str(get(first(Some(v)), "Digest")) {
        Some(d) => Ok(short_digest(d)),
        None => Err("image has no digest".to_owned()),
    }
}

/// What `podman logs --tail` printed: its lines, unless it printed nothing
/// but blanks and failed, in which case its trimmed error output.
pub fn logs_from_output(stdout: &str, stderr: &str, success: bool) -> (r: Result<Vec<String>, String>)
    ensures
        trim_spec(stdout@).len() == 0 && !success ==> (r matches Err(e) && e@ == trim_spec(stderr@)),
        !(trim_spec(stdout@).len() == 0 && !success) ==> (r matches Ok(ls) && views(ls@) == lines_spec(stdout@)),
{
    let t = trim(stdout);
    if t.as_str().is_empty() && !success {
        Err(trim(stderr))
    } else {
        Ok(lines(stdout))
    }
}

/// The result of `podman pull` or `systemctl restart`: its trimmed error
/// output when it failed.
pub fn command_outcome(success: bool, stderr: &str) -> (r: Result<(), String>)
    ensures
        success ==> r is Ok,
        !success ==> (r matches Err(e) && e@ == trim_spec(stderr@)),
{
    if success {
        Ok(())
    } else {
        Err(trim(stderr))
    }
}

/// The error for a podman command that failed: the command and its
/// trimmed error output.
pub fn run_failure(args: &Vec<String>, stderr: &str) -> (s: String)
    ensures
        s@ == "podman "@ + join_spec(views(args@), " "@) + " failed: "@ + trim_spec(stderr@),
{
    let mut s = String::new();
    s.append("podman ");
    let a = join(args, " ");
    s.append(a.as_str());
    s.append(" failed: ");
    let t = trim(stderr);
    s.append(t.as_str());
    s
}


/// The arguments of `podman logs` for the last `tail` lines with
/// timestamps.
pub fn logs_tail_args(name: &str, tail: u64) -> (a: Vec<String>)
    ensures
        views(a@) == seq!["logs"@, "--timestamps"@, "--tail"@, decimal(tail as nat), name@],
{
    let a = vec!["logs".to_owned(), "--timestamps".to_owned(), "--tail".to_owned(), u64_text(tail), name.to_owned()];
    assert(views(a@) =~= seq!["logs"@, "--timestamps"@, "--tail"@, decimal(tail as nat), name@]);
    a
}

/// The arguments of `podman logs` that follow a container's log, from
/// `since` (an RFC 3339 time, inclusive) when given.
pub fn logs_follow_args(name: &str, since: Option<&str>) -> (a: Vec<String>)
    ensures
        views(a@) == (match since {
            Some(t) => seq!["logs"@, "--timestamps"@, "--follow"@, "--since"@, t@, name@],
            None => seq!["logs"@, "--timestamps"@, "--follow"@, name@],
        }),
{
    let a = match since {
        Some(t) => vec![
            "logs".to_owned(),
            "--timestamps".to_owned(),
            "--follow".to_owned(),
            "--since".to_owned(),
            t.to_owned(),
            name.to_owned(),
        ],
        None => vec!["logs".to_owned(), "--timestamps".to_owned(), "--follow".to_owned(), name.to_owned()],
    };
    assert(views(a@) =~= (match since {
        Some(t) => seq!["logs"@, "--timestamps"@, "--follow"@, "--since"@, t@, name@],
        None => seq!["logs"@, "--timestamps"@, "--follow"@, name@],
    }));
    a
}

/// The JSON body of a webhook notice: `message` and `title` as JSON
/// strings, in that (sorted) key order, as `serde_json` writes the object.
pub open spec fn webhook_body_spec(title: Seq<char>, message: Seq<char>) -> Seq<char> {
    "{\"message\":"@ + json_quoted(message) + ",\"title\":"@ + json_quoted(title) + "}"@
}

/// The JSON body of a webhook notice.
pub fn webhook_body(title: &str, message: &str) -> (b: String)
    ensures
        b@ == webhook_body_spec(title@, message@),
{
    let mut b = "{\"message\":".to_owned();
    let m = json_string(message);
    b.append(m.as_str());
    b.append(",\"title\":");
    let t = json_string(title);
    b.append(t.as_str());
    b.append("}");
    b
}

} // verus!
