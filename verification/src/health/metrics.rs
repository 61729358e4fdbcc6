//! What the health backend reads out of the kernel's text files
//! (`/proc/stat`, `/proc/meminfo`, `/proc/net/dev`, `/proc/diskstats`,
//! `/proc/mounts`), file-system usage from `statvfs` figures, the counter
//! deltas between two samples, temperature sensor names and series names.
//! Reading the files, `statvfs` itself and the floating-point rates are
//! the caller's.

use vstd::prelude::*;
use crate::table::StrMap;
use crate::text::{
    chars_of, lines, lines_spec, parse_u64, parse_uint,
    parse_uint_spec, same_text, split_once, starts_with, strip_prefix, strip_suffix, trim,
    trim_spec, views, words, words_spec, find_char, strip_leading, strip_trailing,
};

verus! {

// ---------------------------------------------------------------------------
// Memory
// ---------------------------------------------------------------------------

/// Memory figures in bytes, as `/proc/meminfo` gives them.
#[derive(Clone, Copy, Debug)]
pub struct MemInfo {
    pub total: u64,
    pub available: u64,
    pub cache: u64,
    pub buffers: u64,
    pub free: u64,
    pub swap_total: u64,
    pub swap_used: u64,
}

/// Every figure zero.
pub open spec fn mem_zero() -> MemInfo {
    MemInfo { total: 0, available: 0, cache: 0, buffers: 0, free: 0, swap_total: 0, swap_used: 0 }
}

impl Default for MemInfo {
    fn default() -> (m: Self)
        ensures
            m == mem_zero(),
    {
        MemInfo { total: 0, available: 0, cache: 0, buffers: 0, free: 0, swap_total: 0, swap_used: 0 }
    }
}

impl MemInfo {
    /// What is reported as used: everything not available to new programs
    /// (zero when the kernel reports more available than total).
    pub fn used(&self) -> (u: u64)
        ensures
            u == (if self.total >= self.available { self.total - self.available } else { 0 }),
    {
        self.total.saturating_sub(self.available)
    }
}

// ---------------------------------------------------------------------------
// Numbers among words
// ---------------------------------------------------------------------------

/// The words that read as a `u64`, as numbers, in order (the others are
/// skipped).
pub open spec fn numbers(ws: Seq<Seq<char>>) -> Seq<u64>
    decreases ws.len(),
{
    if ws.len() == 0 {
        seq![]
    } else {
        match parse_uint_spec(ws.last(), u64::MAX as int) {
            Some(x) => numbers(ws.drop_last()).push(x as u64),
            None => numbers(ws.drop_last()),
        }
    }
}

/// The words after the first `skip`.
pub open spec fn words_after(ws: Seq<Seq<char>>, skip: int) -> Seq<Seq<char>> {
    if ws.len() > skip {
        ws.skip(skip)
    } else {
        seq![]
    }
}

fn numbers_of(ws: &Vec<String>, from: usize) -> (r: Vec<u64>)
    ensures
        r@ == numbers(words_after(views(ws@), from as int)),
{
    let ghost all = views(ws@);
    let mut out: Vec<u64> = Vec::new();
    if ws.len() <= from {
        return out;
    }
    let ghost tail = all.skip(from as int);
    let mut i = from;
    assert(tail.take(0) =~= seq![]);
    while i < ws.len()
        invariant
            from <= i <= ws@.len(),
            all == views(ws@),
            tail == all.skip(from as int),
            out@ == numbers(tail.take(i - from)),
        decreases ws.len() - i,
    {
        proof {
            assert(tail.take(i - from + 1).drop_last() =~= tail.take(i - from));
            assert(tail.take(i - from + 1).last() == ws@[i as int]@);
        }
        match parse_u64(ws[i].as_str()) {
            Some(x) => out.push(x),
            None => {},
        }
        i = i + 1;
    }
    assert(tail.take(i - from) =~= tail);
    out
}

/// The value of a word read as `u64`, or 0 (`parse().unwrap_or(0)`).
pub open spec fn number_or_zero(w: Seq<char>) -> u64 {
    match parse_uint_spec(w, u64::MAX as int) {
        Some(x) => x as u64,
        None => 0,
    }
}

fn parse_or_zero(w: &str) -> (x: u64)
    ensures
        x == number_or_zero(w@),
{
    match parse_u64(w) {
        Some(x) => x,
        None => 0,
    }
}

// ---------------------------------------------------------------------------
// /proc/meminfo
// ---------------------------------------------------------------------------

/// A line whose value cannot be scaled from kB to bytes in 64 bits.
pub open spec fn kb_overflows(line: Seq<char>) -> bool {
    let ws = words_spec(line);
    ws.len() >= 2 && (parse_uint_spec(ws[1], u64::MAX as int) matches Some(v) && v * 1024
        > u64::MAX)
}

/// `a - b`, or 0 below zero.
pub open spec fn sat_sub(a: u64, b: u64) -> u64 {
    if a >= b {
        (a - b) as u64
    } else {
        0
    }
}

/// The figures after one `/proc/meminfo` line (`Key: value kB`): the known
/// keys set their figure in bytes; `SwapFree` sets swap used from the swap
/// total read so far; other lines change nothing.
pub open spec fn meminfo_line(m: MemInfo, line: Seq<char>) -> MemInfo {
    let ws = words_spec(line);
    if ws.len() < 2 {
        m
    } else {
        match parse_uint_spec(ws[1], u64::MAX as int) {
            None => m,
            Some(v) => {
                let kb = (v * 1024) as u64;
                let key = ws[0];
                if key == "MemTotal:"@ {
                    MemInfo { total: kb, ..m }
                } else if key == "MemAvailable:"@ {
                    MemInfo { available: kb, ..m }
                } else if key == "MemFree:"@ {
                    MemInfo { free: kb, ..m }
                } else if key == "Buffers:"@ {
                    MemInfo { buffers: kb, ..m }
                } else if key == "Cached:"@ {
                    MemInfo { cache: kb, ..m }
                } else if key == "SwapTotal:"@ {
                    MemInfo { swap_total: kb, ..m }
                } else if key == "SwapFree:"@ {
                    MemInfo { swap_used: sat_sub(m.swap_total, kb), ..m }
                } else {
                    m
                }
            },
        }
    }
}

/// The figures of `/proc/meminfo`, line by line from all zero.
pub open spec fn meminfo_spec(ls: Seq<Seq<char>>) -> MemInfo
    decreases ls.len(),
{
    if ls.len() == 0 {
        mem_zero()
    } else {
        meminfo_line(meminfo_spec(ls.drop_last()), ls.last())
    }
}

/// No line of the text has a value too large to scale to bytes.
pub open spec fn meminfo_in_range(text: Seq<char>) -> bool {
    forall|i: int| 0 <= i < lines_spec(text).len() ==> !kb_overflows(#[trigger] lines_spec(text)[i])
}

fn line_kb_overflows(line: &str) -> (b: bool)
    ensures
        b == kb_overflows(line@),
{
    let ws = words(line);
    if ws.len() < 2 {
        return false;
    }
    match parse_u64(ws[1].as_str()) {
        Some(v) => v > u64::MAX / 1024,
        None => false,
    }
}

/// Whether `parse_meminfo` can read `text` (every value fits in bytes).
pub fn meminfo_fits(text: &str) -> (b: bool)
    ensures
        b == meminfo_in_range(text@),
{
    let ls = lines(text);
    let mut i: usize = 0;
    while i < ls.len()
        invariant
            i <= ls@.len(),
            views(ls@) == lines_spec(text@),
            forall|j: int| 0 <= j < i ==> !kb_overflows(#[trigger] lines_spec(text@)[j]),
        decreases ls.len() - i,
    {
        if line_kb_overflows(ls[i].as_str()) {
            assert(lines_spec(text@)[i as int] == ls@[i as int]@);
            return false;
        }
        i = i + 1;
    }
    true
}

/// Reads `/proc/meminfo`.
pub fn parse_meminfo(text: &str) -> (m: MemInfo)
    requires
        meminfo_in_range(text@),
    ensures
        m == meminfo_spec(lines_spec(text@)),
{
    let ls = lines(text);
    let ghost lv = views(ls@);
    let mut m = MemInfo::default();
    let mut i: usize = 0;
    while i < ls.len()
        invariant
            i <= ls@.len(),
            lv == views(ls@),
            lv == lines_spec(text@),
            meminfo_in_range(text@),
            m == meminfo_spec(lv.take(i as int)),
        decreases ls.len() - i,
    {
        proof {
            assert(lv.take(i + 1).drop_last() =~= lv.take(i as int));
            assert(lv.take(i + 1).last() == ls@[i as int]@);
            assert(!kb_overflows(lv[i as int]));
        }
        let ws = words(ls[i].as_str());
        if ws.len() >= 2 {
            match parse_u64(ws[1].as_str()) {
                Some(v) => {
                    let kb = v * 1024;
                    let key = ws[0].as_str();
                    if same_text(key, "MemTotal:") {
                        m.total = kb;
                    } else if same_text(key, "MemAvailable:") {
                        m.available = kb;
                    } else if same_text(key, "MemFree:") {
                        m.free = kb;
                    } else if same_text(key, "Buffers:") {
                        m.buffers = kb;
                    } else if same_text(key, "Cached:") {
                        m.cache = kb;
                    } else if same_text(key, "SwapTotal:") {
                        m.swap_total = kb;
                    } else if same_text(key, "SwapFree:") {
                        m.swap_used = m.swap_total.saturating_sub(kb);
                    }
                },
                None => {},
            }
        }
        i = i + 1;
    }
    assert(lv.take(ls@.len() as int) =~= lv);
    m
}

// ---------------------------------------------------------------------------
// /proc/stat
// ---------------------------------------------------------------------------

/// One CPU line of `/proc/stat`: its name (`cpu`, `cpu0`, …), the idle
/// ticks (idle plus iowait) and all ticks.
#[derive(Clone, Debug)]
pub struct CpuTimes {
    pub name: String,
    pub idle: u64,
    pub total: u64,
}

/// The sum of the numbers.
pub open spec fn sum_of(v: Seq<u64>) -> int
    decreases v.len(),
{
    if v.len() == 0 {
        0
    } else {
        sum_of(v.drop_last()) + v.last()
    }
}

/// What a `/proc/stat` line says of a CPU, as (name, idle, total): lines
/// that start with `cpu` and carry at least four numbers.
pub open spec fn cpu_line(line: Seq<char>) -> Option<(Seq<char>, int, int)> {
    if !"cpu"@.is_prefix_of(line) {
        None
    } else {
        let ws = words_spec(line);
        let name = if ws.len() > 0 {
            ws[0]
        } else {
            seq![]
        };
        let vals = numbers(words_after(ws, 1));
        if vals.len() < 4 {
            None
        } else {
            Some((name, vals[3] + (if vals.len() > 4 { vals[4] as int } else { 0 }), sum_of(vals)))
        }
    }
}

/// The CPU lines of `/proc/stat`, in order.
pub open spec fn cpu_times_spec(ls: Seq<Seq<char>>) -> Seq<(Seq<char>, int, int)>
    decreases ls.len(),
{
    if ls.len() == 0 {
        seq![]
    } else {
        match cpu_line(ls.last()) {
            Some(c) => cpu_times_spec(ls.drop_last()).push(c),
            None => cpu_times_spec(ls.drop_last()),
        }
    }
}

/// A CPU line whose tick total does not fit in 64 bits.
pub open spec fn cpu_overflows(line: Seq<char>) -> bool {
    cpu_line(line) matches Some(c) && c.2 > u64::MAX
}

/// No CPU line of the text overflows.
pub open spec fn cpu_in_range(text: Seq<char>) -> bool {
    forall|i: int| 0 <= i < lines_spec(text).len() ==> !cpu_overflows(#[trigger] lines_spec(text)[i])
}

/// The (name, idle, total) of a parsed CPU line.
pub open spec fn cpu_view(c: CpuTimes) -> (Seq<char>, int, int) {
    (c.name@, c.idle as int, c.total as int)
}

/// The views of a list.
pub open spec fn cpu_views(v: Seq<CpuTimes>) -> Seq<(Seq<char>, int, int)> {
    v.map_values(|x: CpuTimes| cpu_view(x))
}

proof fn lemma_sum_prefix(v: Seq<u64>, k: int)
    requires
        0 <= k <= v.len(),
    ensures
        sum_of(v.take(k)) <= sum_of(v),
    decreases v.len() - k,
{
    if k < v.len() {
        lemma_sum_prefix(v.drop_last(), k);
        assert(v.drop_last().take(k) =~= v.take(k));
    } else {
        assert(v.take(k) =~= v);
    }
}

proof fn lemma_sum_two(v: Seq<u64>, i: int, j: int)
    requires
        0 <= i < j < v.len(),
    ensures
        v[i] + v[j] <= sum_of(v),
    decreases v.len(),
{
    if j < v.len() - 1 {
        lemma_sum_two(v.drop_last(), i, j);
    } else {
        lemma_sum_one(v.drop_last(), i);
    }
}

proof fn lemma_sum_one(v: Seq<u64>, i: int)
    requires
        0 <= i < v.len(),
    ensures
        v[i] <= sum_of(v),
    decreases v.len(),
{
    if i < v.len() - 1 {
        lemma_sum_one(v.drop_last(), i);
    } else {
        lemma_sum_nonneg(v.drop_last());
    }
}

proof fn lemma_sum_nonneg(v: Seq<u64>)
    ensures
        sum_of(v) >= 0,
    decreases v.len(),
{
    if v.len() > 0 {
        lemma_sum_nonneg(v.drop_last());
    }
}

fn cpu_line_of(line: &str) -> (r: Option<CpuTimes>)
    requires
        !cpu_overflows(line@),
    ensures
        match r {
            Some(c) => cpu_line(line@) == Some(cpu_view(c)),
            None => cpu_line(line@) is None,
        },
{
    if !starts_with(line, "cpu") {
        return None;
    }
    let ws = words(line);
    let name = if ws.len() > 0 {
        ws[0].clone()
    } else {
        String::new()
    };
    let vals = numbers_of(&ws, 1);
    if vals.len() < 4 {
        return None;
    }
    let ghost vs = vals@;
    proof {
        if vs.len() > 4 {
            lemma_sum_two(vs, 3, 4);
        } else {
            lemma_sum_one(vs, 3);
        }
    }
    let idle = vals[3] + if vals.len() > 4 {
        vals[4]
    } else {
        0
    };
    let mut total: u64 = 0;
    let mut i: usize = 0;
    while i < vals.len()
        invariant
            i <= vs.len(),
            vs == vals@,
            sum_of(vs) <= u64::MAX,
            total == sum_of(vs.take(i as int)),
        decreases vals.len() - i,
    {
        proof {
            assert(vs.take(i + 1).drop_last() =~= vs.take(i as int));
            lemma_sum_prefix(vs, i + 1);
        }
        total = total + vals[i];
        i = i + 1;
    }
    assert(vs.take(vs.len() as int) =~= vs);
    Some(CpuTimes { name, idle, total })
}

/// Whether `parse_cpu_times` can read `text` (no tick total overflows).
pub fn cpu_times_fit(text: &str) -> (b: bool)
    ensures
        b == cpu_in_range(text@),
{
    let ls = lines(text);
    let mut i: usize = 0;
    while i < ls.len()
        invariant
            i <= ls@.len(),
            views(ls@) == lines_spec(text@),
            forall|j: int| 0 <= j < i ==> !cpu_overflows(#[trigger] lines_spec(text@)[j]),
        decreases ls.len() - i,
    {
        assert(lines_spec(text@)[i as int] == ls@[i as int]@);
        if cpu_line_overflows(ls[i].as_str()) {
            return false;
        }
        i = i + 1;
    }
    true
}

#[verifier::loop_isolation(false)]
fn cpu_line_overflows(line: &str) -> (b: bool)
    ensures
        b == cpu_overflows(line@),
{
    if !starts_with(line, "cpu") {
        return false;
    }
    let ws = words(line);
    let vals = numbers_of(&ws, 1);
    if vals.len() < 4 {
        return false;
    }
    let ghost vs = vals@;
    let mut total: u64 = 0;
    let mut i: usize = 0;
    while i < vals.len()
        invariant
            i <= vs.len(),
            vs == vals@,
            total == sum_of(vs.take(i as int)),
        decreases vals.len() - i,
    {
        proof {
            assert(vs.take(i + 1).drop_last() =~= vs.take(i as int));
            assert(vs.take(i + 1).last() == vs[i as int]);
        }
        if vals[i] > u64::MAX - total {
            proof {
                lemma_sum_prefix(vs, i + 1);
                assert(numbers(words_after(words_spec(line@), 1)) == vs);
                assert(cpu_line(line@) == Some(
                    (
                        words_spec(line@)[0],
                        vs[3] + (if vs.len() > 4 { vs[4] as int } else { 0 }),
                        sum_of(vs),
                    ),
                ));
            }
            return true;
        }
        total = total + vals[i];
        i = i + 1;
    }
    assert(vs.take(vs.len() as int) =~= vs);
    false
}

/// Reads the CPU lines of `/proc/stat`.
pub fn parse_cpu_times(text: &str) -> (r: Vec<CpuTimes>)
    requires
        cpu_in_range(text@),
    ensures
        cpu_views(r@) == cpu_times_spec(lines_spec(text@)),
{
    let ls = lines(text);
    let ghost lv = views(ls@);
    let mut out: Vec<CpuTimes> = Vec::new();
    let mut i: usize = 0;
    while i < ls.len()
        invariant
            i <= ls@.len(),
            lv == views(ls@),
            lv == lines_spec(text@),
            cpu_in_range(text@),
            cpu_views(out@) == cpu_times_spec(lv.take(i as int)),
        decreases ls.len() - i,
    {
        proof {
            assert(lv.take(i + 1).drop_last() =~= lv.take(i as int));
            assert(lv.take(i + 1).last() == ls@[i as int]@);
            assert(!cpu_overflows(lv[i as int]));
        }
        match cpu_line_of(ls[i].as_str()) {
            Some(c) => {
                let ghost before = out@;
                out.push(c);
                assert(cpu_views(out@) =~= cpu_views(before).push(cpu_view(c)));
            },
            None => {},
        }
        i = i + 1;
    }
    assert(lv.take(ls@.len() as int) =~= lv);
    out
}


// ---------------------------------------------------------------------------
// /proc/net/dev
// ---------------------------------------------------------------------------

/// An interface line of `/proc/net/dev` as (name, received bytes, sent
/// bytes): the name before the `:` (trimmed), then at least nine numbers,
/// of which the first and the ninth.
pub open spec fn net_line(line: Seq<char>) -> Option<(Seq<char>, u64, u64)> {
    match find_char(line, ':') {
        None => None,
        Some(i) => {
            let f = numbers(words_spec(line.skip(i + 1)));
            if f.len() < 9 {
                None
            } else {
                Some((trim_spec(line.take(i)), f[0], f[8]))
            }
        },
    }
}

/// The interface lines among `ls`, in order.
pub open spec fn net_lines(ls: Seq<Seq<char>>) -> Seq<(Seq<char>, u64, u64)>
    decreases ls.len(),
{
    if ls.len() == 0 {
        seq![]
    } else {
        match net_line(ls.last()) {
            Some(x) => net_lines(ls.drop_last()).push(x),
            None => net_lines(ls.drop_last()),
        }
    }
}

/// The (name, rx, tx) of a parsed interface line.
pub open spec fn counter_view(c: (String, u64, u64)) -> (Seq<char>, u64, u64) {
    (c.0@, c.1, c.2)
}

/// The views of a list.
pub open spec fn counter_views(v: Seq<(String, u64, u64)>) -> Seq<(Seq<char>, u64, u64)> {
    v.map_values(|x: (String, u64, u64)| counter_view(x))
}

fn net_line_of(line: &str) -> (r: Option<(String, u64, u64)>)
    ensures
        match r {
            Some(c) => net_line(line@) == Some(counter_view(c)),
            None => net_line(line@) is None,
        },
{
    match split_once(line, ':') {
        None => None,
        Some((name, rest)) => {
            let ws = words(rest.as_str());
            let f = numbers_of(&ws, 0);
            assert(words_after(views(ws@), 0) =~= views(ws@));
            if f.len() < 9 {
                None
            } else {
                Some((trim(name.as_str()), f[0], f[8]))
            }
        },
    }
}

/// Reads `/proc/net/dev` (its two header lines skipped).
pub fn parse_net_dev(text: &str) -> (r: Vec<(String, u64, u64)>)
    ensures
        counter_views(r@) == net_lines(words_after(lines_spec(text@), 2)),
{
    let ls = lines(text);
    let ghost lv = words_after(views(ls@), 2);
    let mut out: Vec<(String, u64, u64)> = Vec::new();
    if ls.len() <= 2 {
        assert(lv =~= seq![]);
        return out;
    }
    let mut i: usize = 2;
    while i < ls.len()
        invariant
            2 <= i <= ls@.len(),
            lv == views(ls@).skip(2),
            counter_views(out@) == net_lines(lv.take(i - 2)),
        decreases ls.len() - i,
    {
        proof {
            assert(lv.take(i - 2 + 1).drop_last() =~= lv.take(i - 2));
            assert(lv.take(i - 2 + 1).last() == ls@[i as int]@);
        }
        match net_line_of(ls[i].as_str()) {
            Some(c) => {
                let ghost before = out@;
                out.push(c);
                assert(counter_views(out@) =~= counter_views(before).push(counter_view(c)));
            },
            None => {},
        }
        i = i + 1;
    }
    assert(lv.take(i - 2) =~= lv);
    out
}

// ---------------------------------------------------------------------------
// /proc/diskstats
// ---------------------------------------------------------------------------

/// The IO counters of one block device.
#[derive(Clone, Debug)]
pub struct DiskCounters {
    pub name: String,
    pub reads: u64,
    pub writes: u64,
    pub read_sectors: u64,
    pub write_sectors: u64,
    pub io_ms: u64,
}

/// (name, reads, writes, sectors read, sectors written, ms doing IO).
pub open spec fn disk_view(d: DiskCounters) -> (Seq<char>, u64, u64, u64, u64, u64) {
    (d.name@, d.reads, d.writes, d.read_sectors, d.write_sectors, d.io_ms)
}

/// The views of a list.
pub open spec fn disk_views(v: Seq<DiskCounters>) -> Seq<(Seq<char>, u64, u64, u64, u64, u64)> {
    v.map_values(|x: DiskCounters| disk_view(x))
}

/// A device line of `/proc/diskstats`: at least fourteen words, loop
/// devices (major 7) left out; fields 3, 7, 5, 9 and 12 (0 when not a
/// number).
pub open spec fn disk_line(line: Seq<char>) -> Option<(Seq<char>, u64, u64, u64, u64, u64)> {
    let f = words_spec(line);
    if f.len() < 14 {
        None
    } else if number_or_zero(f[0]) == 7 {
        None
    } else {
        Some(
            (
                f[2],
                number_or_zero(f[3]),
                number_or_zero(f[7]),
                number_or_zero(f[5]),
                number_or_zero(f[9]),
                number_or_zero(f[12]),
            ),
        )
    }
}

/// The device lines among `ls`, in order.
pub open spec fn disk_lines(ls: Seq<Seq<char>>) -> Seq<(Seq<char>, u64, u64, u64, u64, u64)>
    decreases ls.len(),
{
    if ls.len() == 0 {
        seq![]
    } else {
        match disk_line(ls.last()) {
            Some(x) => disk_lines(ls.drop_last()).push(x),
            None => disk_lines(ls.drop_last()),
        }
    }
}

fn disk_line_of(line: &str) -> (r: Option<DiskCounters>)
    ensures
        match r {
            Some(d) => disk_line(line@) == Some(disk_view(d)),
            None => disk_line(line@) is None,
        },
{
    let f = words(line);
    if f.len() < 14 {
        return None;
    }
    if parse_or_zero(f[0].as_str()) == 7 {
        return None;
    }
    Some(
        DiskCounters {
            name: f[2].clone(),
            reads: parse_or_zero(f[3].as_str()),
            writes: parse_or_zero(f[7].as_str()),
            read_sectors: parse_or_zero(f[5].as_str()),
            write_sectors: parse_or_zero(f[9].as_str()),
            io_ms: parse_or_zero(f[12].as_str()),
        },
    )
}

/// Reads `/proc/diskstats`.
pub fn parse_diskstats(text: &str) -> (r: Vec<DiskCounters>)
    ensures
        disk_views(r@) == disk_lines(lines_spec(text@)),
{
    let ls = lines(text);
    let ghost lv = views(ls@);
    let mut out: Vec<DiskCounters> = Vec::new();
    let mut i: usize = 0;
    while i < ls.len()
        invariant
            i <= ls@.len(),
            lv == views(ls@),
            disk_views(out@) == disk_lines(lv.take(i as int)),
        decreases ls.len() - i,
    {
        proof {
            assert(lv.take(i + 1).drop_last() =~= lv.take(i as int));
            assert(lv.take(i + 1).last() == ls@[i as int]@);
        }
        match disk_line_of(ls[i].as_str()) {
            Some(d) => {
                let ghost before = out@;
                out.push(d);
                assert(disk_views(out@) =~= disk_views(before).push(disk_view(d)));
            },
            None => {},
        }
        i = i + 1;
    }
    assert(lv.take(ls@.len() as int) =~= lv);
    out
}

// ---------------------------------------------------------------------------
// /proc/mounts and file-system usage
// ---------------------------------------------------------------------------

/// (device, mount point, file-system type).
pub open spec fn mount_view(m: (String, String, String)) -> (Seq<char>, Seq<char>, Seq<char>) {
    (m.0@, m.1@, m.2@)
}

/// The views of a list.
pub open spec fn mount_views(v: Seq<(String, String, String)>) -> Seq<(Seq<char>, Seq<char>, Seq<char>)> {
    v.map_values(|x: (String, String, String)| mount_view(x))
}

/// A mount of a real block device: a `/dev/` source that is not a loop
/// device, with its mount point and type.
pub open spec fn mount_line(line: Seq<char>) -> Option<(Seq<char>, Seq<char>, Seq<char>)> {
    let ws = words_spec(line);
    if ws.len() < 3 {
        None
    } else if !"/dev/"@.is_prefix_of(ws[0]) || "/dev/loop"@.is_prefix_of(ws[0]) {
        None
    } else {
        Some((ws[0], ws[1], ws[2]))
    }
}

/// The block-device mounts among `ls`, in order.
pub open spec fn mount_lines(ls: Seq<Seq<char>>) -> Seq<(Seq<char>, Seq<char>, Seq<char>)>
    decreases ls.len(),
{
    if ls.len() == 0 {
        seq![]
    } else {
        match mount_line(ls.last()) {
            Some(x) => mount_lines(ls.drop_last()).push(x),
            None => mount_lines(ls.drop_last()),
        }
    }
}

fn mount_line_of(line: &str) -> (r: Option<(String, String, String)>)
    ensures
        match r {
            Some(m) => mount_line(line@) == Some(mount_view(m)),
            None => mount_line(line@) is None,
        },
{
    let ws = words(line);
    if ws.len() < 3 {
        return None;
    }
    if !starts_with(ws[0].as_str(), "/dev/") || starts_with(ws[0].as_str(), "/dev/loop") {
        return None;
    }
    Some((ws[0].clone(), ws[1].clone(), ws[2].clone()))
}

/// Reads `/proc/mounts`: the mounts of real block devices.
pub fn parse_mounts(text: &str) -> (r: Vec<(String, String, String)>)
    ensures
        mount_views(r@) == mount_lines(lines_spec(text@)),
{
    let ls = lines(text);
    let ghost lv = views(ls@);
    let mut out: Vec<(String, String, String)> = Vec::new();
    let mut i: usize = 0;
    while i < ls.len()
        invariant
            i <= ls@.len(),
            lv == views(ls@),
            mount_views(out@) == mount_lines(lv.take(i as int)),
        decreases ls.len() - i,
    {
        proof {
            assert(lv.take(i + 1).drop_last() =~= lv.take(i as int));
            assert(lv.take(i + 1).last() == ls@[i as int]@);
        }
        match mount_line_of(ls[i].as_str()) {
            Some(m) => {
                let ghost before = out@;
                out.push(m);
                assert(mount_views(out@) =~= mount_views(before).push(mount_view(m)));
            },
            None => {},
        }
        i = i + 1;
    }
    assert(lv.take(ls@.len() as int) =~= lv);
    out
}

/// The mounts that first name each device (bind mounts and sub-volumes of
/// a device already seen are dropped), in order.
pub open spec fn first_per_device_spec(ms: Seq<(Seq<char>, Seq<char>, Seq<char>)>) -> Seq<(Seq<char>, Seq<char>, Seq<char>)>
    decreases ms.len(),
{
    if ms.len() == 0 {
        seq![]
    } else if device_seen(ms.drop_last(), ms.last().0) {
        first_per_device_spec(ms.drop_last())
    } else {
        first_per_device_spec(ms.drop_last()).push(ms.last())
    }
}

/// Some mount of `ms` is of device `dev`.
pub open spec fn device_seen(ms: Seq<(Seq<char>, Seq<char>, Seq<char>)>, dev: Seq<char>) -> bool {
    exists|i: int| 0 <= i < ms.len() && (#[trigger] ms[i]).0 == dev
}

/// No two entries share a device.
pub open spec fn devices_unique(ms: Seq<(Seq<char>, Seq<char>, Seq<char>)>) -> bool {
    forall|i: int, j: int| 0 <= i < j < ms.len() ==> (#[trigger] ms[i]).0 != (#[trigger] ms[j]).0
}

/// The first mount of each device, in order; no device twice.
pub fn first_per_device(mounts: Vec<(String, String, String)>) -> (r: Vec<(String, String, String)>)
    ensures
        mount_views(r@) == first_per_device_spec(
            mount_views(mounts@),
        ),
        devices_unique(mount_views(r@)),
{
    let ghost ms = mount_views(mounts@);
    let n = mounts.len();
    let mut rest = mounts;
    let mut out: Vec<(String, String, String)> = Vec::new();
    let mut taken: usize = 0;
    while rest.len() > 0
        invariant
            rest@.len() + taken == n == ms.len(),
            mount_views(rest@) == ms.subrange(taken as int, n as int),
            mount_views(out@) == first_per_device_spec(ms.take(taken as int)),
            devices_unique(mount_views(out@)),
            forall|d: Seq<char>| device_seen(ms.take(taken as int), d) == device_seen(
                mount_views(out@),
                d,
            ),
        decreases rest.len(),
    {
        let ghost ov = mount_views(out@);
        let ghost pre = ms.take(taken as int);
        assert forall|d: Seq<char>| #[trigger] device_seen(pre, d) == device_seen(ov, d) by {}
        let ghost old_rest = rest@;
        proof {
            assert(mount_views(old_rest)[0] == ms.subrange(
                taken as int,
                n as int,
            )[0]);
        }
        let m = rest.remove(0);
        proof {
            assert(rest@ == old_rest.remove(0));
            assert(mount_view(m) == ms[taken as int]);
            assert(ms.take(taken + 1).drop_last() =~= pre);
            assert(ms.take(taken + 1).last() == mount_view(m));
        }
        let mut seen = false;
        let mut j: usize = 0;
        while j < out.len()
            invariant
                j <= out@.len(),
                ov == mount_views(out@),
                seen == (exists|k: int| 0 <= k < j && (#[trigger] ov[k]).0 == m.0@),
            decreases out.len() - j,
        {
            if same_text(out[j].0.as_str(), m.0.as_str()) {
                seen = true;
            }
            proof {
                if seen {
                    if out@[j as int].0@ == m.0@ {
                        assert(ov[j as int].0 == m.0@);
                    } else {
                        let k = choose|k: int| 0 <= k < j && (#[trigger] ov[k]).0 == m.0@;
                        assert(ov[k].0 == m.0@);
                    }
                } else {
                    assert(ov[j as int].0 != m.0@);
                }
            }
            j = j + 1;
        }
        proof {
            assert(seen == device_seen(ov, m.0@));
        }
        let ghost next = ms.take(taken + 1);
        if !seen {
            out.push(m);
            proof {
                let nv = mount_views(out@);
                assert(nv =~= ov.push(mount_view(m)));
                assert forall|d: Seq<char>| device_seen(next, d) == device_seen(nv, d) by {
                    if device_seen(next, d) {
                        let k = choose|k: int| 0 <= k < next.len() && (#[trigger] next[k]).0 == d;
                        if k < taken {
                            assert(pre[k] == next[k]);
                            assert(device_seen(pre, d));
                            let k2 = choose|k2: int| 0 <= k2 < ov.len() && (#[trigger] ov[k2]).0 == d;
                            assert(nv[k2] == ov[k2]);
                        } else {
                            assert(nv[ov.len() as int].0 == d);
                        }
                    }
                    if device_seen(nv, d) {
                        let k = choose|k: int| 0 <= k < nv.len() && (#[trigger] nv[k]).0 == d;
                        if k < ov.len() {
                            assert(ov[k] == nv[k]);
                            assert(device_seen(ov, d));
                            let k2 = choose|k2: int| 0 <= k2 < pre.len() && (#[trigger] pre[k2]).0 == d;
                            assert(next[k2] == pre[k2]);
                        } else {
                            assert(next[taken as int].0 == d);
                        }
                    }
                }
                assert forall|a: int, b: int| 0 <= a < b < nv.len() implies (#[trigger] nv[a]).0 != (
                #[trigger] nv[b]).0 by {
                    if b < ov.len() {
                        assert(nv[a] == ov[a] && nv[b] == ov[b]);
                    } else {
                        assert(nv[a] == ov[a]);
                        if ov[a].0 == m.0@ {
                            assert(device_seen(ov, m.0@));
                        }
                    }
                }
            }
        } else {
            proof {
                assert(device_seen(pre, m.0@));
                assert forall|d: Seq<char>| device_seen(next, d) == device_seen(ov, d) by {
                    if device_seen(next, d) {
                        let k = choose|k: int| 0 <= k < next.len() && (#[trigger] next[k]).0 == d;
                        if k < taken {
                            assert(pre[k] == next[k]);
                            assert(device_seen(pre, d));
                        } else {
                            assert(d == m.0@);
                        }
                    }
                    if device_seen(ov, d) {
                        assert(device_seen(pre, d));
                        let k2 = choose|k2: int| 0 <= k2 < pre.len() && (#[trigger] pre[k2]).0 == d;
                        assert(next[k2] == pre[k2]);
                    }
                }
            }
        }
        taken = taken + 1;
        proof {
            let rv = mount_views(rest@);
            let sub = ms.subrange(taken as int, n as int);
            assert forall|k: int| 0 <= k < rv.len() implies rv[k] == sub[k] by {
                assert(rest@[k] == old_rest[k + 1]);
                assert(mount_views(old_rest)[k + 1] == ms.subrange(
                    taken - 1,
                    n as int,
                )[k + 1]);
            }
            assert(rv =~= sub);
        }
    }
    assert(ms.take(n as int) =~= ms);
    out
}

/// `statvfs` figures of a mounted file system.
#[derive(Clone, Copy, Debug)]
pub struct StatVfs {
    pub blocks: u64,
    pub bfree: u64,
    pub bavail: u64,
    pub frsize: u64,
}

/// Space on one file system, in bytes.
#[derive(Clone, Debug)]
pub struct FsUsage {
    pub device: String,
    pub mount: String,
    pub fstype: String,
    pub total: u64,
    pub used: u64,
    pub avail: u64,
}

/// `a * b`, or `u64::MAX` when that does not fit.
pub open spec fn sat_mul(a: u64, b: u64) -> u64 {
    if a * b > u64::MAX {
        u64::MAX
    } else {
        (a * b) as u64
    }
}

fn saturating_product(a: u64, b: u64) -> (p: u64)
    ensures
        p == sat_mul(a, b),
{
    match a.checked_mul(b) {
        Some(p) => p,
        None => u64::MAX,
    }
}

/// (device, mount, type, total, used, available).
pub open spec fn usage_view(f: FsUsage) -> (Seq<char>, Seq<char>, Seq<char>, u64, u64, u64) {
    (f.device@, f.mount@, f.fstype@, f.total, f.used, f.avail)
}

/// The views of a list.
pub open spec fn usage_views(v: Seq<FsUsage>) -> Seq<(Seq<char>, Seq<char>, Seq<char>, u64, u64, u64)> {
    v.map_values(|x: FsUsage| usage_view(x))
}

/// The usage of a mount from its `statvfs` figures: none when `statvfs`
/// failed or reports no blocks or a zero fragment size; otherwise blocks
/// times fragment size (total), blocks less free blocks (used) and blocks
/// available to users (available), saturating at `u64::MAX`.
pub open spec fn usage_of(m: (Seq<char>, Seq<char>, Seq<char>), st: Option<StatVfs>) -> Option<
    (Seq<char>, Seq<char>, Seq<char>, u64, u64, u64),
> {
    match st {
        None => None,
        Some(s) => if s.frsize == 0 || s.blocks == 0 {
            None
        } else {
            Some(
                (
                    m.0,
                    m.1,
                    m.2,
                    sat_mul(s.blocks, s.frsize),
                    sat_mul(sat_sub(s.blocks, s.bfree), s.frsize),
                    sat_mul(s.bavail, s.frsize),
                ),
            )
        },
    }
}

/// The usages of the mounts whose `statvfs` figures are usable, in order.
pub open spec fn usages(ms: Seq<(Seq<char>, Seq<char>, Seq<char>)>, sts: Seq<Option<StatVfs>>) -> Seq<
    (Seq<char>, Seq<char>, Seq<char>, u64, u64, u64),
>
    decreases ms.len(),
{
    if ms.len() == 0 || sts.len() != ms.len() {
        seq![]
    } else {
        match usage_of(ms.last(), sts.last()) {
            Some(u) => usages(ms.drop_last(), sts.drop_last()).push(u),
            None => usages(ms.drop_last(), sts.drop_last()),
        }
    }
}

/// The space used on each mounted file system, from the mounts (first
/// per device) and the `statvfs` figures of each (`None` where the call
/// failed).
pub fn read_fs_usage(mounts: &Vec<(String, String, String)>, stats: &Vec<Option<StatVfs>>) -> (r: Vec<FsUsage>)
    requires
        mounts@.len() == stats@.len(),
    ensures
        usage_views(r@) == usages(
            mount_views(mounts@),
            stats@,
        ),
{
    let ghost ms = mount_views(mounts@);
    let mut out: Vec<FsUsage> = Vec::new();
    let mut i: usize = 0;
    while i < mounts.len()
        invariant
            i <= mounts@.len() == stats@.len(),
            ms == mount_views(mounts@),
            usage_views(out@) == usages(ms.take(i as int), stats@.take(i as int)),
        decreases mounts.len() - i,
    {
        proof {
            assert(ms.take(i + 1).drop_last() =~= ms.take(i as int));
            assert(stats@.take(i + 1).drop_last() =~= stats@.take(i as int));
            assert(ms.take(i + 1).last() == mount_view(mounts@[i as int]));
            assert(stats@.take(i + 1).last() == stats@[i as int]);
        }
        match stats[i] {
            Some(st) => {
                if st.frsize != 0 && st.blocks != 0 {
                    let m = &mounts[i];
                    let f = FsUsage {
                        device: m.0.clone(),
                        mount: m.1.clone(),
                        fstype: m.2.clone(),
                        total: saturating_product(st.blocks, st.frsize),
                        used: saturating_product(st.blocks.saturating_sub(st.bfree), st.frsize),
                        avail: saturating_product(st.bavail, st.frsize),
                    };
                    let ghost before = out@;
                    out.push(f);
                    assert(usage_views(out@) =~= usage_views(before).push(usage_view(f)));
                }
            },
            None => {},
        }
        i = i + 1;
    }
    assert(ms.take(mounts@.len() as int) =~= ms);
    assert(stats@.take(stats@.len() as int) =~= stats@);
    out
}

/// Every usage entry is of a mount among `ms`, in order: the file systems
/// read from mounts with distinct devices have distinct devices.
pub proof fn lemma_usages_devices_unique(ms: Seq<(Seq<char>, Seq<char>, Seq<char>)>, sts: Seq<Option<StatVfs>>)
    requires
        devices_unique(ms),
    ensures
        forall|i: int, j: int|
            0 <= i < j < usages(ms, sts).len() ==> (#[trigger] usages(ms, sts)[i]).0 != (
            #[trigger] usages(ms, sts)[j]).0,
    decreases ms.len(),
{
    if ms.len() > 0 && sts.len() == ms.len() {
        let p = ms.drop_last();
        assert(devices_unique(p)) by {
            assert forall|a: int, b: int| 0 <= a < b < p.len() implies (#[trigger] p[a]).0 != (
            #[trigger] p[b]).0 by {
                assert(p[a] == ms[a] && p[b] == ms[b]);
            }
        }
        lemma_usages_devices_unique(p, sts.drop_last());
        lemma_usages_from(p, sts.drop_last());
        let u = usages(ms, sts);
        let v = usages(p, sts.drop_last());
        if usage_of(ms.last(), sts.last()) is Some {
            assert forall|a: int, b: int| 0 <= a < b < u.len() implies (#[trigger] u[a]).0 != (
            #[trigger] u[b]).0 by {
                if b < v.len() {
                    assert(u[a] == v[a] && u[b] == v[b]);
                } else {
                    assert(u[a] == v[a]);
                    let k = choose|k: int| 0 <= k < p.len() && (#[trigger] p[k]).0 == v[a].0;
                    assert(ms[k] == p[k]);
                    assert(u[b].0 == ms.last().0);
                }
            }
        }
    }
}

proof fn lemma_usages_from(ms: Seq<(Seq<char>, Seq<char>, Seq<char>)>, sts: Seq<Option<StatVfs>>)
    ensures
        forall|i: int| 0 <= i < usages(ms, sts).len() ==> device_seen(ms, #[trigger] usages(ms, sts)[i].0),
    decreases ms.len(),
{
    if ms.len() > 0 && sts.len() == ms.len() {
        let p = ms.drop_last();
        lemma_usages_from(p, sts.drop_last());
        let u = usages(ms, sts);
        let v = usages(p, sts.drop_last());
        assert forall|i: int| 0 <= i < u.len() implies device_seen(ms, #[trigger] u[i].0) by {
            if i < v.len() {
                assert(u[i] == v[i]);
                assert(device_seen(p, v[i].0));
                let k = choose|k: int| 0 <= k < p.len() && (#[trigger] p[k]).0 == v[i].0;
                assert(ms[k] == p[k]);
            } else {
                assert(ms[ms.len() - 1].0 == u[i].0);
            }
        }
    }
}


// ---------------------------------------------------------------------------
// Counter deltas between samples
// ---------------------------------------------------------------------------

/// The ticks of a CPU as last seen.
#[derive(Clone, Copy, Debug)]
pub struct PrevCpu {
    pub idle: u64,
    pub total: u64,
}

/// How a CPU spent the time since the last sample: idle ticks and all
/// ticks that passed. Both are 0 when its tick total did not grow (then it
/// counts as 0 % busy).
#[derive(Clone, Debug)]
pub struct CpuDelta {
    pub name: String,
    pub idle: u64,
    pub total: u64,
}

/// (name, idle ticks, all ticks) of a delta.
pub open spec fn cpu_delta_view(d: CpuDelta) -> (Seq<char>, u64, u64) {
    (d.name@, d.idle, d.total)
}

/// The views of a list.
pub open spec fn cpu_delta_views(v: Seq<CpuDelta>) -> Seq<(Seq<char>, u64, u64)> {
    v.map_values(|x: CpuDelta| cpu_delta_view(x))
}

/// The delta of one CPU against what was last seen of it; a CPU not seen
/// before counts as unchanged.
pub open spec fn cpu_delta(prev: Map<Seq<char>, PrevCpu>, c: CpuTimes) -> (Seq<char>, u64, u64) {
    let p = if prev.contains_key(c.name@) {
        prev[c.name@]
    } else {
        PrevCpu { idle: c.idle, total: c.total }
    };
    if c.total > p.total {
        (c.name@, sat_sub(c.idle, p.idle), (c.total - p.total) as u64)
    } else {
        (c.name@, 0, 0)
    }
}

/// The deltas of the CPUs in order, and what is remembered afterwards
/// (each CPU's latest ticks).
pub open spec fn cpu_deltas_spec(prev: Map<Seq<char>, PrevCpu>, cs: Seq<CpuTimes>) -> (Seq<(Seq<char>, u64, u64)>, Map<Seq<char>, PrevCpu>)
    decreases cs.len(),
{
    if cs.len() == 0 {
        (seq![], prev)
    } else {
        let (ds, m) = cpu_deltas_spec(prev, cs.drop_last());
        let c = cs.last();
        (ds.push(cpu_delta(m, c)), m.insert(c.name@, PrevCpu { idle: c.idle, total: c.total }))
    }
}

/// The CPU deltas of a new sample; `prev` then holds its ticks.
pub fn cpu_deltas(prev: &mut StrMap<PrevCpu>, times: &Vec<CpuTimes>) -> (r: Vec<CpuDelta>)
    ensures
        (cpu_delta_views(r@), final(prev).view()) == cpu_deltas_spec(old(prev).view(), times@),
{
    let mut out: Vec<CpuDelta> = Vec::new();
    let mut i: usize = 0;
    while i < times.len()
        invariant
            i <= times@.len(),
            (cpu_delta_views(out@), prev.view()) == cpu_deltas_spec(old(prev).view(), times@.take(i as int)),
        decreases times.len() - i,
    {
        proof {
            assert(times@.take(i + 1).drop_last() =~= times@.take(i as int));
        }
        let c = &times[i];
        let p = match prev.get(c.name.as_str()) {
            Some(p) => *p,
            None => PrevCpu { idle: c.idle, total: c.total },
        };
        let d = if c.total > p.total {
            CpuDelta { name: c.name.clone(), idle: c.idle.saturating_sub(p.idle), total: c.total - p.total }
        } else {
            CpuDelta { name: c.name.clone(), idle: 0, total: 0 }
        };
        let ghost before = out@;
        out.push(d);
        assert(cpu_delta_views(out@) =~= cpu_delta_views(before).push(cpu_delta_view(d)));
        prev.insert(c.name.clone(), PrevCpu { idle: c.idle, total: c.total });
        i = i + 1;
    }
    assert(times@.take(times@.len() as int) =~= times@);
    out
}

/// The delta of one interface's byte counters (received, sent) against
/// what was last seen; unseen interfaces count as unchanged; a counter
/// that went back counts 0.
pub open spec fn net_delta(prev: Map<Seq<char>, (u64, u64)>, c: (String, u64, u64)) -> (Seq<char>, u64, u64) {
    let p = if prev.contains_key(c.0@) {
        prev[c.0@]
    } else {
        (c.1, c.2)
    };
    (c.0@, sat_sub(c.1, p.0), sat_sub(c.2, p.1))
}

/// The byte deltas of the interfaces in order, and what is remembered
/// afterwards.
pub open spec fn net_deltas_spec(prev: Map<Seq<char>, (u64, u64)>, cs: Seq<(String, u64, u64)>) -> (Seq<(Seq<char>, u64, u64)>, Map<Seq<char>, (u64, u64)>)
    decreases cs.len(),
{
    if cs.len() == 0 {
        (seq![], prev)
    } else {
        let (ds, m) = net_deltas_spec(prev, cs.drop_last());
        let c = cs.last();
        (ds.push(net_delta(m, c)), m.insert(c.0@, (c.1, c.2)))
    }
}

/// The byte deltas of a new sample's interfaces; `prev` then holds their
/// counters.
pub fn net_deltas(prev: &mut StrMap<(u64, u64)>, counters: &Vec<(String, u64, u64)>) -> (r: Vec<(String, u64, u64)>)
    ensures
        (counter_views(r@), final(prev).view()) == net_deltas_spec(old(prev).view(), counters@),
{
    let mut out: Vec<(String, u64, u64)> = Vec::new();
    let mut i: usize = 0;
    while i < counters.len()
        invariant
            i <= counters@.len(),
            (counter_views(out@), prev.view()) == net_deltas_spec(old(prev).view(), counters@.take(i as int)),
        decreases counters.len() - i,
    {
        proof {
            assert(counters@.take(i + 1).drop_last() =~= counters@.take(i as int));
        }
        let c = &counters[i];
        let p = match prev.get(c.0.as_str()) {
            Some(p) => *p,
            None => (c.1, c.2),
        };
        let d = (c.0.clone(), c.1.saturating_sub(p.0), c.2.saturating_sub(p.1));
        let ghost before = out@;
        out.push(d);
        assert(counter_views(out@) =~= counter_views(before).push(counter_view(d)));
        prev.insert(c.0.clone(), (c.1, c.2));
        i = i + 1;
    }
    assert(counters@.take(counters@.len() as int) =~= counters@);
    out
}

/// The IO counters of a device as last seen.
#[derive(Clone, Copy, Debug)]
pub struct PrevDisk {
    pub reads: u64,
    pub writes: u64,
    pub read_sectors: u64,
    pub write_sectors: u64,
    pub io_ms: u64,
}

/// The counters of `d`, without its name.
pub open spec fn prev_of(d: DiskCounters) -> PrevDisk {
    PrevDisk { reads: d.reads, writes: d.writes, read_sectors: d.read_sectors, write_sectors: d.write_sectors, io_ms: d.io_ms }
}

/// The delta of one device's counters against what was last seen; a
/// device not seen before counts as unchanged (no spike on first sight);
/// a counter that went back counts 0.
pub open spec fn disk_delta(prev: Map<Seq<char>, PrevDisk>, c: DiskCounters) -> (Seq<char>, u64, u64, u64, u64, u64) {
    let p = if prev.contains_key(c.name@) {
        prev[c.name@]
    } else {
        prev_of(c)
    };
    (
        c.name@,
        sat_sub(c.reads, p.reads),
        sat_sub(c.writes, p.writes),
        sat_sub(c.read_sectors, p.read_sectors),
        sat_sub(c.write_sectors, p.write_sectors),
        sat_sub(c.io_ms, p.io_ms),
    )
}

/// The deltas of the devices in order, and what is remembered afterwards.
pub open spec fn disk_deltas_spec(prev: Map<Seq<char>, PrevDisk>, cs: Seq<DiskCounters>) -> (Seq<(Seq<char>, u64, u64, u64, u64, u64)>, Map<Seq<char>, PrevDisk>)
    decreases cs.len(),
{
    if cs.len() == 0 {
        (seq![], prev)
    } else {
        let (ds, m) = disk_deltas_spec(prev, cs.drop_last());
        let c = cs.last();
        (ds.push(disk_delta(m, c)), m.insert(c.name@, prev_of(c)))
    }
}

/// The IO deltas of a new sample's devices (as counters of what happened
/// since the last sample); `prev` then holds their counters.
pub fn disk_deltas(prev: &mut StrMap<PrevDisk>, counters: &Vec<DiskCounters>) -> (r: Vec<DiskCounters>)
    ensures
        (disk_views(r@), final(prev).view()) == disk_deltas_spec(old(prev).view(), counters@),
{
    let mut out: Vec<DiskCounters> = Vec::new();
    let mut i: usize = 0;
    while i < counters.len()
        invariant
            i <= counters@.len(),
            (disk_views(out@), prev.view()) == disk_deltas_spec(old(prev).view(), counters@.take(i as int)),
        decreases counters.len() - i,
    {
        proof {
            assert(counters@.take(i + 1).drop_last() =~= counters@.take(i as int));
        }
        let c = &counters[i];
        let now = PrevDisk {
            reads: c.reads,
            writes: c.writes,
            read_sectors: c.read_sectors,
            write_sectors: c.write_sectors,
            io_ms: c.io_ms,
        };
        let p = match prev.get(c.name.as_str()) {
            Some(p) => *p,
            None => now,
        };
        let d = DiskCounters {
            name: c.name.clone(),
            reads: c.reads.saturating_sub(p.reads),
            writes: c.writes.saturating_sub(p.writes),
            read_sectors: c.read_sectors.saturating_sub(p.read_sectors),
            write_sectors: c.write_sectors.saturating_sub(p.write_sectors),
            io_ms: c.io_ms.saturating_sub(p.io_ms),
        };
        let ghost before = out@;
        out.push(d);
        assert(disk_views(out@) =~= disk_views(before).push(disk_view(d)));
        prev.insert(c.name.clone(), now);
        i = i + 1;
    }
    assert(counters@.take(counters@.len() as int) =~= counters@);
    out
}

/// A device seen for the first time shows no activity, and afterwards its
/// counters are remembered.
pub proof fn lemma_disk_first_sight(prev: Map<Seq<char>, PrevDisk>, c: DiskCounters)
    requires
        !prev.contains_key(c.name@),
    ensures
        disk_deltas_spec(prev, seq![c]).0 == seq![(c.name@, 0u64, 0u64, 0u64, 0u64, 0u64)],
        disk_deltas_spec(prev, seq![c]).1 == prev.insert(c.name@, prev_of(c)),
{
    let cs = seq![c];
    assert(cs.drop_last() =~= Seq::<DiskCounters>::empty());
    assert(cs.last() == c);
    assert(disk_deltas_spec(prev, cs.drop_last()) == (Seq::<(Seq<char>, u64, u64, u64, u64, u64)>::empty(), prev));
    assert(disk_deltas_spec(prev, cs).0 =~= seq![(c.name@, 0u64, 0u64, 0u64, 0u64, 0u64)]);
}

/// An interface seen for the first time shows no traffic, and afterwards
/// its counters are remembered.
pub proof fn lemma_net_first_sight(prev: Map<Seq<char>, (u64, u64)>, c: (String, u64, u64))
    requires
        !prev.contains_key(c.0@),
    ensures
        net_deltas_spec(prev, seq![c]).0 == seq![(c.0@, 0u64, 0u64)],
        net_deltas_spec(prev, seq![c]).1 == prev.insert(c.0@, (c.1, c.2)),
{
    let cs = seq![c];
    assert(cs.drop_last() =~= Seq::<(String, u64, u64)>::empty());
    assert(cs.last() == c);
    assert(net_deltas_spec(prev, cs.drop_last()) == (Seq::<(Seq<char>, u64, u64)>::empty(), prev));
    assert(net_deltas_spec(prev, cs).0 =~= seq![(c.0@, 0u64, 0u64)]);
}

// ---------------------------------------------------------------------------
// Which CPU a line is about
// ---------------------------------------------------------------------------

/// Where a CPU line's figure goes.
#[derive(Clone, Copy, Debug)]
pub enum CpuSlot {
    /// The `cpu` line: all CPUs together.
    Total,
    /// A `cpuN` line.
    Core(usize),
    /// Anything else.
    Other,
}

/// `cpu` is the total; `cpu` followed by a number (as `usize` reads it)
/// is that core.
pub open spec fn cpu_slot_spec(name: Seq<char>) -> CpuSlot {
    if name == "cpu"@ {
        CpuSlot::Total
    } else if "cpu"@.is_prefix_of(name) {
        match parse_uint_spec(name.skip(3), usize::MAX as int) {
            Some(i) => CpuSlot::Core(i as usize),
            None => CpuSlot::Other,
        }
    } else {
        CpuSlot::Other
    }
}

/// The slot of a CPU name.
pub fn cpu_slot(name: &str) -> (s: CpuSlot)
    ensures
        s == cpu_slot_spec(name@),
{
    if same_text(name, "cpu") {
        return CpuSlot::Total;
    }
    proof {
        reveal_strlit("cpu");
    }
    match strip_prefix(name, "cpu") {
        Some(rest) => {
            let v = chars_of(rest.as_str());
            assert(v@.subrange(0, v@.len() as int) =~= v@);
            match parse_uint(&v, 0, v.len(), usize::MAX as u64) {
                Some(i) => CpuSlot::Core(i as usize),
                None => CpuSlot::Other,
            }
        },
        None => CpuSlot::Other,
    }
}

/// Sets `v[i]` to `x`, first growing `v` with `fill` up to `i`.
pub fn put_at<T: Copy>(v: &mut Vec<T>, i: usize, x: T, fill: T)
    requires
        i < usize::MAX,
    ensures
        final(v)@.len() == (if old(v)@.len() > i { old(v)@.len() as int } else { i + 1 }),
        final(v)@[i as int] == x,
        forall|j: int| 0 <= j < old(v)@.len() && j != i ==> final(v)@[j] == old(v)@[j],
        forall|j: int| old(v)@.len() <= j < final(v)@.len() && j != i ==> final(v)@[j] == fill,
{
    while v.len() <= i
        invariant
            i < usize::MAX,
            v@.len() <= (if old(v)@.len() > i { old(v)@.len() as int } else { i + 1 }),
            old(v)@.len() <= v@.len(),
            forall|j: int| 0 <= j < old(v)@.len() ==> v@[j] == old(v)@[j],
            forall|j: int| old(v)@.len() <= j < v@.len() ==> v@[j] == fill,
        decreases i + 1 - v.len(),
    {
        v.push(fill);
    }
    v.set(i, x);
}

// ---------------------------------------------------------------------------
// Temperature sensors
// ---------------------------------------------------------------------------

/// The sensor index of a hwmon file name `temp<idx>_input`.
pub open spec fn temp_index_spec(f: Seq<char>) -> Option<Seq<char>> {
    if "temp"@.is_prefix_of(f) && "_input"@.is_suffix_of(f.skip(4)) {
        Some(f.skip(4).take(f.len() - 4 - 6))
    } else {
        None
    }
}

/// The sensor index of a hwmon file, if it is a temperature input.
pub fn temp_index(file: &str) -> (r: Option<String>)
    ensures
        match r {
            Some(i) => temp_index_spec(file@) == Some(i@),
            None => temp_index_spec(file@) is None,
        },
{
    proof {
        reveal_strlit("temp");
        reveal_strlit("_input");
    }
    match strip_prefix(file, "temp") {
        Some(rest) => match strip_suffix(rest.as_str(), "_input") {
            Some(idx) => Some(idx),
            None => None,
        },
        None => None,
    }
}

/// A hwmon file is a temperature input exactly when its name is `temp`,
/// an index and `_input`; the index read is that middle part.
pub proof fn lemma_temp_index_exact(f: Seq<char>, idx: Seq<char>)
    ensures
        temp_index_spec(f) == Some(idx) <==> f == "temp"@ + idx + "_input"@,
{
    reveal_strlit("temp");
    reveal_strlit("_input");
    if f == "temp"@ + idx + "_input"@ {
        assert(f.take(4) =~= "temp"@);
        assert(f.skip(4) =~= idx + "_input"@);
        let r = f.skip(4);
        assert(r.skip(r.len() - 6) =~= "_input"@);
        assert(f.skip(4).take(f.len() - 4 - 6) =~= idx);
    }
    if temp_index_spec(f) == Some(idx) {
        let r = f.skip(4);
        assert("temp"@ =~= f.subrange(0, 4));
        assert("_input"@ =~= r.subrange(r.len() - 6, r.len() as int));
        assert(idx =~= r.subrange(0, r.len() - 6));
        assert(f =~= "temp"@ + idx + "_input"@);
    }
}

/// The file that may label sensor `idx`: `temp<idx>_label`.
pub fn temp_label_file(idx: &str) -> (f: String)
    ensures
        f@ == "temp"@ + idx@ + "_label"@,
{
    let mut f = "temp".to_owned();
    f.append(idx);
    f.append("_label");
    f
}

/// A sensor's name: its label (trimmed), or the chip's name (trimmed), a
/// space and the index when there is no label.
pub open spec fn temp_name_spec(chip: Seq<char>, idx: Seq<char>, label: Seq<char>) -> Seq<char> {
    if trim_spec(label).len() == 0 {
        trim_spec(chip) + " "@ + idx
    } else {
        trim_spec(label)
    }
}

/// A sensor's name from the contents of its chip's `name` file and of its
/// label file (empty when missing).
pub fn temp_name(chip: &str, idx: &str, label: &str) -> (n: String)
    ensures
        n@ == temp_name_spec(chip@, idx@, label@),
{
    let l = trim(label);
    if l.as_str().is_empty() {
        let mut n = trim(chip);
        n.append(" ");
        n.append(idx);
        n
    } else {
        l
    }
}

// ---------------------------------------------------------------------------
// Series names
// ---------------------------------------------------------------------------

/// Characters kept in series names: ASCII letters and digits, `.`, `-`
/// and `_`.
pub open spec fn name_char(c: char) -> bool {
    ('a' <= c && c <= 'z') || ('A' <= c && c <= 'Z') || ('0' <= c && c <= '9') || c == '.' || c
        == '-' || c == '_'
}

/// A kept character, or `-`.
pub open spec fn sanitize_char(c: char) -> char {
    if name_char(c) {
        c
    } else {
        '-'
    }
}

/// Every character mapped by `sanitize_char`, then leading and trailing
/// `-` removed.
pub open spec fn sanitize_spec(s: Seq<char>) -> Seq<char> {
    strip_trailing(strip_leading(s.map_values(|c: char| sanitize_char(c)), '-'), '-')
}

/// A series-name fragment from free text (a mount point, a sensor name):
/// anything but ASCII letters, digits, `.`, `-` and `_` becomes `-`, and
/// `-` at either end is dropped.
pub fn sanitize(s: &str) -> (r: String)
    ensures
        r@ == sanitize_spec(s@),
{
    let v = chars_of(s);
    let mut m = String::new();
    let mut i: usize = 0;
    while i < v.len()
        invariant
            i <= v@.len(),
            v@ == s@,
            m@ == s@.take(i as int).map_values(|c: char| sanitize_char(c)),
        decreases v.len() - i,
    {
        let c = v[i];
        let k = if ('a' <= c && c <= 'z') || ('A' <= c && c <= 'Z') || ('0' <= c && c <= '9') || c
            == '.' || c == '-' || c == '_' {
            c
        } else {
            '-'
        };
        crate::text::push_char(&mut m, k);
        assert(s@.take(i + 1).map_values(|c: char| sanitize_char(c)) =~= s@.take(i as int).map_values(
            |c: char| sanitize_char(c),
        ).push(k));
        i = i + 1;
    }
    assert(s@.take(v@.len() as int) =~= s@);
    let t = crate::text::trim_start_char(m.as_str(), '-');
    crate::text::trim_end_char(t.as_str(), '-')
}

proof fn lemma_strip_leading_props(s: Seq<char>, c: char)
    ensures
        strip_leading(s, c).len() <= s.len(),
        strip_leading(s, c).len() > 0 ==> strip_leading(s, c)[0] != c,
        exists|k: int| 0 <= k <= s.len() && strip_leading(s, c) == #[trigger] s.skip(k),
    decreases s.len(),
{
    if s.len() > 0 && s[0] == c {
        lemma_strip_leading_props(s.drop_first(), c);
        let k = choose|k: int| 0 <= k <= s.drop_first().len() && strip_leading(s.drop_first(), c) == #[trigger] s.drop_first().skip(k);
        assert(s.drop_first().skip(k) =~= s.skip(k + 1));
    } else {
        assert(s.skip(0) =~= s);
    }
}

proof fn lemma_strip_trailing_props(s: Seq<char>, c: char)
    ensures
        strip_trailing(s, c).len() > 0 ==> strip_trailing(s, c).last() != c,
        exists|k: int| 0 <= k <= s.len() && strip_trailing(s, c) == #[trigger] s.take(k),
    decreases s.len(),
{
    if s.len() > 0 && s.last() == c {
        lemma_strip_trailing_props(s.drop_last(), c);
        let k = choose|k: int| 0 <= k <= s.drop_last().len() && strip_trailing(s.drop_last(), c) == #[trigger] s.drop_last().take(k);
        assert(s.drop_last().take(k) =~= s.take(k));
    } else {
        assert(s.take(s.len() as int) =~= s);
    }
}

/// A sanitized name holds only ASCII letters, digits, `.`, `-` and `_`,
/// and neither starts nor ends with `-`.
pub proof fn lemma_sanitize_charset(s: Seq<char>)
    ensures
        forall|i: int| 0 <= i < sanitize_spec(s).len() ==> name_char(#[trigger] sanitize_spec(s)[i]),
        sanitize_spec(s).len() > 0 ==> sanitize_spec(s)[0] != '-' && sanitize_spec(s).last() != '-',
{
    let m = s.map_values(|c: char| sanitize_char(c));
    let a = strip_leading(m, '-');
    let b = strip_trailing(a, '-');
    lemma_strip_leading_props(m, '-');
    lemma_strip_trailing_props(a, '-');
    let k1 = choose|k: int| 0 <= k <= m.len() && a == #[trigger] m.skip(k);
    let k2 = choose|k: int| 0 <= k <= a.len() && b == #[trigger] a.take(k);
    assert forall|i: int| 0 <= i < b.len() implies name_char(#[trigger] b[i]) by {
        assert(b[i] == a[i]);
        assert(a[i] == m[i + k1]);
    }
    if b.len() > 0 {
        assert(b[0] == a[0]);
    }
}

proof fn lemma_strip_leading_noop(s: Seq<char>, c: char)
    requires
        s.len() == 0 || s[0] != c,
    ensures
        strip_leading(s, c) == s,
{
}

proof fn lemma_strip_trailing_noop(s: Seq<char>, c: char)
    requires
        s.len() == 0 || s.last() != c,
    ensures
        strip_trailing(s, c) == s,
{
}

/// Sanitizing a sanitized name changes nothing.
pub proof fn lemma_sanitize_idempotent(s: Seq<char>)
    ensures
        sanitize_spec(sanitize_spec(s)) == sanitize_spec(s),
{
    let t = sanitize_spec(s);
    lemma_sanitize_charset(s);
    let m = t.map_values(|c: char| sanitize_char(c));
    assert(m =~= t);
    lemma_strip_leading_noop(t, '-');
    lemma_strip_trailing_noop(t, '-');
}

/// The key of a mount point in series names: the sanitized mount point,
/// or `root` when nothing is left of it (the root file system, `/`).
pub open spec fn mount_key(mount: Seq<char>) -> Seq<char> {
    if sanitize_spec(mount).len() == 0 {
        "root"@
    } else {
        sanitize_spec(mount)
    }
}

/// The key of a mount point in series names.
pub fn mount_key_of(mount: &str) -> (r: String)
    ensures
        r@ == mount_key(mount@),
        r@.len() > 0,
{
    let s = sanitize(mount);
    if s.as_str().is_empty() {
        proof {
            reveal_strlit("root");
        }
        "root".to_owned()
    } else {
        s
    }
}

/// The names of the series of space used and free on a mount, as the
/// backend writes them: `fs.<mount key>.used` and `.avail`.
pub open spec fn fs_series_names(mount: Seq<char>) -> (Seq<char>, Seq<char>) {
    ("fs."@ + mount_key(mount) + ".used"@, "fs."@ + mount_key(mount) + ".avail"@)
}

/// The series of the space used and free on the file system mounted at
/// `mount`.
pub fn fs_series(mount: &str) -> (r: (String, String))
    ensures
        (r.0@, r.1@) == fs_series_names(mount@),
{
    let m = mount_key_of(mount);
    let mut used = "fs.".to_owned();
    used.append(m.as_str());
    used.append(".used");
    let mut avail = "fs.".to_owned();
    avail.append(m.as_str());
    avail.append(".avail");
    (used, avail)
}

/// The name of a temperature sensor's series, as the backend writes it.
pub open spec fn temp_series_name(name: Seq<char>) -> Seq<char> {
    "temp."@ + sanitize_spec(name)
}

/// The series of a temperature sensor: `temp.<sanitized name>`.
pub fn temp_series(name: &str) -> (r: String)
    ensures
        r@ == temp_series_name(name@),
{
    let mut r = "temp.".to_owned();
    let m = sanitize(name);
    r.append(m.as_str());
    r
}

/// The name of one CPU core's series, as the backend writes it.
pub open spec fn core_series_name(i: nat) -> Seq<char> {
    "cpu.core."@ + crate::text::decimal(i)
}

/// The series of one CPU core: `cpu.core.<i>`.
pub fn core_series(i: u64) -> (r: String)
    ensures
        r@ == core_series_name(i as nat),
{
    let mut r = "cpu.core.".to_owned();
    crate::text::push_decimal(&mut r, i);
    r
}

/// The series of an interface's traffic: `net.<iface>.rx` and `.tx`.
pub fn net_series(iface: &str) -> (r: (String, String))
    ensures
        r.0@ == "net."@ + iface@ + ".rx"@,
        r.1@ == "net."@ + iface@ + ".tx"@,
{
    let mut rx = "net.".to_owned();
    rx.append(iface);
    rx.append(".rx");
    let mut tx = "net.".to_owned();
    tx.append(iface);
    tx.append(".tx");
    (rx, tx)
}

fn dotted(prefix: &str, name: &str, suffix: &str) -> (r: String)
    ensures
        r@ == prefix@ + name@ + suffix@,
{
    let mut r = prefix.to_owned();
    r.append(name);
    r.append(suffix);
    r
}

/// The series of a block device's IO: `disk.<dev>.read`, `.write`,
/// `.read.iops`, `.write.iops` and `.util`, in that order.
pub fn disk_series(dev: &str) -> (r: Vec<String>)
    ensures
        views(r@) == seq![
            "disk."@ + dev@ + ".read"@,
            "disk."@ + dev@ + ".write"@,
            "disk."@ + dev@ + ".read.iops"@,
            "disk."@ + dev@ + ".write.iops"@,
            "disk."@ + dev@ + ".util"@,
        ],
{
    let r = vec![
        dotted("disk.", dev, ".read"),
        dotted("disk.", dev, ".write"),
        dotted("disk.", dev, ".read.iops"),
        dotted("disk.", dev, ".write.iops"),
        dotted("disk.", dev, ".util"),
    ];
    assert(views(r@) =~= seq![
        "disk."@ + dev@ + ".read"@,
        "disk."@ + dev@ + ".write"@,
        "disk."@ + dev@ + ".read.iops"@,
        "disk."@ + dev@ + ".write.iops"@,
        "disk."@ + dev@ + ".util"@,
    ]);
    r
}

// ---------------------------------------------------------------------------
// What the deltas are
// ---------------------------------------------------------------------------

proof fn lemma_disk_deltas_len(prev: Map<Seq<char>, PrevDisk>, cs: Seq<DiskCounters>)
    ensures
        disk_deltas_spec(prev, cs).0.len() == cs.len(),
    decreases cs.len(),
{
    if cs.len() > 0 {
        lemma_disk_deltas_len(prev, cs.drop_last());
    }
}

proof fn lemma_disk_deltas_at(prev: Map<Seq<char>, PrevDisk>, cs: Seq<DiskCounters>, i: int)
    requires
        0 <= i < cs.len(),
    ensures
        disk_deltas_spec(prev, cs).0[i] == disk_delta(disk_deltas_spec(prev, cs.take(i)).1, cs[i]),
    decreases cs.len(),
{
    lemma_disk_deltas_len(prev, cs.drop_last());
    if i == cs.len() - 1 {
        assert(cs.drop_last() =~= cs.take(i));
    } else {
        lemma_disk_deltas_at(prev, cs.drop_last(), i);
        assert(cs.drop_last().take(i) =~= cs.take(i));
    }
}

proof fn lemma_disk_deltas_untouched(prev: Map<Seq<char>, PrevDisk>, cs: Seq<DiskCounters>, k: Seq<char>)
    requires
        forall|j: int| 0 <= j < cs.len() ==> (#[trigger] cs[j]).name@ != k,
    ensures
        disk_deltas_spec(prev, cs).1.contains_key(k) == prev.contains_key(k),
        prev.contains_key(k) ==> disk_deltas_spec(prev, cs).1[k] == prev[k],
    decreases cs.len(),
{
    if cs.len() > 0 {
        assert forall|j: int| 0 <= j < cs.drop_last().len() implies (#[trigger] cs.drop_last()[j]).name@ != k by {
            assert(cs.drop_last()[j] == cs[j]);
        }
        assert(cs[cs.len() - 1] == cs.last());
        lemma_disk_deltas_untouched(prev, cs.drop_last(), k);
    }
}

proof fn lemma_disk_deltas_last(prev: Map<Seq<char>, PrevDisk>, cs: Seq<DiskCounters>, i: int)
    requires
        0 <= i < cs.len(),
        forall|j: int| i < j < cs.len() ==> (#[trigger] cs[j]).name@ != cs[i].name@,
    ensures
        disk_deltas_spec(prev, cs).1.contains_key(cs[i].name@),
        disk_deltas_spec(prev, cs).1[cs[i].name@] == disk_deltas_spec(prev, cs.take(i + 1)).1[cs[i].name@],
    decreases cs.len(),
{
    if i == cs.len() - 1 {
        assert(cs.take(i + 1) =~= cs);
    } else {
        assert forall|j: int| i < j < cs.drop_last().len() implies (#[trigger] cs.drop_last()[j]).name@ != cs.drop_last()[i].name@ by {
            assert(cs.drop_last()[j] == cs[j]);
        }
        lemma_disk_deltas_last(prev, cs.drop_last(), i);
        assert(cs.drop_last()[i] == cs[i]);
        assert(cs.drop_last().take(i + 1) =~= cs.take(i + 1));
        assert(cs[cs.len() - 1] == cs.last());
    }
}

proof fn lemma_net_deltas_len(prev: Map<Seq<char>, (u64, u64)>, cs: Seq<(String, u64, u64)>)
    ensures
        net_deltas_spec(prev, cs).0.len() == cs.len(),
    decreases cs.len(),
{
    if cs.len() > 0 {
        lemma_net_deltas_len(prev, cs.drop_last());
    }
}

proof fn lemma_net_deltas_at(prev: Map<Seq<char>, (u64, u64)>, cs: Seq<(String, u64, u64)>, i: int)
    requires
        0 <= i < cs.len(),
    ensures
        net_deltas_spec(prev, cs).0[i] == net_delta(net_deltas_spec(prev, cs.take(i)).1, cs[i]),
    decreases cs.len(),
{
    lemma_net_deltas_len(prev, cs.drop_last());
    if i == cs.len() - 1 {
        assert(cs.drop_last() =~= cs.take(i));
    } else {
        lemma_net_deltas_at(prev, cs.drop_last(), i);
        assert(cs.drop_last().take(i) =~= cs.take(i));
    }
}

proof fn lemma_net_deltas_untouched(prev: Map<Seq<char>, (u64, u64)>, cs: Seq<(String, u64, u64)>, k: Seq<char>)
    requires
        forall|j: int| 0 <= j < cs.len() ==> (#[trigger] cs[j]).0@ != k,
    ensures
        net_deltas_spec(prev, cs).1.contains_key(k) == prev.contains_key(k),
        prev.contains_key(k) ==> net_deltas_spec(prev, cs).1[k] == prev[k],
    decreases cs.len(),
{
    if cs.len() > 0 {
        assert forall|j: int| 0 <= j < cs.drop_last().len() implies (#[trigger] cs.drop_last()[j]).0@ != k by {
            assert(cs.drop_last()[j] == cs[j]);
        }
        assert(cs[cs.len() - 1] == cs.last());
        lemma_net_deltas_untouched(prev, cs.drop_last(), k);
    }
}

proof fn lemma_net_deltas_last(prev: Map<Seq<char>, (u64, u64)>, cs: Seq<(String, u64, u64)>, i: int)
    requires
        0 <= i < cs.len(),
        forall|j: int| i < j < cs.len() ==> (#[trigger] cs[j]).0@ != cs[i].0@,
    ensures
        net_deltas_spec(prev, cs).1.contains_key(cs[i].0@),
        net_deltas_spec(prev, cs).1[cs[i].0@] == net_deltas_spec(prev, cs.take(i + 1)).1[cs[i].0@],
    decreases cs.len(),
{
    if i == cs.len() - 1 {
        assert(cs.take(i + 1) =~= cs);
    } else {
        assert forall|j: int| i < j < cs.drop_last().len() implies (#[trigger] cs.drop_last()[j]).0@ != cs.drop_last()[i].0@ by {
            assert(cs.drop_last()[j] == cs[j]);
        }
        lemma_net_deltas_last(prev, cs.drop_last(), i);
        assert(cs.drop_last()[i] == cs[i]);
        assert(cs.drop_last().take(i + 1) =~= cs.take(i + 1));
        assert(cs[cs.len() - 1] == cs.last());
    }
}

proof fn lemma_cpu_deltas_len(prev: Map<Seq<char>, PrevCpu>, cs: Seq<CpuTimes>)
    ensures
        cpu_deltas_spec(prev, cs).0.len() == cs.len(),
    decreases cs.len(),
{
    if cs.len() > 0 {
        lemma_cpu_deltas_len(prev, cs.drop_last());
    }
}

proof fn lemma_cpu_deltas_at(prev: Map<Seq<char>, PrevCpu>, cs: Seq<CpuTimes>, i: int)
    requires
        0 <= i < cs.len(),
    ensures
        cpu_deltas_spec(prev, cs).0[i] == cpu_delta(cpu_deltas_spec(prev, cs.take(i)).1, cs[i]),
    decreases cs.len(),
{
    lemma_cpu_deltas_len(prev, cs.drop_last());
    if i == cs.len() - 1 {
        assert(cs.drop_last() =~= cs.take(i));
    } else {
        lemma_cpu_deltas_at(prev, cs.drop_last(), i);
        assert(cs.drop_last().take(i) =~= cs.take(i));
    }
}

proof fn lemma_cpu_deltas_untouched(prev: Map<Seq<char>, PrevCpu>, cs: Seq<CpuTimes>, k: Seq<char>)
    requires
        forall|j: int| 0 <= j < cs.len() ==> (#[trigger] cs[j]).name@ != k,
    ensures
        cpu_deltas_spec(prev, cs).1.contains_key(k) == prev.contains_key(k),
        prev.contains_key(k) ==> cpu_deltas_spec(prev, cs).1[k] == prev[k],
    decreases cs.len(),
{
    if cs.len() > 0 {
        assert forall|j: int| 0 <= j < cs.drop_last().len() implies (#[trigger] cs.drop_last()[j]).name@ != k by {
            assert(cs.drop_last()[j] == cs[j]);
        }
        assert(cs[cs.len() - 1] == cs.last());
        lemma_cpu_deltas_untouched(prev, cs.drop_last(), k);
    }
}

proof fn lemma_cpu_deltas_last(prev: Map<Seq<char>, PrevCpu>, cs: Seq<CpuTimes>, i: int)
    requires
        0 <= i < cs.len(),
        forall|j: int| i < j < cs.len() ==> (#[trigger] cs[j]).name@ != cs[i].name@,
    ensures
        cpu_deltas_spec(prev, cs).1.contains_key(cs[i].name@),
        cpu_deltas_spec(prev, cs).1[cs[i].name@] == cpu_deltas_spec(prev, cs.take(i + 1)).1[cs[i].name@],
    decreases cs.len(),
{
    if i == cs.len() - 1 {
        assert(cs.take(i + 1) =~= cs);
    } else {
        assert forall|j: int| i < j < cs.drop_last().len() implies (#[trigger] cs.drop_last()[j]).name@ != cs.drop_last()[i].name@ by {
            assert(cs.drop_last()[j] == cs[j]);
        }
        lemma_cpu_deltas_last(prev, cs.drop_last(), i);
        assert(cs.drop_last()[i] == cs[i]);
        assert(cs.drop_last().take(i + 1) =~= cs.take(i + 1));
        assert(cs[cs.len() - 1] == cs.last());
    }
}

/// `now - before`, or 0 when the counter went back.
pub open spec fn counter_gain(now: u64, before: u64) -> u64 {
    if now >= before {
        (now - before) as u64
    } else {
        0
    }
}

/// The delta of a device (its first occurrence in the sample) is, field by
/// field, its counter less the same counter as last seen: reads against
/// reads, writes against writes, sectors read against sectors read,
/// sectors written against sectors written, IO time against IO time,
/// saturating at 0; a device not seen before shows no activity at all.
pub proof fn lemma_disk_deltas_fieldwise(prev: Map<Seq<char>, PrevDisk>, cs: Seq<DiskCounters>, i: int)
    requires
        0 <= i < cs.len(),
        forall|j: int| 0 <= j < i ==> (#[trigger] cs[j]).name@ != cs[i].name@,
    ensures
        disk_deltas_spec(prev, cs).0.len() == cs.len(),
        ({
            let c = cs[i];
            let d = disk_deltas_spec(prev, cs).0[i];
            &&& d.0 == c.name@
            &&& prev.contains_key(c.name@) ==> {
                let p = prev[c.name@];
                &&& d.1 == counter_gain(c.reads, p.reads)
                &&& d.2 == counter_gain(c.writes, p.writes)
                &&& d.3 == counter_gain(c.read_sectors, p.read_sectors)
                &&& d.4 == counter_gain(c.write_sectors, p.write_sectors)
                &&& d.5 == counter_gain(c.io_ms, p.io_ms)
            }
            &&& !prev.contains_key(c.name@) ==> d.1 == 0 && d.2 == 0 && d.3 == 0 && d.4 == 0 && d.5 == 0
        }),
{
    lemma_disk_deltas_len(prev, cs);
    lemma_disk_deltas_at(prev, cs, i);
    assert forall|j: int| 0 <= j < cs.take(i).len() implies (#[trigger] cs.take(i)[j]).name@ != cs[i].name@ by {
        assert(cs.take(i)[j] == cs[j]);
    }
    lemma_disk_deltas_untouched(prev, cs.take(i), cs[i].name@);
}

/// After a sample, what is remembered of each device is its counters in
/// that sample (its last occurrence), field by field.
pub proof fn lemma_disk_deltas_remember(prev: Map<Seq<char>, PrevDisk>, cs: Seq<DiskCounters>, i: int)
    requires
        0 <= i < cs.len(),
        forall|j: int| i < j < cs.len() ==> (#[trigger] cs[j]).name@ != cs[i].name@,
    ensures
        ({
            let c = cs[i];
            let m = disk_deltas_spec(prev, cs).1;
            &&& m.contains_key(c.name@)
            &&& m[c.name@].reads == c.reads && m[c.name@].writes == c.writes
            &&& m[c.name@].read_sectors == c.read_sectors && m[c.name@].write_sectors == c.write_sectors
            &&& m[c.name@].io_ms == c.io_ms
        }),
{
    lemma_disk_deltas_last(prev, cs, i);
    assert(cs.take(i + 1).drop_last() =~= cs.take(i));
    assert(cs.take(i + 1).last() == cs[i]);
}

/// The delta of an interface (its first occurrence in the sample) is its
/// received bytes less the received bytes last seen, and its sent bytes
/// less the sent bytes last seen, saturating at 0; an interface not seen
/// before shows no traffic.
pub proof fn lemma_net_deltas_fieldwise(prev: Map<Seq<char>, (u64, u64)>, cs: Seq<(String, u64, u64)>, i: int)
    requires
        0 <= i < cs.len(),
        forall|j: int| 0 <= j < i ==> (#[trigger] cs[j]).0@ != cs[i].0@,
    ensures
        net_deltas_spec(prev, cs).0.len() == cs.len(),
        ({
            let c = cs[i];
            let d = net_deltas_spec(prev, cs).0[i];
            &&& d.0 == c.0@
            &&& prev.contains_key(c.0@) ==> d.1 == counter_gain(c.1, prev[c.0@].0) && d.2 == counter_gain(
                c.2,
                prev[c.0@].1,
            )
            &&& !prev.contains_key(c.0@) ==> d.1 == 0 && d.2 == 0
        }),
{
    lemma_net_deltas_len(prev, cs);
    lemma_net_deltas_at(prev, cs, i);
    assert forall|j: int| 0 <= j < cs.take(i).len() implies (#[trigger] cs.take(i)[j]).0@ != cs[i].0@ by {
        assert(cs.take(i)[j] == cs[j]);
    }
    lemma_net_deltas_untouched(prev, cs.take(i), cs[i].0@);
}

/// After a sample, what is remembered of each interface is its (received,
/// sent) counters in that sample.
pub proof fn lemma_net_deltas_remember(prev: Map<Seq<char>, (u64, u64)>, cs: Seq<(String, u64, u64)>, i: int)
    requires
        0 <= i < cs.len(),
        forall|j: int| i < j < cs.len() ==> (#[trigger] cs[j]).0@ != cs[i].0@,
    ensures
        net_deltas_spec(prev, cs).1.contains_key(cs[i].0@),
        net_deltas_spec(prev, cs).1[cs[i].0@] == (cs[i].1, cs[i].2),
{
    lemma_net_deltas_last(prev, cs, i);
    assert(cs.take(i + 1).drop_last() =~= cs.take(i));
    assert(cs.take(i + 1).last() == cs[i]);
}

/// The delta of a CPU (its first occurrence in the sample): when its tick
/// total grew since last seen, the idle ticks gained and the ticks gained;
/// otherwise, or when it was not seen before, nothing (0 % busy).
pub proof fn lemma_cpu_deltas_fieldwise(prev: Map<Seq<char>, PrevCpu>, cs: Seq<CpuTimes>, i: int)
    requires
        0 <= i < cs.len(),
        forall|j: int| 0 <= j < i ==> (#[trigger] cs[j]).name@ != cs[i].name@,
    ensures
        cpu_deltas_spec(prev, cs).0.len() == cs.len(),
        ({
            let c = cs[i];
            let d = cpu_deltas_spec(prev, cs).0[i];
            &&& d.0 == c.name@
            &&& (prev.contains_key(c.name@) && c.total > prev[c.name@].total) ==> d.1 == counter_gain(
                c.idle,
                prev[c.name@].idle,
            ) && d.2 == c.total - prev[c.name@].total
            &&& !(prev.contains_key(c.name@) && c.total > prev[c.name@].total) ==> d.1 == 0 && d.2 == 0
        }),
{
    lemma_cpu_deltas_len(prev, cs);
    lemma_cpu_deltas_at(prev, cs, i);
    assert forall|j: int| 0 <= j < cs.take(i).len() implies (#[trigger] cs.take(i)[j]).name@ != cs[i].name@ by {
        assert(cs.take(i)[j] == cs[j]);
    }
    lemma_cpu_deltas_untouched(prev, cs.take(i), cs[i].name@);
}

/// After a sample, what is remembered of each CPU is its idle and total
/// ticks in that sample.
pub proof fn lemma_cpu_deltas_remember(prev: Map<Seq<char>, PrevCpu>, cs: Seq<CpuTimes>, i: int)
    requires
        0 <= i < cs.len(),
        forall|j: int| i < j < cs.len() ==> (#[trigger] cs[j]).name@ != cs[i].name@,
    ensures
        cpu_deltas_spec(prev, cs).1.contains_key(cs[i].name@),
        cpu_deltas_spec(prev, cs).1[cs[i].name@].idle == cs[i].idle,
        cpu_deltas_spec(prev, cs).1[cs[i].name@].total == cs[i].total,
{
    lemma_cpu_deltas_last(prev, cs, i);
    assert(cs.take(i + 1).drop_last() =~= cs.take(i));
    assert(cs.take(i + 1).last() == cs[i]);
}

// ---------------------------------------------------------------------------
// What the parsers read
// ---------------------------------------------------------------------------

/// Each figure of `/proc/meminfo` comes from its own key, in bytes (the
/// kB value times 1024): `MemTotal` the total, `MemAvailable` the
/// available memory, `MemFree` the free memory, `Buffers` the buffers,
/// `Cached` the cache, `SwapTotal` the swap total; `SwapFree` sets swap
/// used to the swap total less the free swap. A line changes no other
/// figure, and a line without a number changes nothing.
pub proof fn lemma_meminfo_line_fields(m: MemInfo, line: Seq<char>)
    ensures
        ({
            let ws = words_spec(line);
            let r = meminfo_line(m, line);
            if ws.len() >= 2 && parse_uint_spec(ws[1], u64::MAX as int) is Some {
                let kb = (parse_uint_spec(ws[1], u64::MAX as int)->0 * 1024) as u64;
                let k = ws[0];
                &&& r.total == (if k == "MemTotal:"@ { kb } else { m.total })
                &&& r.available == (if k == "MemAvailable:"@ { kb } else { m.available })
                &&& r.free == (if k == "MemFree:"@ { kb } else { m.free })
                &&& r.buffers == (if k == "Buffers:"@ { kb } else { m.buffers })
                &&& r.cache == (if k == "Cached:"@ { kb } else { m.cache })
                &&& r.swap_total == (if k == "SwapTotal:"@ { kb } else { m.swap_total })
                &&& r.swap_used == (if k == "SwapFree:"@ {
                    if m.swap_total >= kb { (m.swap_total - kb) as u64 } else { 0u64 }
                } else {
                    m.swap_used
                })
            } else {
                r == m
            }
        }),
{
    reveal_strlit("MemTotal:");
    reveal_strlit("MemAvailable:");
    reveal_strlit("MemFree:");
    reveal_strlit("Buffers:");
    reveal_strlit("Cached:");
    reveal_strlit("SwapTotal:");
    reveal_strlit("SwapFree:");
    assert("MemTotal:"@.len() == 9 && "MemAvailable:"@.len() == 13 && "MemFree:"@.len() == 8);
    assert("Buffers:"@.len() == 8 && "Cached:"@.len() == 7 && "SwapTotal:"@.len() == 10);
    assert("SwapFree:"@.len() == 9);
    assert("MemTotal:"@[0] != "SwapFree:"@[0]);
    assert("MemFree:"@[0] != "Buffers:"@[0]);
}

/// An interface line of `/proc/net/dev` gives the name before the colon
/// (trimmed), the received bytes (the first number after the colon) and
/// the sent bytes (the ninth).
pub proof fn lemma_net_line_fields(line: Seq<char>, i: int)
    requires
        find_char(line, ':') == Some(i),
        numbers(words_spec(line.skip(i + 1))).len() >= 9,
    ensures
        net_line(line) == Some(
            (
                trim_spec(line.take(i)),
                numbers(words_spec(line.skip(i + 1)))[0],
                numbers(words_spec(line.skip(i + 1)))[8],
            ),
        ),
{
}

/// A `/proc/diskstats` line (major, minor, name, then the counters) gives
/// reads completed (field 4), sectors read (field 6), writes completed
/// (field 8), sectors written (field 10) and milliseconds doing IO
/// (field 13), counting from 1.
pub proof fn lemma_disk_line_fields(line: Seq<char>)
    requires
        words_spec(line).len() >= 14,
        number_or_zero(words_spec(line)[0]) != 7,
    ensures
        ({
            let f = words_spec(line);
            let d = disk_line(line)->0;
            &&& disk_line(line) is Some
            &&& d.0 == f[2]
            &&& d.1 == number_or_zero(f[3]) && d.3 == number_or_zero(f[5])
            &&& d.2 == number_or_zero(f[7]) && d.4 == number_or_zero(f[9])
            &&& d.5 == number_or_zero(f[12])
        }),
{
}

/// A CPU line's idle ticks are the idle and iowait columns (the fourth and
/// fifth numbers) and never exceed its total, the sum of all its numbers.
pub proof fn lemma_cpu_line_fields(line: Seq<char>)
    requires
        cpu_line(line) is Some,
    ensures
        ({
            let vals = numbers(words_after(words_spec(line), 1));
            let c = cpu_line(line)->0;
            &&& vals.len() >= 4
            &&& c.1 == vals[3] + (if vals.len() > 4 { vals[4] as int } else { 0 })
            &&& c.2 == sum_of(vals)
            &&& c.1 <= c.2
        }),
{
    let vals = numbers(words_after(words_spec(line), 1));
    if vals.len() > 4 {
        lemma_sum_two(vals, 3, 4);
    } else {
        lemma_sum_one(vals, 3);
    }
}

/// The used and available space of a file system: when nothing
/// saturates, used space plus free space is the total, and available
/// space is the blocks available to users in bytes.
pub proof fn lemma_usage_relations(m: (Seq<char>, Seq<char>, Seq<char>), st: StatVfs)
    requires
        st.frsize > 0,
        st.blocks > 0,
        st.bfree <= st.blocks,
        st.blocks * st.frsize <= u64::MAX,
        st.bavail * st.frsize <= u64::MAX,
    ensures
        ({
            let u = usage_of(m, Some(st))->0;
            &&& usage_of(m, Some(st)) is Some
            &&& u.0 == m.0 && u.1 == m.1 && u.2 == m.2
            &&& u.3 == st.blocks * st.frsize
            &&& u.4 + st.bfree * st.frsize == u.3
            &&& u.5 == st.bavail * st.frsize
        }),
{
    assert((st.blocks - st.bfree) * st.frsize <= st.blocks * st.frsize) by (nonlinear_arith)
        requires
            st.bfree <= st.blocks,
    ;
    assert((st.blocks - st.bfree) * st.frsize + st.bfree * st.frsize == st.blocks * st.frsize) by (nonlinear_arith);
}

/// `cpu` followed by the decimal digits of `n` is core `n`, and `cpu`
/// alone is the total.
pub proof fn lemma_cpu_slot_of_core(n: usize)
    ensures
        cpu_slot_spec("cpu"@ + crate::text::decimal(n as nat)) == CpuSlot::Core(n),
        cpu_slot_spec("cpu"@) == CpuSlot::Total,
{
    reveal_strlit("cpu");
    let d = crate::text::decimal(n as nat);
    crate::text::lemma_decimal_digits(n as nat);
    let name = "cpu"@ + d;
    assert(name.len() > 3);
    assert(name != "cpu"@);
    assert("cpu"@ =~= name.subrange(0, 3));
    assert(name.skip(3) =~= d);
    assert(crate::text::unsigned_body(d) =~= d);
}

/// A mount is taken exactly when its source is a `/dev/` device other
/// than a loop device, and it is read as (source, mount point, type).
pub proof fn lemma_mount_line_taken(line: Seq<char>)
    requires
        words_spec(line).len() >= 3,
    ensures
        ({
            let ws = words_spec(line);
            &&& mount_line(line) is Some <==> ("/dev/"@.is_prefix_of(ws[0]) && !"/dev/loop"@.is_prefix_of(ws[0]))
            &&& mount_line(line) is Some ==> mount_line(line) == Some((ws[0], ws[1], ws[2]))
        }),
{
}

/// Loop devices (major 7) are never among the disk lines read.
pub proof fn lemma_disk_line_skips_loop(line: Seq<char>)
    requires
        words_spec(line).len() >= 1,
        number_or_zero(words_spec(line)[0]) == 7,
    ensures
        disk_line(line) is None,
{
}

} // verus!
