//! What the health web page derives on its side: the series names it
//! looks up (which must match the backend's), the chart palette, the CPU
//! chart's series, and which network interfaces are virtual. Drawing and
//! number formatting are the page's own.

use vstd::prelude::*;
use crate::health::metrics::{core_series_name, fs_series_names, mount_key, sanitize_spec, temp_series_name};
use crate::text::{contains_str, decimal, occurs_in, push_decimal, same_text, starts_with};

verus! {

/// Memory as the page receives it.
#[derive(Clone, Copy, Debug)]
pub struct MemStatus {
    pub total: u64,
    pub used: u64,
    pub available: u64,
    pub cache: u64,
    pub buffers: u64,
    pub free: u64,
    pub swap_total: u64,
    pub swap_used: u64,
}

impl Default for MemStatus {
    /// All zero: what is shown before the first answer.
    fn default() -> (m: Self)
        ensures
            m.total == 0 && m.used == 0 && m.available == 0 && m.cache == 0,
            m.buffers == 0 && m.free == 0 && m.swap_total == 0 && m.swap_used == 0,
    {
        MemStatus { total: 0, used: 0, available: 0, cache: 0, buffers: 0, free: 0, swap_total: 0, swap_used: 0 }
    }
}

/// One file system as the page receives it.
#[derive(Clone, Debug)]
pub struct FsStatus {
    pub device: String,
    pub mount: String,
    pub fstype: String,
    pub total: u64,
    pub used: u64,
    pub avail: u64,
}

/// The page's copy of the backend's name sanitizer; the series names it
/// builds must be the backend's exactly.
pub fn sanitize(s: &str) -> (r: String)
    ensures
        r@ == sanitize_spec(s@),
{
    crate::health::metrics::sanitize(s)
}

/// The key of a mount point in series names (`root` for `/`).
pub fn mount_series(mount: &str) -> (r: String)
    ensures
        r@ == mount_key(mount@),
        r@.len() > 0,
{
    crate::health::metrics::mount_key_of(mount)
}

/// The names of the series the page reads for the space used and free on
/// a mount: `fs.<mount key>.used` and `.avail`.
pub open spec fn card_series_names(mount: Seq<char>) -> (Seq<char>, Seq<char>) {
    ("fs."@ + mount_key(mount) + ".used"@, "fs."@ + mount_key(mount) + ".avail"@)
}

/// The series the page reads for the space used and free on a mount.
pub fn fs_card_series(mount: &str) -> (r: (String, String))
    ensures
        (r.0@, r.1@) == card_series_names(mount@),
{
    let m = mount_series(mount);
    let mut used = "fs.".to_owned();
    used.append(m.as_str());
    used.append(".used");
    let mut avail = "fs.".to_owned();
    avail.append(m.as_str());
    avail.append(".avail");
    (used, avail)
}

/// For every mount, the page reads exactly the file-system series the
/// backend writes.
pub proof fn lemma_fs_series_agree(mount: Seq<char>)
    ensures
        card_series_names(mount) == fs_series_names(mount),
{
}

/// The name of the series the page reads for a temperature sensor.
pub open spec fn temp_card_name(name: Seq<char>) -> Seq<char> {
    "temp."@ + sanitize_spec(name)
}

/// The series the page reads for a temperature sensor.
pub fn temp_card_series(name: &str) -> (r: String)
    ensures
        r@ == temp_card_name(name@),
{
    let mut r = "temp.".to_owned();
    let m = sanitize(name);
    r.append(m.as_str());
    r
}

/// For every sensor, the page reads exactly the temperature series the
/// backend writes.
pub proof fn lemma_temp_series_agree(name: Seq<char>)
    ensures
        temp_card_name(name) == temp_series_name(name),
{
}

/// For every core, the CPU chart's line reads exactly the series the
/// backend writes for that core.
pub proof fn lemma_core_series_agree(s: Serie, i: int)
    requires
        0 <= i,
        core_serie(s, i),
    ensures
        s.name@ == core_series_name(i as nat),
{
}

/// The chart colours, in order: a palette that reads well on a dark
/// background.
pub open spec fn palette(k: int) -> Seq<char> {
    if k == 0 {
        "#22d3ee"@
    } else if k == 1 {
        "#f472b6"@
    } else if k == 2 {
        "#a78bfa"@
    } else if k == 3 {
        "#fbbf24"@
    } else if k == 4 {
        "#34d399"@
    } else if k == 5 {
        "#60a5fa"@
    } else if k == 6 {
        "#fb7185"@
    } else if k == 7 {
        "#2dd4bf"@
    } else if k == 8 {
        "#818cf8"@
    } else if k == 9 {
        "#fb923c"@
    } else if k == 10 {
        "#e879f9"@
    } else if k == 11 {
        "#38bdf8"@
    } else if k == 12 {
        "#facc15"@
    } else {
        "#4ade80"@
    }
}

/// How many colours the palette has.
pub const PALETTE_LEN: usize = 14;

/// The colour of the `i`-th series: the palette, repeated.
pub fn color(i: usize) -> (c: String)
    ensures
        c@ == palette((i % 14) as int),
{
    let k = i % PALETTE_LEN;
    if k == 0 {
        "#22d3ee".to_owned()
    } else if k == 1 {
        "#f472b6".to_owned()
    } else if k == 2 {
        "#a78bfa".to_owned()
    } else if k == 3 {
        "#fbbf24".to_owned()
    } else if k == 4 {
        "#34d399".to_owned()
    } else if k == 5 {
        "#60a5fa".to_owned()
    } else if k == 6 {
        "#fb7185".to_owned()
    } else if k == 7 {
        "#2dd4bf".to_owned()
    } else if k == 8 {
        "#818cf8".to_owned()
    } else if k == 9 {
        "#fb923c".to_owned()
    } else if k == 10 {
        "#e879f9".to_owned()
    } else if k == 11 {
        "#38bdf8".to_owned()
    } else if k == 12 {
        "#facc15".to_owned()
    } else {
        "#4ade80".to_owned()
    }
}

/// A line of a chart: the series it plots, its legend label, colour, and
/// whether it is dashed and filled.
#[derive(Clone, Debug)]
pub struct Serie {
    pub name: String,
    pub label: String,
    pub color: String,
    pub dash: bool,
    pub fill: bool,
}

/// `s` is the CPU chart's line for core `i`: series `cpu.core.<i>`,
/// label `c<i>`, the `i`-th colour, filled.
pub open spec fn core_serie(s: Serie, i: int) -> bool {
    &&& s.name@ == "cpu.core."@ + decimal(i as nat)
    &&& s.label@ == "c"@ + decimal(i as nat)
    &&& s.color@ == palette(i % 14)
    &&& !s.dash && s.fill
}

/// The CPU chart's lines: one per core, or the total alone when the
/// number of cores is not known yet.
pub fn cpu_series(ncores: usize) -> (r: Vec<Serie>)
    ensures
        ncores == 0 ==> r@.len() == 1 && r@[0].name@ == "cpu.total"@ && r@[0].label@ == "total"@
            && r@[0].color@ == palette(0) && !r@[0].dash && r@[0].fill,
        ncores > 0 ==> r@.len() == ncores && forall|i: int| 0 <= i < ncores ==> core_serie(#[trigger] r@[i], i),
{
    let mut out: Vec<Serie> = Vec::new();
    if ncores == 0 {
        out.push(Serie { name: "cpu.total".to_owned(), label: "total".to_owned(), color: color(0), dash: false, fill: true });
        return out;
    }
    let mut i: usize = 0;
    while i < ncores
        invariant
            i <= ncores,
            out@.len() == i,
            forall|j: int| 0 <= j < i ==> core_serie(#[trigger] out@[j], j),
        decreases ncores - i,
    {
        let mut name = "cpu.core.".to_owned();
        push_decimal(&mut name, i as u64);
        let mut label = "c".to_owned();
        push_decimal(&mut label, i as u64);
        out.push(Serie { name, label, color: color(i), dash: false, fill: true });
        i = i + 1;
    }
    out
}

/// Interfaces left out of the network charts: loopback, container and VM
/// links (`veth*`, `podman*`, `vm-*`, anything with `-tap`).
pub open spec fn is_virtual_spec(name: Seq<char>) -> bool {
    name == "lo"@ || "veth"@.is_prefix_of(name) || "podman"@.is_prefix_of(name) || "vm-"@.is_prefix_of(name)
        || occurs_in("-tap"@, name)
}

/// Whether an interface is virtual.
pub fn is_virtual(name: &str) -> (b: bool)
    ensures
        b == is_virtual_spec(name@),
{
    same_text(name, "lo") || starts_with(name, "veth") || starts_with(name, "podman") || starts_with(name, "vm-")
        || contains_str(name, "-tap")
}


/// The newest value present in a series.
pub open spec fn last_present<V>(v: Seq<Option<V>>) -> Option<V>
    decreases v.len(),
{
    if v.len() == 0 {
        None
    } else if v.last() is Some {
        v.last()
    } else {
        last_present(v.drop_last())
    }
}

/// The newest value of a series (the last non-empty slot), if any.
pub fn last_value<V: Copy>(values: &Vec<Option<V>>) -> (r: Option<V>)
    ensures
        r == last_present(values@),
{
    let mut i = values.len();
    assert(values@.take(i as int) =~= values@);
    while i > 0
        invariant
            i <= values@.len(),
            last_present(values@) == last_present(values@.take(i as int)),
        decreases i,
    {
        let ghost t = values@.take(i as int);
        assert(t.drop_last() =~= values@.take(i - 1));
        assert(t.last() == values@[i - 1]);
        if values[i - 1].is_some() {
            return values[i - 1];
        }
        i = i - 1;
    }
    assert(values@.take(0) =~= Seq::<Option<V>>::empty());
    None
}

} // verus!
