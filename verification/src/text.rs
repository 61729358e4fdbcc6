//! Character-level string toolkit shared by the whole library: Unicode
//! whitespace trimming, splitting, decimal and hex rendering, integer
//! parsing and lexicographic ordering.

use vstd::prelude::*;

verus! {

broadcast use vstd::string::group_string_axioms;

/// Appends one character (`String::push`).
#[verifier::external_body]
pub(crate) fn push_char(s: &mut String, c: char)
    ensures
        final(s)@ == old(s)@.push(c),
{
    s.push(c);
}

/// The characters of a string slice, in order.
pub fn chars_of(s: &str) -> (v: Vec<char>)
    ensures
        v@ == s@,
{
    let mut v: Vec<char> = Vec::new();
    for c in it: s.chars()
        invariant
            it.seq() == s@,
            v@ == it.seq().take(it.index() as int),
    {
        v.push(c);
        assert(v@ =~= it.seq().take(it.index() + 1));
    }
    assert(s@.take(s@.len() as int) =~= s@);
    v
}

/// Appends the characters `v[lo..hi]` to `out`.
pub fn append_range(out: &mut String, v: &Vec<char>, lo: usize, hi: usize)
    requires
        lo <= hi <= v.len(),
    ensures
        final(out)@ == old(out)@ + v@.subrange(lo as int, hi as int),
{
    let mut i = lo;
    while i < hi
        invariant
            lo <= i <= hi <= v.len(),
            out@ == old(out)@ + v@.subrange(lo as int, i as int),
        decreases hi - i,
    {
        push_char(out, v[i]);
        assert(v@.subrange(lo as int, i + 1) =~= v@.subrange(lo as int, i as int).push(v@[i as int]));
        i = i + 1;
    }
}

/// A new string holding the characters `v[lo..hi]`.
pub fn string_of(v: &Vec<char>, lo: usize, hi: usize) -> (s: String)
    requires
        lo <= hi <= v.len(),
    ensures
        s@ == v@.subrange(lo as int, hi as int),
{
    let mut s = String::new();
    append_range(&mut s, v, lo, hi);
    s
}

// ---------------------------------------------------------------------------
// Unicode whitespace and trimming
// ---------------------------------------------------------------------------

/// The Unicode `White_Space` property (what `char::is_whitespace` tests).
pub open spec fn is_ws(c: char) -> bool {
    ||| ('\u{9}' <= c && c <= '\u{d}')
    ||| c == ' '
    ||| c == '\u{85}'
    ||| c == '\u{a0}'
    ||| c == '\u{1680}'
    ||| ('\u{2000}' <= c && c <= '\u{200a}')
    ||| c == '\u{2028}'
    ||| c == '\u{2029}'
    ||| c == '\u{202f}'
    ||| c == '\u{205f}'
    ||| c == '\u{3000}'
}

/// Whether `c` is Unicode whitespace.
pub fn is_whitespace(c: char) -> (b: bool)
    ensures
        b == is_ws(c),
{
    ('\u{9}' <= c && c <= '\u{d}') || c == ' ' || c == '\u{85}' || c == '\u{a0}' || c
        == '\u{1680}' || ('\u{2000}' <= c && c <= '\u{200a}') || c == '\u{2028}' || c
        == '\u{2029}' || c == '\u{202f}' || c == '\u{205f}' || c == '\u{3000}'
}

/// `s` without leading whitespace.
pub open spec fn trim_start_spec(s: Seq<char>) -> Seq<char>
    decreases s.len(),
{
    if s.len() > 0 && is_ws(s[0]) {
        trim_start_spec(s.drop_first())
    } else {
        s
    }
}

/// `s` without trailing whitespace.
pub open spec fn trim_end_spec(s: Seq<char>) -> Seq<char>
    decreases s.len(),
{
    if s.len() > 0 && is_ws(s.last()) {
        trim_end_spec(s.drop_last())
    } else {
        s
    }
}

/// `s` without leading and trailing whitespace (`str::trim`).
pub open spec fn trim_spec(s: Seq<char>) -> Seq<char> {
    trim_end_spec(trim_start_spec(s))
}

proof fn lemma_trim_start_skip(s: Seq<char>, i: int)
    requires
        0 <= i <= s.len(),
        forall|j: int| 0 <= j < i ==> is_ws(#[trigger] s[j]),
    ensures
        trim_start_spec(s) == trim_start_spec(s.subrange(i, s.len() as int)),
    decreases i,
{
    if i > 0 {
        lemma_trim_start_skip(s.drop_first(), i - 1);
        assert(s.drop_first().subrange(i - 1, s.drop_first().len() as int) =~= s.subrange(
            i,
            s.len() as int,
        ));
    } else {
        assert(s.subrange(0, s.len() as int) =~= s);
    }
}

proof fn lemma_trim_end_drop(s: Seq<char>, k: int)
    requires
        0 <= k <= s.len(),
        forall|j: int| k <= j < s.len() ==> is_ws(#[trigger] s[j]),
    ensures
        trim_end_spec(s) == trim_end_spec(s.subrange(0, k)),
    decreases s.len() - k,
{
    if k < s.len() {
        lemma_trim_end_drop(s.drop_last(), k);
        assert(s.drop_last().subrange(0, k) =~= s.subrange(0, k));
    } else {
        assert(s.subrange(0, k) =~= s);
    }
}

proof fn lemma_trim_start_cut(s: Seq<char>) -> (k: int)
    ensures
        0 <= k <= s.len(),
        trim_start_spec(s) == s.skip(k),
        forall|j: int| 0 <= j < k ==> is_ws(#[trigger] s[j]),
        k < s.len() ==> !is_ws(s[k]),
    decreases s.len(),
{
    if s.len() > 0 && is_ws(s[0]) {
        let k1 = lemma_trim_start_cut(s.drop_first());
        assert(s.drop_first().skip(k1) =~= s.skip(k1 + 1));
        assert forall|j: int| 0 <= j < k1 + 1 implies is_ws(#[trigger] s[j]) by {
            if j > 0 {
                assert(s[j] == s.drop_first()[j - 1]);
            }
        }
        if k1 + 1 < s.len() {
            assert(s[k1 + 1] == s.drop_first()[k1]);
        }
        k1 + 1
    } else {
        assert(s.skip(0) =~= s);
        0
    }
}

proof fn lemma_trim_end_cut(s: Seq<char>) -> (k: int)
    ensures
        0 <= k <= s.len(),
        trim_end_spec(s) == s.take(k),
        forall|j: int| k <= j < s.len() ==> is_ws(#[trigger] s[j]),
        k > 0 ==> !is_ws(s[k - 1]),
    decreases s.len(),
{
    if s.len() > 0 && is_ws(s.last()) {
        let k1 = lemma_trim_end_cut(s.drop_last());
        assert(s.drop_last().take(k1) =~= s.take(k1));
        assert forall|j: int| k1 <= j < s.len() implies is_ws(#[trigger] s[j]) by {
            if j < s.len() - 1 {
                assert(s[j] == s.drop_last()[j]);
            }
        }
        if k1 > 0 {
            assert(s[k1 - 1] == s.drop_last()[k1 - 1]);
        }
        k1
    } else {
        assert(s.take(s.len() as int) =~= s);
        s.len() as int
    }
}

/// Trimming removes whitespace at the ends and nothing else: the trimmed
/// text is a stretch of `s` with only whitespace before and after it, and
/// it neither starts nor ends with whitespace.
pub proof fn lemma_trim_shape(s: Seq<char>)
    ensures
        exists|lo: int, hi: int|
            0 <= lo <= hi <= s.len() && #[trigger] s.subrange(lo, hi) == trim_spec(s) && (forall|j: int|
                0 <= j < lo ==> is_ws(#[trigger] s[j])) && (forall|j: int| hi <= j < s.len() ==> is_ws(#[trigger] s[j])),
        trim_spec(s).len() > 0 ==> !is_ws(trim_spec(s)[0]) && !is_ws(trim_spec(s).last()),
{
    let lo = lemma_trim_start_cut(s);
    let t = s.skip(lo);
    let k = lemma_trim_end_cut(t);
    let hi = lo + k;
    assert(t.take(k) =~= s.subrange(lo, hi));
    assert forall|j: int| hi <= j < s.len() implies is_ws(#[trigger] s[j]) by {
        assert(s[j] == t[j - lo]);
    }
    if k > 0 {
        assert(trim_spec(s)[0] == s[lo]);
        assert(trim_spec(s).last() == t[k - 1]);
    }
    assert(s.subrange(lo, hi) == trim_spec(s));
}

/// Bounds `(lo, hi)` of the trimmed part of `v`.
pub fn trim_bounds(v: &Vec<char>) -> (r: (usize, usize))
    ensures
        r.0 <= r.1 <= v.len(),
        v@.subrange(r.0 as int, r.1 as int) == trim_spec(v@),
{
    let n = v.len();
    let mut lo: usize = 0;
    while lo < n && is_whitespace(v[lo])
        invariant
            lo <= n == v.len(),
            forall|j: int| 0 <= j < lo ==> is_ws(#[trigger] v@[j]),
        decreases n - lo,
    {
        lo = lo + 1;
    }
    proof {
        lemma_trim_start_skip(v@, lo as int);
    }
    let ghost t = v@.subrange(lo as int, n as int);
    assert(trim_start_spec(t) == t);
    let mut hi: usize = n;
    while hi > lo && is_whitespace(v[hi - 1])
        invariant
            lo <= hi <= n == v.len(),
            t == v@.subrange(lo as int, n as int),
            forall|j: int| hi <= j < n ==> is_ws(#[trigger] v@[j]),
        decreases hi,
    {
        hi = hi - 1;
    }
    proof {
        assert forall|j: int| (hi - lo) <= j < t.len() implies is_ws(#[trigger] t[j]) by {
            assert(t[j] == v@[lo + j]);
        }
        lemma_trim_end_drop(t, hi - lo);
        assert(t.subrange(0, hi - lo) =~= v@.subrange(lo as int, hi as int));
        let u = v@.subrange(lo as int, hi as int);
        if u.len() > 0 {
            assert(!is_ws(u.last()));
        }
    }
    (lo, hi)
}

/// `str::trim`: the text without leading and trailing Unicode whitespace.
pub fn trim(s: &str) -> (r: String)
    ensures
        r@ == trim_spec(s@),
{
    let v = chars_of(s);
    let (lo, hi) = trim_bounds(&v);
    string_of(&v, lo, hi)
}


// ---------------------------------------------------------------------------
// Searching and splitting
// ---------------------------------------------------------------------------

/// The character views of a sequence of strings.
pub open spec fn views(v: Seq<String>) -> Seq<Seq<char>> {
    v.map_values(|x: String| x@)
}

/// Index of the first occurrence of `c` in `s`.
pub open spec fn find_char(s: Seq<char>, c: char) -> Option<int>
    decreases s.len(),
{
    if s.len() == 0 {
        None
    } else if s[0] == c {
        Some(0)
    } else {
        match find_char(s.drop_first(), c) {
            Some(i) => Some(i + 1),
            None => None,
        }
    }
}

pub proof fn lemma_find_char(s: Seq<char>, c: char, i: int)
    requires
        0 <= i <= s.len(),
        forall|j: int| 0 <= j < i ==> #[trigger] s[j] != c,
    ensures
        i < s.len() && s[i] == c ==> find_char(s, c) == Some(i),
        i == s.len() ==> find_char(s, c) is None,
    decreases i,
{
    if i > 0 {
        lemma_find_char(s.drop_first(), c, i - 1);
    }
}

/// Index of the first `c` in `v[lo..]`, as an absolute index.
pub fn find_from(v: &Vec<char>, lo: usize, c: char) -> (r: Option<usize>)
    requires
        lo <= v.len(),
    ensures
        match r {
            Some(i) => lo <= i < v.len() && find_char(v@.subrange(lo as int, v.len() as int), c)
                == Some(i - lo),
            None => find_char(v@.subrange(lo as int, v.len() as int), c) is None,
        },
{
    let n = v.len();
    let mut i = lo;
    let ghost t = v@.subrange(lo as int, n as int);
    while i < n
        invariant
            lo <= i <= n == v.len(),
            t == v@.subrange(lo as int, n as int),
            forall|j: int| 0 <= j < i - lo ==> #[trigger] t[j] != c,
        decreases n - i,
    {
        if v[i] == c {
            proof {
                lemma_find_char(t, c, i - lo);
            }
            return Some(i);
        }
        i = i + 1;
    }
    proof {
        lemma_find_char(t, c, i - lo);
    }
    None
}

/// Whether two strings hold the same characters.
#[verifier::loop_isolation(false)]
pub fn same_text(a: &str, b: &str) -> (r: bool)
    ensures
        r == (a@ == b@),
{
    let av = chars_of(a);
    let bv = chars_of(b);
    if av.len() != bv.len() {
        return false;
    }
    let mut i: usize = 0;
    while i < av.len()
        invariant
            av.len() == bv.len(),
            i <= av.len(),
            forall|j: int| 0 <= j < i ==> av@[j] == bv@[j],
        decreases av.len() - i,
    {
        if av[i] != bv[i] {
            assert(av@[i as int] != bv@[i as int]);
            return false;
        }
        i = i + 1;
    }
    assert(av@ =~= bv@);
    true
}

/// `s` without one trailing carriage return.
pub open spec fn strip_cr(s: Seq<char>) -> Seq<char> {
    if s.len() > 0 && s.last() == '\r' {
        s.drop_last()
    } else {
        s
    }
}

/// The lines of `s` as `str::lines` yields them: split at `\n`, a `\r`
/// right before a `\n` removed, no empty line after a final `\n`.
pub open spec fn lines_spec(s: Seq<char>) -> Seq<Seq<char>>
    decreases s.len(),
{
    if s.len() == 0 {
        seq![]
    } else {
        match find_char(s, '\n') {
            Some(i) => if 0 <= i < s.len() {
                seq![strip_cr(s.take(i))] + lines_spec(s.skip(i + 1))
            } else {
                seq![]
            },
            None => seq![s],
        }
    }
}

pub(crate) proof fn lemma_find_char_range(s: Seq<char>, c: char)
    ensures
        find_char(s, c) matches Some(i) ==> 0 <= i < s.len() && s[i] == c,
    decreases s.len(),
{
    if s.len() > 0 {
        lemma_find_char_range(s.drop_first(), c);
    }
}

/// `str::lines`.
pub fn lines(s: &str) -> (r: Vec<String>)
    ensures
        views(r@) == lines_spec(s@),
{
    let v = chars_of(s);
    let n = v.len();
    let mut out: Vec<String> = Vec::new();
    let mut start: usize = 0;
    assert(v@.subrange(0, n as int) =~= v@);
    assert(views(out@) + lines_spec(v@) =~= lines_spec(v@));
    while start < n
        invariant
            start <= n == v.len(),
            v@ == s@,
            views(out@) + lines_spec(v@.subrange(start as int, n as int)) == lines_spec(s@),
        decreases n - start,
    {
        let ghost t = v@.subrange(start as int, n as int);
        let f = find_from(&v, start, '\n');
        proof {
            lemma_find_char_range(t, '\n');
        }
        match f {
            Some(i) => {
                let end = if i > start && v[i - 1] == '\r' {
                    i - 1
                } else {
                    i
                };
                let line = string_of(&v, start, end);
                proof {
                    assert(t.take(i - start) =~= v@.subrange(start as int, i as int));
                    assert(strip_cr(t.take(i - start)) =~= v@.subrange(start as int, end as int));
                    assert(t.skip(i - start + 1) =~= v@.subrange(i + 1, n as int));
                    assert(views(out@.push(line)) =~= views(out@).push(line@));
                }
                out.push(line);
                start = i + 1;
            },
            None => {
                let line = string_of(&v, start, n);
                proof {
                    assert(views(out@.push(line)) =~= views(out@).push(line@));
                }
                out.push(line);
                start = n;
                assert(lines_spec(v@.subrange(start as int, n as int)) =~= seq![]);
            },
        }
    }
    proof {
        assert(lines_spec(v@.subrange(start as int, n as int)) =~= seq![]);
        assert(views(out@) + seq![] =~= views(out@));
        assert(v@.subrange(0, n as int) =~= v@);
    }
    out
}

/// The pieces of `s` between occurrences of `c` (`str::split`), empty
/// pieces included.
pub open spec fn split_spec(s: Seq<char>, c: char) -> Seq<Seq<char>>
    decreases s.len(),
{
    match find_char(s, c) {
        Some(i) => if 0 <= i < s.len() {
            seq![s.take(i)] + split_spec(s.skip(i + 1), c)
        } else {
            seq![]
        },
        None => seq![s],
    }
}

proof fn lemma_join_cons(a: Seq<char>, rest: Seq<Seq<char>>, sep: Seq<char>)
    requires
        rest.len() > 0,
    ensures
        join_spec(seq![a] + rest, sep) == a + sep + join_spec(rest, sep),
    decreases rest.len(),
{
    let all = seq![a] + rest;
    if rest.len() == 1 {
        assert(all.drop_last() =~= seq![a]);
        assert(all.last() == rest[0]);
        assert(join_spec(seq![a], sep) == a);
        assert(join_spec(rest, sep) == rest[0]);
    } else {
        lemma_join_cons(a, rest.drop_last(), sep);
        assert(all.drop_last() =~= seq![a] + rest.drop_last());
        assert(all.last() == rest.last());
        assert(a + sep + join_spec(rest.drop_last(), sep) + sep + rest.last() =~= a + sep + (join_spec(
            rest.drop_last(),
            sep,
        ) + sep + rest.last()));
    }
}

/// Splitting loses nothing: the pieces of `s` at `c`, joined again with
/// `c`, give back `s`, and no piece holds `c`.
pub proof fn lemma_split_join(s: Seq<char>, c: char)
    ensures
        join_spec(split_spec(s, c), seq![c]) == s,
        split_spec(s, c).len() >= 1,
        forall|k: int| 0 <= k < split_spec(s, c).len() ==> !(#[trigger] split_spec(s, c)[k]).contains(c),
    decreases s.len(),
{
    lemma_find_char_range(s, c);
    match find_char(s, c) {
        Some(i) => {
            let rest = s.skip(i + 1);
            lemma_split_join(rest, c);
            let head = s.take(i);
            lemma_join_cons(head, split_spec(rest, c), seq![c]);
            assert(s =~= head + seq![c] + rest);
            assert forall|j: int| 0 <= j < i implies #[trigger] s[j] != c by {
                if s[j] == c {
                    lemma_find_char_first(s, c, j);
                }
            }
            assert(!head.contains(c)) by {
                if head.contains(c) {
                    let j = choose|j: int| 0 <= j < head.len() && head[j] == c;
                    assert(s[j] == c);
                }
            }
            let ps = split_spec(s, c);
            assert(ps == seq![head] + split_spec(rest, c));
            assert forall|k: int| 0 <= k < ps.len() implies !(#[trigger] ps[k]).contains(c) by {
                if k > 0 {
                    assert(ps[k] == split_spec(rest, c)[k - 1]);
                }
            }
        },
        None => {
            assert(!s.contains(c)) by {
                if s.contains(c) {
                    let j = choose|j: int| 0 <= j < s.len() && s[j] == c;
                    lemma_find_char_first(s, c, j);
                }
            }
        },
    }
}

proof fn lemma_find_char_first(s: Seq<char>, c: char, j: int)
    requires
        0 <= j < s.len(),
        s[j] == c,
    ensures
        find_char(s, c) matches Some(i) && i <= j,
    decreases s.len(),
{
    if j > 0 && s[0] != c {
        lemma_find_char_first(s.drop_first(), c, j - 1);
    }
}

/// `s.split(c)`, collected.
pub fn split(s: &str, c: char) -> (r: Vec<String>)
    ensures
        views(r@) == split_spec(s@, c),
{
    let v = chars_of(s);
    let n = v.len();
    let mut out: Vec<String> = Vec::new();
    let mut start: usize = 0;
    assert(v@.subrange(0, n as int) =~= v@);
    assert(views(out@) + split_spec(v@, c) =~= split_spec(v@, c));
    loop
        invariant
            start <= n == v.len(),
            v@ == s@,
            views(out@) + split_spec(v@.subrange(start as int, n as int), c) == split_spec(s@, c),
        decreases n - start,
    {
        let ghost t = v@.subrange(start as int, n as int);
        let f = find_from(&v, start, c);
        proof {
            lemma_find_char_range(t, c);
        }
        match f {
            Some(i) => {
                let piece = string_of(&v, start, i);
                proof {
                    assert(t.take(i - start) =~= v@.subrange(start as int, i as int));
                    assert(t.skip(i - start + 1) =~= v@.subrange(i + 1, n as int));
                    assert(views(out@.push(piece)) =~= views(out@).push(piece@));
                }
                out.push(piece);
                start = i + 1;
            },
            None => {
                let piece = string_of(&v, start, n);
                proof {
                    assert(views(out@.push(piece)) =~= views(out@).push(piece@));
                    assert(views(out@).push(piece@) =~= views(out@) + seq![t]);
                }
                out.push(piece);
                return out;
            },
        }
    }
}

/// `s` without every leading `c` (`str::trim_start_matches` with a char).
pub open spec fn strip_leading(s: Seq<char>, c: char) -> Seq<char>
    decreases s.len(),
{
    if s.len() > 0 && s[0] == c {
        strip_leading(s.drop_first(), c)
    } else {
        s
    }
}

proof fn lemma_strip_leading_skip(s: Seq<char>, c: char, i: int)
    requires
        0 <= i <= s.len(),
        forall|j: int| 0 <= j < i ==> #[trigger] s[j] == c,
    ensures
        strip_leading(s, c) == strip_leading(s.subrange(i, s.len() as int), c),
    decreases i,
{
    if i > 0 {
        lemma_strip_leading_skip(s.drop_first(), c, i - 1);
        assert(s.drop_first().subrange(i - 1, s.drop_first().len() as int) =~= s.subrange(
            i,
            s.len() as int,
        ));
    } else {
        assert(s.subrange(0, s.len() as int) =~= s);
    }
}

/// `s.trim_start_matches(c)`.
pub fn trim_start_char(s: &str, c: char) -> (r: String)
    ensures
        r@ == strip_leading(s@, c),
{
    let v = chars_of(s);
    let n = v.len();
    let mut i: usize = 0;
    while i < n && v[i] == c
        invariant
            i <= n == v.len(),
            forall|j: int| 0 <= j < i ==> #[trigger] v@[j] == c,
        decreases n - i,
    {
        i = i + 1;
    }
    proof {
        lemma_strip_leading_skip(v@, c, i as int);
        let t = v@.subrange(i as int, n as int);
        if t.len() > 0 {
            assert(t[0] == v@[i as int]);
        }
    }
    string_of(&v, i, n)
}

/// `s` without every trailing `c` (`str::trim_end_matches` with a char).
pub open spec fn strip_trailing(s: Seq<char>, c: char) -> Seq<char>
    decreases s.len(),
{
    if s.len() > 0 && s.last() == c {
        strip_trailing(s.drop_last(), c)
    } else {
        s
    }
}

proof fn lemma_strip_trailing_take(s: Seq<char>, c: char, i: int)
    requires
        0 <= i <= s.len(),
        forall|j: int| i <= j < s.len() ==> #[trigger] s[j] == c,
    ensures
        strip_trailing(s, c) == strip_trailing(s.take(i), c),
    decreases s.len() - i,
{
    if i < s.len() {
        lemma_strip_trailing_take(s.drop_last(), c, i);
        assert(s.drop_last().take(i) =~= s.take(i));
    } else {
        assert(s.take(i) =~= s);
    }
}

/// `s.trim_end_matches(c)`.
pub fn trim_end_char(s: &str, c: char) -> (r: String)
    ensures
        r@ == strip_trailing(s@, c),
{
    let v = chars_of(s);
    let mut i: usize = v.len();
    while i > 0 && v[i - 1] == c
        invariant
            i <= v.len(),
            forall|j: int| i <= j < v.len() ==> #[trigger] v@[j] == c,
        decreases i,
    {
        i = i - 1;
    }
    proof {
        lemma_strip_trailing_take(v@, c, i as int);
        let t = v@.take(i as int);
        if t.len() > 0 {
            assert(t.last() == v@[i - 1]);
        }
        assert(v@.subrange(0, i as int) =~= t);
    }
    string_of(&v, 0, i)
}

/// Bytes that `c` takes in UTF-8.
pub open spec fn utf8_width(c: char) -> int {
    if (c as int) < 0x80 {
        1
    } else if (c as int) < 0x800 {
        2
    } else if (c as int) < 0x10000 {
        3
    } else {
        4
    }
}

/// `str::get(..n)`: the prefix of `s` that is exactly `n` bytes of UTF-8,
/// when `n` falls on a character boundary inside the text.
pub open spec fn byte_prefix(s: Seq<char>, n: int) -> Option<Seq<char>>
    decreases s.len(),
{
    if n == 0 {
        Some(seq![])
    } else if s.len() == 0 || n < utf8_width(s[0]) {
        None
    } else {
        match byte_prefix(s.drop_first(), n - utf8_width(s[0])) {
            Some(p) => Some(seq![s[0]] + p),
            None => None,
        }
    }
}

fn char_width(c: char) -> (w: usize)
    ensures
        w == utf8_width(c),
{
    if (c as u32) < 0x80 {
        1
    } else if (c as u32) < 0x800 {
        2
    } else if (c as u32) < 0x10000 {
        3
    } else {
        4
    }
}

/// The prefix of `v` that is exactly `n` bytes of UTF-8, as a count of
/// characters.
pub fn byte_prefix_len(v: &Vec<char>, n: usize) -> (r: Option<usize>)
    ensures
        match r {
            Some(k) => k <= v.len() && byte_prefix(v@, n as int) == Some(v@.take(k as int)),
            None => byte_prefix(v@, n as int) is None,
        },
{
    let mut k: usize = 0;
    let mut left: usize = n;
    assert(v@.skip(0) =~= v@);
    while left > 0 && k < v.len() && char_width(v[k]) <= left
        invariant
            k <= v.len(),
            left <= n,
            byte_prefix(v@, n as int) == match byte_prefix(v@.skip(k as int), left as int) {
                Some(p) => Some(v@.take(k as int) + p),
                None => None,
            },
        decreases left,
    {
        let w = char_width(v[k]);
        proof {
            let t = v@.skip(k as int);
            assert(t[0] == v@[k as int]);
            assert(t.drop_first() =~= v@.skip(k + 1));
            assert(v@.take(k + 1) =~= v@.take(k as int) + seq![v@[k as int]]);
            match byte_prefix(v@.skip(k + 1), left - w) {
                Some(p) => {
                    assert(v@.take(k as int) + (seq![t[0]] + p) =~= v@.take(k + 1) + p);
                },
                None => {},
            }
        }
        left = left - w;
        k = k + 1;
    }
    if left == 0 {
        assert(v@.take(k as int) + seq![] =~= v@.take(k as int));
        Some(k)
    } else {
        if k < v.len() {
            assert(v@.skip(k as int)[0] == v@[k as int]);
        }
        None
    }
}

/// On ASCII text a byte count is a character count: the first `n` bytes
/// are the first `n` characters when there are that many, and there is no
/// such prefix when the text is shorter.
pub proof fn lemma_byte_prefix_ascii(s: Seq<char>, n: int)
    requires
        0 <= n,
        forall|i: int| 0 <= i < s.len() ==> (#[trigger] s[i] as int) < 0x80,
    ensures
        n <= s.len() ==> byte_prefix(s, n) == Some(s.take(n)),
        n > s.len() ==> byte_prefix(s, n) is None,
    decreases s.len(),
{
    if n == 0 {
        assert(s.take(0) =~= seq![]);
    } else if s.len() > 0 {
        let r = s.drop_first();
        assert(utf8_width(s[0]) == 1);
        assert forall|i: int| 0 <= i < r.len() implies (#[trigger] r[i] as int) < 0x80 by {
            assert(r[i] == s[i + 1]);
        }
        lemma_byte_prefix_ascii(r, n - 1);
        if n <= s.len() {
            assert(seq![s[0]] + r.take(n - 1) =~= s.take(n));
        }
    }
}

/// The parts joined with `sep` between neighbours.
pub open spec fn join_spec(parts: Seq<Seq<char>>, sep: Seq<char>) -> Seq<char>
    decreases parts.len(),
{
    if parts.len() == 0 {
        seq![]
    } else if parts.len() == 1 {
        parts[0]
    } else {
        join_spec(parts.drop_last(), sep) + sep + parts.last()
    }
}

/// `parts.join(sep)`.
pub fn join(parts: &Vec<String>, sep: &str) -> (r: String)
    ensures
        r@ == join_spec(views(parts@), sep@),
{
    let mut out = String::new();
    let mut i: usize = 0;
    while i < parts.len()
        invariant
            i <= parts@.len(),
            out@ == join_spec(views(parts@.take(i as int)), sep@),
        decreases parts.len() - i,
    {
        proof {
            assert(views(parts@.take(i + 1)).drop_last() =~= views(parts@.take(i as int)));
        }
        if i > 0 {
            out.append(sep);
        }
        out.append(parts[i].as_str());
        i = i + 1;
    }
    assert(parts@.take(parts@.len() as int) =~= parts@);
    out
}

/// Length of the run of non-whitespace characters at the start of `s`.
pub open spec fn word_len(s: Seq<char>) -> nat
    decreases s.len(),
{
    if s.len() == 0 || is_ws(s[0]) {
        0
    } else {
        1 + word_len(s.drop_first())
    }
}

/// The first item of `str::split_whitespace`.
pub open spec fn first_word_spec(s: Seq<char>) -> Option<Seq<char>> {
    let t = trim_start_spec(s);
    if t.len() == 0 {
        None
    } else {
        Some(t.take(word_len(t) as int))
    }
}

proof fn lemma_word_len(s: Seq<char>, i: int)
    requires
        0 <= i <= s.len(),
        forall|j: int| 0 <= j < i ==> !is_ws(#[trigger] s[j]),
        i == s.len() || is_ws(s[i]),
    ensures
        word_len(s) == i,
    decreases i,
{
    if i > 0 {
        lemma_word_len(s.drop_first(), i - 1);
    }
}

/// Bounds of the first whitespace-separated word of `v`.
pub fn first_word_bounds(v: &Vec<char>) -> (r: Option<(usize, usize)>)
    ensures
        match r {
            Some((lo, hi)) => lo <= hi <= v.len() && first_word_spec(v@) == Some(
                v@.subrange(lo as int, hi as int),
            ),
            None => first_word_spec(v@) is None,
        },
{
    let n = v.len();
    let mut lo: usize = 0;
    while lo < n && is_whitespace(v[lo])
        invariant
            lo <= n == v.len(),
            forall|j: int| 0 <= j < lo ==> is_ws(#[trigger] v@[j]),
        decreases n - lo,
    {
        lo = lo + 1;
    }
    proof {
        lemma_trim_start_skip(v@, lo as int);
    }
    let ghost t = v@.subrange(lo as int, n as int);
    assert(trim_start_spec(t) == t);
    if lo == n {
        return None;
    }
    let mut hi = lo;
    while hi < n && !is_whitespace(v[hi])
        invariant
            lo <= hi <= n == v.len(),
            t == v@.subrange(lo as int, n as int),
            forall|j: int| lo <= j < hi ==> !is_ws(#[trigger] v@[j]),
        decreases n - hi,
    {
        hi = hi + 1;
    }
    proof {
        assert forall|j: int| 0 <= j < hi - lo implies !is_ws(#[trigger] t[j]) by {
            assert(t[j] == v@[lo + j]);
        }
        lemma_word_len(t, hi - lo);
        assert(t.take(hi - lo) =~= v@.subrange(lo as int, hi as int));
    }
    Some((lo, hi))
}

/// The first item of `s.split_whitespace()`, if any.
pub fn first_word(s: &str) -> (r: Option<String>)
    ensures
        match r {
            Some(w) => first_word_spec(s@) == Some(w@),
            None => first_word_spec(s@) is None,
        },
{
    let v = chars_of(s);
    match first_word_bounds(&v) {
        Some((lo, hi)) => Some(string_of(&v, lo, hi)),
        None => None,
    }
}

/// The whitespace-separated words of `s[i..]`, in order.
pub open spec fn words_from(s: Seq<char>, i: int) -> Seq<Seq<char>>
    decreases s.len() - i,
{
    if i < 0 || i >= s.len() {
        seq![]
    } else if is_ws(s[i]) {
        words_from(s, i + 1)
    } else {
        let w = word_len(s.skip(i)) as int;
        if 0 < w && i + w <= s.len() {
            seq![s.subrange(i, i + w)] + words_from(s, i + w)
        } else {
            seq![]
        }
    }
}

/// The items of `str::split_whitespace`.
pub open spec fn words_spec(s: Seq<char>) -> Seq<Seq<char>> {
    words_from(s, 0)
}

proof fn lemma_word_len_run(s: Seq<char>)
    ensures
        word_len(s) <= s.len(),
        forall|j: int| 0 <= j < word_len(s) ==> !is_ws(#[trigger] s[j]),
    decreases s.len(),
{
    if s.len() > 0 && !is_ws(s[0]) {
        lemma_word_len_run(s.drop_first());
        assert forall|j: int| 0 <= j < word_len(s) implies !is_ws(#[trigger] s[j]) by {
            if j > 0 {
                assert(s[j] == s.drop_first()[j - 1]);
            }
        }
    }
}

proof fn lemma_words_from_clean(s: Seq<char>, i: int)
    ensures
        forall|k: int|
            0 <= k < words_from(s, i).len() ==> (#[trigger] words_from(s, i)[k]).len() > 0 && forall|j: int|
                0 <= j < words_from(s, i)[k].len() ==> !is_ws(#[trigger] words_from(s, i)[k][j]),
    decreases s.len() - i,
{
    if 0 <= i < s.len() {
        if is_ws(s[i]) {
            lemma_words_from_clean(s, i + 1);
            assert(words_from(s, i) == words_from(s, i + 1));
        } else {
            let t = s.skip(i);
            let w = word_len(t) as int;
            lemma_word_len_run(t);
            if 0 < w && i + w <= s.len() {
                lemma_words_from_clean(s, i + w);
                let ws = words_from(s, i);
                let rest = words_from(s, i + w);
                assert(ws == seq![s.subrange(i, i + w)] + rest);
                assert forall|k: int| 0 <= k < ws.len() implies (#[trigger] ws[k]).len() > 0 && forall|j: int|
                    0 <= j < ws[k].len() ==> !is_ws(#[trigger] ws[k][j]) by {
                    if k == 0 {
                        assert forall|j: int| 0 <= j < ws[0].len() implies !is_ws(#[trigger] ws[0][j]) by {
                            assert(ws[0][j] == t[j]);
                            assert(0 <= j < word_len(t));
                        }
                    } else {
                        assert(ws[k] == rest[k - 1]);
                    }
                }
            } else {
                assert(words_from(s, i).len() == 0);
            }
        }
    }
}

/// The words of a text are never empty and hold no whitespace.
pub proof fn lemma_words_clean(s: Seq<char>)
    ensures
        forall|k: int|
            0 <= k < words_spec(s).len() ==> (#[trigger] words_spec(s)[k]).len() > 0 && forall|j: int|
                0 <= j < words_spec(s)[k].len() ==> !is_ws(#[trigger] words_spec(s)[k][j]),
{
    lemma_words_from_clean(s, 0);
}

/// `s.split_whitespace()`, collected.
pub fn words(s: &str) -> (r: Vec<String>)
    ensures
        views(r@) == words_spec(s@),
{
    let v = chars_of(s);
    let n = v.len();
    let mut out: Vec<String> = Vec::new();
    let mut i: usize = 0;
    assert(views(out@) + words_from(v@, 0) =~= words_from(v@, 0));
    while i < n
        invariant
            i <= n == v.len(),
            v@ == s@,
            views(out@) + words_from(v@, i as int) == words_from(v@, 0),
        decreases n - i,
    {
        if is_whitespace(v[i]) {
            i = i + 1;
        } else {
            let mut j = i;
            while j < n && !is_whitespace(v[j])
                invariant
                    i <= j <= n == v.len(),
                    forall|k: int| i <= k < j ==> !is_ws(#[trigger] v@[k]),
                decreases n - j,
            {
                j = j + 1;
            }
            proof {
                let t = v@.skip(i as int);
                assert forall|k: int| 0 <= k < j - i implies !is_ws(#[trigger] t[k]) by {
                    assert(t[k] == v@[i + k]);
                }
                if j < n {
                    assert(t[j - i] == v@[j as int]);
                }
                lemma_word_len(t, j - i);
                assert(t.len() == n - i);
            }
            let w = string_of(&v, i, j);
            let ghost before = out@;
            out.push(w);
            assert(views(out@) =~= views(before).push(w@));
            assert(views(out@) + words_from(v@, j as int) =~= views(before) + words_from(v@, i as int));
            i = j;
        }
    }
    assert(words_from(v@, i as int) =~= seq![]);
    assert(views(out@) + seq![] =~= views(out@));
    out
}

/// `str::ends_with` for a literal suffix.
pub fn ends_with(s: &str, p: &str) -> (b: bool)
    ensures
        b == p@.is_suffix_of(s@),
{
    let v = chars_of(s);
    let k = p.unicode_len();
    if k > v.len() {
        return false;
    }
    let b = has_prefix_at(&v, v.len() - k, p);
    proof {
        let tail = v@.subrange(v@.len() - k, v@.len() as int);
        assert(tail.len() == p@.len());
        if b {
            assert(tail.take(p@.len() as int) =~= tail);
            assert(v@.skip(v@.len() - p@.len()) =~= tail);
        } else {
            assert(tail.take(p@.len() as int) =~= tail);
            assert(v@.skip(v@.len() - p@.len()) =~= tail);
        }
    }
    b
}

/// `str::strip_suffix`.
pub fn strip_suffix(s: &str, p: &str) -> (r: Option<String>)
    ensures
        match r {
            Some(t) => p@.is_suffix_of(s@) && t@ == s@.take(s@.len() - p@.len()),
            None => !p@.is_suffix_of(s@),
        },
{
    if ends_with(s, p) {
        let v = chars_of(s);
        let k = p.unicode_len();
        Some(string_of(&v, 0, v.len() - k))
    } else {
        None
    }
}

/// `p` occurs in `s` (`str::contains` with a string pattern).
pub open spec fn occurs_in(p: Seq<char>, s: Seq<char>) -> bool {
    exists|i: int| 0 <= i <= s.len() && #[trigger] p.is_prefix_of(s.skip(i))
}

/// `str::contains` for a literal pattern.
pub fn contains_str(s: &str, p: &str) -> (b: bool)
    ensures
        b == occurs_in(p@, s@),
{
    let v = chars_of(s);
    let n = v.len();
    let mut i: usize = 0;
    while i < n
        invariant
            i <= n == v.len(),
            v@ == s@,
            forall|j: int| 0 <= j < i ==> !(#[trigger] p@.is_prefix_of(s@.skip(j))),
        decreases n - i,
    {
        let hit = has_prefix_at(&v, i, p);
        assert(v@.subrange(i as int, n as int) =~= s@.skip(i as int));
        if hit {
            return true;
        }
        i = i + 1;
    }
    let hit = has_prefix_at(&v, n, p);
    assert(v@.subrange(n as int, n as int) =~= s@.skip(n as int));
    proof {
        if occurs_in(p@, s@) {
            let j = choose|j: int| 0 <= j <= s@.len() && #[trigger] p@.is_prefix_of(s@.skip(j));
            assert(j <= n);
        }
    }
    hit
}

/// Whether `v[at..]` starts with `p`.
pub fn has_prefix_at(v: &Vec<char>, at: usize, p: &str) -> (b: bool)
    requires
        at <= v.len(),
    ensures
        b == p@.is_prefix_of(v@.subrange(at as int, v.len() as int)),
{
    let pv = chars_of(p);
    let n = v.len();
    if pv.len() > n - at {
        return false;
    }
    let mut i: usize = 0;
    while i < pv.len()
        invariant
            at <= n == v.len(),
            pv@ == p@,
            pv.len() <= n - at,
            i <= pv.len(),
            forall|j: int| 0 <= j < i ==> #[trigger] pv@[j] == v@[at + j],
        decreases pv.len() - i,
    {
        if pv[i] != v[at + i] {
            assert(v@.subrange(at as int, n as int)[i as int] == v@[at + i]);
            return false;
        }
        i = i + 1;
    }
    assert(p@ =~= v@.subrange(at as int, n as int).take(p@.len() as int));
    true
}

/// `str::starts_with` for a literal prefix.
pub fn starts_with(s: &str, p: &str) -> (b: bool)
    ensures
        b == p@.is_prefix_of(s@),
{
    let v = chars_of(s);
    assert(v@.subrange(0, v@.len() as int) =~= v@);
    has_prefix_at(&v, 0, p)
}

/// `str::strip_prefix`.
pub fn strip_prefix(s: &str, p: &str) -> (r: Option<String>)
    ensures
        match r {
            Some(t) => p@.is_prefix_of(s@) && t@ == s@.skip(p@.len() as int),
            None => !p@.is_prefix_of(s@),
        },
{
    let v = chars_of(s);
    assert(v@.subrange(0, v@.len() as int) =~= v@);
    if has_prefix_at(&v, 0, p) {
        let k = p.unicode_len();
        Some(string_of(&v, k, v.len()))
    } else {
        None
    }
}

/// `str::split_once` at a character.
pub fn split_once(s: &str, c: char) -> (r: Option<(String, String)>)
    ensures
        match r {
            Some((a, b)) => find_char(s@, c) matches Some(i) && a@ == s@.take(i) && b@ == s@.skip(
                i + 1,
            ),
            None => find_char(s@, c) is None,
        },
{
    let v = chars_of(s);
    assert(v@.subrange(0, v@.len() as int) =~= v@);
    match find_from(&v, 0, c) {
        Some(i) => {
            let a = string_of(&v, 0, i);
            let b = string_of(&v, i + 1, v.len());
            assert(a@ =~= s@.take(i as int));
            assert(b@ =~= s@.skip(i + 1));
            Some((a, b))
        },
        None => None,
    }
}


// ---------------------------------------------------------------------------
// Numbers as text
// ---------------------------------------------------------------------------

/// The ASCII digit for `d < 10`.
pub open spec fn digit_char(d: int) -> char {
    (d + 48) as char
}

/// Decimal digits of `n`, most significant first, no leading zeros.
pub open spec fn decimal(n: nat) -> Seq<char>
    decreases n,
{
    if n < 10 {
        seq![digit_char(n as int)]
    } else {
        decimal(n / 10).push(digit_char((n % 10) as int))
    }
}

/// `n` in decimal, with a leading `-` when negative.
pub open spec fn signed_decimal(n: int) -> Seq<char> {
    if n < 0 {
        seq!['-'] + decimal((-n) as nat)
    } else {
        decimal(n as nat)
    }
}

fn digit(d: u64) -> (c: char)
    requires
        d < 10,
    ensures
        c == digit_char(d as int),
{
    ((d as u8) + 48u8) as char
}

/// Appends `n` in decimal (what `{}` formatting writes for an unsigned integer).
pub fn push_decimal(out: &mut String, n: u64)
    ensures
        final(out)@ == old(out)@ + decimal(n as nat),
    decreases n,
{
    if n >= 10 {
        push_decimal(out, n / 10);
    }
    push_char(out, digit(n % 10));
    assert(old(out)@ + decimal(n as nat) =~= out@);
}

/// Appends `n` in decimal with a leading `-` when negative.
pub fn push_signed_decimal(out: &mut String, n: i64)
    ensures
        final(out)@ == old(out)@ + signed_decimal(n as int),
{
    if n < 0 {
        push_char(out, '-');
        let m: u64 = ((-(n + 1)) as u64) + 1;
        push_decimal(out, m);
        assert(old(out)@ + signed_decimal(n as int) =~= out@);
    } else {
        push_decimal(out, n as u64);
    }
}

/// `n.to_string()` for an unsigned integer.
pub fn u64_text(n: u64) -> (s: String)
    ensures
        s@ == decimal(n as nat),
{
    let mut s = String::new();
    push_decimal(&mut s, n);
    s
}

/// The lower-case hex digit for `d < 16`.
pub open spec fn hex_digit(d: int) -> char {
    if d < 10 {
        (d + 48) as char
    } else {
        (d + 87) as char
    }
}

/// Two lower-case hex digits per byte (`{:02x}`), in order.
pub open spec fn hex_spec(b: Seq<u8>) -> Seq<char>
    decreases b.len(),
{
    if b.len() == 0 {
        seq![]
    } else {
        hex_spec(b.drop_last()) + seq![hex_digit((b.last() / 16) as int), hex_digit((b.last() % 16) as int)]
    }
}

fn hex_char(d: u8) -> (c: char)
    requires
        d < 16,
    ensures
        c == hex_digit(d as int),
{
    if d < 10 {
        (d + 48u8) as char
    } else {
        (d + 87u8) as char
    }
}

/// Each byte as two lower-case hex digits.
pub fn hex_lower(bytes: &[u8]) -> (s: String)
    ensures
        s@ == hex_spec(bytes@),
        s@.len() == 2 * bytes@.len(),
{
    let mut s = String::new();
    let mut i: usize = 0;
    while i < bytes.len()
        invariant
            i <= bytes@.len(),
            s@ == hex_spec(bytes@.take(i as int)),
            s@.len() == 2 * i,
        decreases bytes.len() - i,
    {
        let b = bytes[i];
        push_char(&mut s, hex_char(b / 16));
        push_char(&mut s, hex_char(b % 16));
        assert(bytes@.take(i + 1).drop_last() =~= bytes@.take(i as int));
        assert(s@ =~= hex_spec(bytes@.take(i + 1)));
        i = i + 1;
    }
    assert(bytes@.take(bytes@.len() as int) =~= bytes@);
    s
}

/// Whether `c` is an ASCII digit.
pub open spec fn is_digit(c: char) -> bool {
    '0' <= c && c <= '9'
}

/// The value of a run of ASCII digits.
pub open spec fn digits_value(s: Seq<char>) -> nat
    decreases s.len(),
{
    if s.len() == 0 {
        0
    } else {
        digits_value(s.drop_last()) * 10 + ((s.last() as int) - 48) as nat
    }
}

/// All characters are ASCII digits.
pub open spec fn all_digits(s: Seq<char>) -> bool {
    forall|i: int| 0 <= i < s.len() ==> is_digit(#[trigger] s[i])
}

/// The digits part of an unsigned integer literal: one leading `+` allowed.
pub open spec fn unsigned_body(s: Seq<char>) -> Seq<char> {
    if s.len() > 0 && s[0] == '+' {
        s.drop_first()
    } else {
        s
    }
}

/// What `str::parse` gives for an unsigned integer type whose maximum is
/// `max`: an optional `+`, then at least one ASCII digit, no overflow.
pub open spec fn parse_uint_spec(s: Seq<char>, max: int) -> Option<nat> {
    let d = unsigned_body(s);
    if d.len() > 0 && all_digits(d) && digits_value(d) <= max {
        Some(digits_value(d))
    } else {
        None
    }
}

proof fn lemma_digits_value_monotone(s: Seq<char>, k: int)
    requires
        0 <= k <= s.len(),
        all_digits(s),
    ensures
        digits_value(s.take(k)) <= digits_value(s),
    decreases s.len() - k,
{
    if k < s.len() {
        let t = s.drop_last();
        assert(t.take(k) =~= s.take(k));
        assert(all_digits(t));
        lemma_digits_value_monotone(t, k);
    } else {
        assert(s.take(k) =~= s);
    }
}

/// Parses `v[lo..hi]` as an unsigned integer no larger than `max`.
pub fn parse_uint(v: &Vec<char>, lo: usize, hi: usize, max: u64) -> (r: Option<u64>)
    requires
        lo <= hi <= v.len(),
        max >= 9,
    ensures
        match r {
            Some(x) => parse_uint_spec(v@.subrange(lo as int, hi as int), max as int) == Some(
                x as nat,
            ),
            None => parse_uint_spec(v@.subrange(lo as int, hi as int), max as int) is None,
        },
{
    let ghost s = v@.subrange(lo as int, hi as int);
    let start = if lo < hi && v[lo] == '+' {
        lo + 1
    } else {
        lo
    };
    let ghost d = v@.subrange(start as int, hi as int);
    assert(unsigned_body(s) =~= d);
    if start == hi {
        return None;
    }
    let mut acc: u64 = 0;
    let mut i = start;
    while i < hi
        invariant
            start <= i <= hi <= v.len(),
            start < hi,
            max >= 9,
            d == v@.subrange(start as int, hi as int),
            s == v@.subrange(lo as int, hi as int),
            unsigned_body(s) == d,
            acc as nat == digits_value(d.take(i - start)),
            acc <= max,
            all_digits(d.take(i - start)),
        decreases hi - i,
    {
        let c = v[i];
        assert(d[i - start] == c);
        if !('0' <= c && c <= '9') {
            assert(!all_digits(d));
            return None;
        }
        let dg: u64 = ((c as u32) - 48) as u64;
        assert(d.take(i - start + 1).drop_last() =~= d.take(i - start));
        if acc > (max - dg) / 10 {
            proof {
                assert(acc * 10 + dg > max) by (nonlinear_arith)
                    requires
                        acc > (max - dg) / 10,
                        dg <= 9,
                        max >= 9,
                ;
                if all_digits(d) {
                    lemma_digits_value_monotone(d, i - start + 1);
                }
            }
            return None;
        }
        assert(acc * 10 + dg <= max) by (nonlinear_arith)
            requires
                acc <= (max - dg) / 10,
                dg <= 9,
                max >= 9,
        ;
        acc = acc * 10 + dg;
        assert(all_digits(d.take(i - start + 1)));
        i = i + 1;
    }
    assert(d.take(hi - start) =~= d);
    Some(acc)
}

/// `str::parse::<u64>()`.
pub fn parse_u64(s: &str) -> (r: Option<u64>)
    ensures
        match r {
            Some(x) => parse_uint_spec(s@, u64::MAX as int) == Some(x as nat),
            None => parse_uint_spec(s@, u64::MAX as int) is None,
        },
{
    let v = chars_of(s);
    assert(v@.subrange(0, v@.len() as int) =~= v@);
    parse_uint(&v, 0, v.len(), u64::MAX)
}

/// Reading back a rendered number gives the number.
pub proof fn lemma_decimal_parses_back(n: nat)
    requires
        n <= u64::MAX,
    ensures
        parse_uint_spec(decimal(n), u64::MAX as int) == Some(n),
{
    lemma_decimal_digits(n);
}

pub(crate) proof fn lemma_decimal_digits(n: nat)
    ensures
        all_digits(decimal(n)),
        digits_value(decimal(n)) == n,
        decimal(n).len() > 0,
        decimal(n)[0] != '+',
    decreases n,
{
    assert((digit_char((n % 10) as int) as int) == (n % 10) + 48);
    if n >= 10 {
        lemma_decimal_digits(n / 10);
        assert(decimal(n).drop_last() =~= decimal(n / 10));
        assert(decimal(n)[0] == decimal(n / 10)[0]);
        assert(decimal(n).last() == digit_char((n % 10) as int));
        assert(digits_value(decimal(n)) == digits_value(decimal(n / 10)) * 10 + n % 10);
        assert((n / 10) * 10 + n % 10 == n);
    } else {
        assert(decimal(n).drop_last() =~= Seq::<char>::empty());
        assert(n % 10 == n);
        assert(digits_value(Seq::<char>::empty()) == 0);
        assert(digits_value(decimal(n).drop_last()) == 0);
        assert(digits_value(decimal(n)) == ((decimal(n).last() as int) - 48) as nat);
    }
}

// ---------------------------------------------------------------------------
// Lexicographic order (byte order of UTF-8 text is code-point order)
// ---------------------------------------------------------------------------

/// `a` sorts strictly before `b`.
pub open spec fn lex_lt(a: Seq<char>, b: Seq<char>) -> bool
    decreases a.len(),
{
    if a.len() == 0 {
        b.len() > 0
    } else if b.len() == 0 {
        false
    } else if a[0] == b[0] {
        lex_lt(a.drop_first(), b.drop_first())
    } else {
        a[0] < b[0]
    }
}

/// `a` sorts before or equal to `b` (the order of `String`'s `Ord`).
pub open spec fn lex_le(a: Seq<char>, b: Seq<char>) -> bool {
    a == b || lex_lt(a, b)
}

proof fn lemma_lex_irreflexive(a: Seq<char>)
    ensures
        !lex_lt(a, a),
    decreases a.len(),
{
    if a.len() > 0 {
        lemma_lex_irreflexive(a.drop_first());
    }
}

proof fn lemma_lex_asym(a: Seq<char>, b: Seq<char>)
    ensures
        !(lex_lt(a, b) && lex_lt(b, a)),
    decreases a.len(),
{
    if a.len() > 0 && b.len() > 0 && a[0] == b[0] {
        lemma_lex_asym(a.drop_first(), b.drop_first());
    }
}

proof fn lemma_lex_trans(a: Seq<char>, b: Seq<char>, c: Seq<char>)
    requires
        lex_lt(a, b),
        lex_lt(b, c),
    ensures
        lex_lt(a, c),
    decreases a.len(),
{
    if a.len() > 0 && b.len() > 0 && c.len() > 0 && a[0] == b[0] && b[0] == c[0] {
        lemma_lex_trans(a.drop_first(), b.drop_first(), c.drop_first());
    }
}

proof fn lemma_lex_total(a: Seq<char>, b: Seq<char>)
    ensures
        a == b || lex_lt(a, b) || lex_lt(b, a),
    decreases a.len(),
{
    if a.len() > 0 && b.len() > 0 && a[0] == b[0] {
        lemma_lex_total(a.drop_first(), b.drop_first());
        if a.drop_first() == b.drop_first() {
            assert(a =~= seq![a[0]] + a.drop_first());
            assert(b =~= seq![b[0]] + b.drop_first());
        }
    } else if a.len() == 0 && b.len() == 0 {
        assert(a =~= b);
    }
}

/// `lex_le` is a total order.
pub proof fn lemma_lex_le_total_ordering()
    ensures
        vstd::relations::total_ordering(|a: Seq<char>, b: Seq<char>| lex_le(a, b)),
{
    let r = |a: Seq<char>, b: Seq<char>| lex_le(a, b);
    assert forall|a: Seq<char>, b: Seq<char>| #[trigger] r(a, b) && #[trigger] r(b, a) implies a
        == b by {
        lemma_lex_asym(a, b);
    }
    assert forall|a: Seq<char>, b: Seq<char>, c: Seq<char>| #[trigger] r(a, b) && #[trigger] r(
        b,
        c,
    ) implies r(a, c) by {
        if a != b && b != c {
            lemma_lex_trans(a, b, c);
        }
    }
    assert forall|a: Seq<char>, b: Seq<char>| #[trigger] r(a, b) || #[trigger] r(b, a) by {
        lemma_lex_total(a, b);
    }
}

/// Whether `a` sorts strictly before `b`.
pub fn lex_less(a: &Vec<char>, b: &Vec<char>) -> (r: bool)
    ensures
        r == lex_lt(a@, b@),
{
    let mut i: usize = 0;
    assert(a@.skip(0) =~= a@);
    assert(b@.skip(0) =~= b@);
    while i < a.len() && i < b.len() && a[i] == b[i]
        invariant
            i <= a.len(),
            i <= b.len(),
            forall|j: int| 0 <= j < i ==> a@[j] == b@[j],
            lex_lt(a@, b@) == lex_lt(a@.skip(i as int), b@.skip(i as int)),
        decreases a.len() - i,
    {
        assert(a@.skip(i as int).drop_first() =~= a@.skip(i + 1));
        assert(b@.skip(i as int).drop_first() =~= b@.skip(i + 1));
        i = i + 1;
    }
    if i == a.len() {
        i < b.len()
    } else if i == b.len() {
        false
    } else {
        a[i] < b[i]
    }
}


/// The order of `String`'s `Ord`, as a relation.
pub open spec fn lex_order() -> spec_fn(Seq<char>, Seq<char>) -> bool {
    |a: Seq<char>, b: Seq<char>| lex_le(a, b)
}

proof fn lemma_insert_keeps_sorted(s: Seq<Seq<char>>, j: int, x: Seq<char>)
    requires
        vstd::relations::sorted_by(s, lex_order()),
        0 <= j <= s.len(),
        forall|k: int| 0 <= k < j ==> !lex_lt(x, #[trigger] s[k]),
        j < s.len() ==> lex_lt(x, s[j]),
    ensures
        vstd::relations::sorted_by(s.insert(j, x), lex_order()),
{
    lemma_lex_le_total_ordering();
    let t = s.insert(j, x);
    assert forall|a: int, b: int| 0 <= a < b < t.len() implies #[trigger] lex_order()(
        t[a],
        t[b],
    ) by {
        if a < j && b < j {
            assert(lex_order()(s[a], s[b]));
        } else if a < j && b == j {
            lemma_lex_total(x, s[a]);
        } else if a < j && b > j {
            lemma_lex_total(x, s[a]);
            assert(lex_order()(s[a], s[b - 1]));
        } else if a == j {
            assert(lex_order()(s[j], s[b - 1]));
            if s[j] != s[b - 1] {
                lemma_lex_trans(x, s[j], s[b - 1]);
            }
        } else {
            assert(lex_order()(s[a - 1], s[b - 1]));
        }
    }
}

proof fn lemma_views_insert(v: Seq<String>, j: int, x: String)
    requires
        0 <= j <= v.len(),
    ensures
        views(v.insert(j, x)) == views(v).insert(j, x@),
{
    assert(views(v.insert(j, x)) =~= views(v).insert(j, x@));
}

/// The strings in ascending `String` order (`<[String]>::sort`).
pub fn sort_strings(v: &Vec<String>) -> (r: Vec<String>)
    ensures
        views(r@) == views(v@).sort_by(lex_order()),
{
    let mut r: Vec<String> = Vec::new();
    let mut i: usize = 0;
    assert(views(r@) =~= views(v@.take(0)));
    while i < v.len()
        invariant
            i <= v.len(),
            vstd::relations::sorted_by(views(r@), lex_order()),
            views(r@).to_multiset() == views(v@.take(i as int)).to_multiset(),
        decreases v.len() - i,
    {
        let xv = chars_of(v[i].as_str());
        let mut j: usize = 0;
        while j < r.len() && !lex_less(&xv, &chars_of(r[j].as_str()))
            invariant
                j <= r.len(),
                xv@ == v@[i as int]@,
                forall|k: int| 0 <= k < j ==> !lex_lt(xv@, #[trigger] views(r@)[k]),
            decreases r.len() - j,
        {
            j = j + 1;
        }
        proof {
            lemma_insert_keeps_sorted(views(r@), j as int, xv@);
            lemma_views_insert(r@, j as int, v@[i as int]);
            assert(views(v@.take(i + 1)) =~= views(v@.take(i as int)).push(v@[i as int]@));
        }
        let ghost old_r = views(r@);
        let item = v[i].clone();
        r.insert(j, item);
        proof {
            assert(views(r@) == old_r.insert(j as int, v@[i as int]@));
            vstd::seq_lib::to_multiset_insert(old_r, j as int, v@[i as int]@);
            vstd::seq_lib::to_multiset_build(views(v@.take(i as int)), v@[i as int]@);
            assert(old_r.insert(j as int, v@[i as int]@).to_multiset() == old_r.to_multiset().insert(
                v@[i as int]@,
            ));
            assert(views(v@.take(i as int)).push(v@[i as int]@).to_multiset() == views(
                v@.take(i as int),
            ).to_multiset().insert(v@[i as int]@));
        }
        i = i + 1;
    }
    proof {
        assert(v@.take(v@.len() as int) =~= v@);
        lemma_lex_le_total_ordering();
        views(v@).lemma_sort_by_ensures(lex_order());
        vstd::seq_lib::lemma_sorted_unique(views(r@), views(v@).sort_by(lex_order()), lex_order());
    }
    r
}


/// The texts of a sequence of string pairs.
pub open spec fn pair_views(v: Seq<(String, String)>) -> Seq<(Seq<char>, Seq<char>)> {
    v.map_values(|p: (String, String)| (p.0@, p.1@))
}

/// `a` sorts strictly before `b`, first by the first string, then by the
/// second (the order of `(String, String)`'s `Ord`).
pub open spec fn pair_lt(a: (Seq<char>, Seq<char>), b: (Seq<char>, Seq<char>)) -> bool {
    lex_lt(a.0, b.0) || (a.0 == b.0 && lex_lt(a.1, b.1))
}

/// The order of pairs of strings, as a relation.
pub open spec fn pair_order() -> spec_fn((Seq<char>, Seq<char>), (Seq<char>, Seq<char>)) -> bool {
    |a: (Seq<char>, Seq<char>), b: (Seq<char>, Seq<char>)| a == b || pair_lt(a, b)
}

proof fn lemma_pair_facts(a: (Seq<char>, Seq<char>), b: (Seq<char>, Seq<char>), c: (Seq<char>, Seq<char>))
    ensures
        !(pair_lt(a, b) && pair_lt(b, a)),
        a == b || pair_lt(a, b) || pair_lt(b, a),
        pair_lt(a, b) && pair_lt(b, c) ==> pair_lt(a, c),
        !pair_lt(a, a),
{
    lemma_lex_asym(a.0, b.0);
    lemma_lex_asym(a.1, b.1);
    lemma_lex_total(a.0, b.0);
    lemma_lex_total(a.1, b.1);
    lemma_lex_irreflexive(a.0);
    lemma_lex_irreflexive(a.1);
    if lex_lt(a.0, b.0) && lex_lt(b.0, c.0) {
        lemma_lex_trans(a.0, b.0, c.0);
    }
    if lex_lt(a.1, b.1) && lex_lt(b.1, c.1) {
        lemma_lex_trans(a.1, b.1, c.1);
    }
}

/// The order of string pairs is a total order.
pub proof fn lemma_pair_total_ordering()
    ensures
        vstd::relations::total_ordering(pair_order()),
{
    let r = pair_order();
    assert forall|a: (Seq<char>, Seq<char>), b: (Seq<char>, Seq<char>)| #[trigger] r(a, b) && #[trigger] r(b, a) implies a == b by {
        lemma_pair_facts(a, b, a);
    }
    assert forall|a: (Seq<char>, Seq<char>), b: (Seq<char>, Seq<char>), c: (Seq<char>, Seq<char>)| #[trigger] r(a, b) && #[trigger] r(b, c) implies r(a, c) by {
        lemma_pair_facts(a, b, c);
    }
    assert forall|a: (Seq<char>, Seq<char>), b: (Seq<char>, Seq<char>)| #[trigger] r(a, b) || #[trigger] r(b, a) by {
        lemma_pair_facts(a, b, a);
    }
}

proof fn lemma_pair_insert_keeps_sorted(s: Seq<(Seq<char>, Seq<char>)>, j: int, x: (Seq<char>, Seq<char>))
    requires
        vstd::relations::sorted_by(s, pair_order()),
        0 <= j <= s.len(),
        forall|k: int| 0 <= k < j ==> !pair_lt(x, #[trigger] s[k]),
        j < s.len() ==> pair_lt(x, s[j]),
    ensures
        vstd::relations::sorted_by(s.insert(j, x), pair_order()),
{
    let t = s.insert(j, x);
    assert forall|a: int, b: int| 0 <= a < b < t.len() implies #[trigger] pair_order()(t[a], t[b]) by {
        if a < j && b < j {
            assert(pair_order()(s[a], s[b]));
        } else if a < j && b == j {
            lemma_pair_facts(x, s[a], x);
        } else if a < j && b > j {
            lemma_pair_facts(x, s[a], x);
            assert(pair_order()(s[a], s[b - 1]));
            lemma_pair_facts(s[a], x, s[b - 1]);
            lemma_pair_facts(s[a], s[j], s[b - 1]);
            lemma_pair_facts(x, s[j], s[b - 1]);
        } else if a == j {
            assert(pair_order()(s[j], s[b - 1]));
            lemma_pair_facts(x, s[j], s[b - 1]);
        } else {
            assert(pair_order()(s[a - 1], s[b - 1]));
        }
    }
}

/// Whether pair `a` sorts strictly before pair `b`.
pub fn pair_less(a0: &Vec<char>, a1: &Vec<char>, b0: &Vec<char>, b1: &Vec<char>) -> (r: bool)
    ensures
        r == pair_lt((a0@, a1@), (b0@, b1@)),
{
    if lex_less(a0, b0) {
        true
    } else if lex_less(b0, a0) {
        false
    } else {
        proof {
            lemma_lex_total(a0@, b0@);
        }
        lex_less(a1, b1)
    }
}

/// The pairs in ascending order (`<[(String, String)]>::sort`).
pub fn sort_pairs(v: &Vec<(String, String)>) -> (r: Vec<(String, String)>)
    ensures
        pair_views(r@) == pair_views(v@).sort_by(pair_order()),
{
    let mut r: Vec<(String, String)> = Vec::new();
    let mut i: usize = 0;
    assert(pair_views(r@) =~= pair_views(v@.take(0)));
    while i < v.len()
        invariant
            i <= v.len(),
            vstd::relations::sorted_by(pair_views(r@), pair_order()),
            pair_views(r@).to_multiset() == pair_views(v@.take(i as int)).to_multiset(),
        decreases v.len() - i,
    {
        let x0 = chars_of(v[i].0.as_str());
        let x1 = chars_of(v[i].1.as_str());
        let ghost x = (v@[i as int].0@, v@[i as int].1@);
        let mut j: usize = 0;
        while j < r.len() && !pair_less(&x0, &x1, &chars_of(r[j].0.as_str()), &chars_of(r[j].1.as_str()))
            invariant
                j <= r.len(),
                (x0@, x1@) == x,
                forall|k: int| 0 <= k < j ==> !pair_lt(x, #[trigger] pair_views(r@)[k]),
            decreases r.len() - j,
        {
            j = j + 1;
        }
        let ghost old_r = pair_views(r@);
        proof {
            lemma_pair_insert_keeps_sorted(old_r, j as int, x);
            assert(pair_views(v@.take(i + 1)) =~= pair_views(v@.take(i as int)).push(x));
        }
        let item = (v[i].0.clone(), v[i].1.clone());
        r.insert(j, item);
        proof {
            assert(pair_views(r@) =~= old_r.insert(j as int, x));
            vstd::seq_lib::to_multiset_insert(old_r, j as int, x);
            vstd::seq_lib::to_multiset_build(pair_views(v@.take(i as int)), x);
        }
        i = i + 1;
    }
    proof {
        assert(v@.take(v@.len() as int) =~= v@);
        lemma_pair_total_ordering();
        pair_views(v@).lemma_sort_by_ensures(pair_order());
        vstd::seq_lib::lemma_sorted_unique(pair_views(r@), pair_views(v@).sort_by(pair_order()), pair_order());
    }
    r
}

} // verus!
