//! The series table of the data endpoint: every series named by any
//! bucket's sample, in the order first seen, with one slot per bucket
//! (empty where the bucket had no sample or the sample lacked the series).
//! The values themselves are opaque here.

use vstd::prelude::*;
use crate::text::same_text;

verus! {

/// One named value of a bucket: (bucket, series name, value).
pub open spec fn flat_entries<V>(buckets: Seq<Option<Vec<(String, V)>>>) -> Seq<(int, Seq<char>, V)>
    decreases buckets.len(),
{
    if buckets.len() == 0 {
        seq![]
    } else {
        let i = buckets.len() - 1;
        flat_entries(buckets.drop_last()) + match buckets.last() {
            Some(es) => es@.map_values(|e: (String, V)| (i, e.0@, e.1)),
            None => seq![],
        }
    }
}

/// The series names in the order first seen.
pub open spec fn first_seen<V>(es: Seq<(int, Seq<char>, V)>) -> Seq<Seq<char>>
    decreases es.len(),
{
    if es.len() == 0 {
        seq![]
    } else if first_seen(es.drop_last()).contains(es.last().1) {
        first_seen(es.drop_last())
    } else {
        first_seen(es.drop_last()).push(es.last().1)
    }
}

/// The value of series `name` in bucket `i`: the last one given there.
pub open spec fn slot_value<V>(es: Seq<(int, Seq<char>, V)>, name: Seq<char>, i: int) -> Option<V>
    decreases es.len(),
{
    if es.len() == 0 {
        None
    } else if es.last().0 == i && es.last().1 == name {
        Some(es.last().2)
    } else {
        slot_value(es.drop_last(), name, i)
    }
}

/// `row` is series `name` over `n` buckets.
pub open spec fn row_of<V>(es: Seq<(int, Seq<char>, V)>, name: Seq<char>, row: Seq<Option<V>>, n: int) -> bool {
    &&& row.len() == n
    &&& forall|i: int| 0 <= i < n ==> #[trigger] row[i] == slot_value(es, name, i)
}

/// The names of a table.
pub open spec fn table_names<V>(t: Seq<(String, Vec<Option<V>>)>) -> Seq<Seq<char>> {
    t.map_values(|r: (String, Vec<Option<V>>)| r.0@)
}

fn index_of<V>(t: &Vec<(String, Vec<Option<V>>)>, name: &str) -> (r: Option<usize>)
    ensures
        match r {
            Some(k) => k < t@.len() && t@[k as int].0@ == name@,
            None => !table_names(t@).contains(name@),
        },
{
    let mut k: usize = 0;
    while k < t.len()
        invariant
            k <= t@.len(),
            forall|j: int| 0 <= j < k ==> (#[trigger] t@[j]).0@ != name@,
        decreases t.len() - k,
    {
        if same_text(t[k].0.as_str(), name) {
            return Some(k);
        }
        k = k + 1;
    }
    proof {
        if table_names(t@).contains(name@) {
            let j = choose|j: int| 0 <= j < table_names(t@).len() && table_names(t@)[j] == name@;
            assert(t@[j].0@ == name@);
        }
    }
    None
}

/// The series table of `buckets` (one per time bucket, `None` where the
/// bucket had no sample): each series named anywhere, first-seen order,
/// with the bucket's value or nothing in each slot.
pub fn align_series<V: Copy>(buckets: &Vec<Option<Vec<(String, V)>>>) -> (t: Vec<(String, Vec<Option<V>>)>)
    ensures
        table_names(t@) == first_seen(flat_entries(buckets@)),
        forall|k: int|
            0 <= k < t@.len() ==> row_of(flat_entries(buckets@), (#[trigger] t@[k]).0@, t@[k].1@, buckets@.len() as int),
{
    let n = buckets.len();
    let mut table: Vec<(String, Vec<Option<V>>)> = Vec::new();
    let mut b: usize = 0;
    while b < n
        invariant
            b <= n == buckets@.len(),
            table_names(table@) == first_seen(flat_entries(buckets@.take(b as int))),
            forall|k: int|
                0 <= k < table@.len() ==> row_of(
                    flat_entries(buckets@.take(b as int)),
                    (#[trigger] table@[k]).0@,
                    table@[k].1@,
                    n as int,
                ),
        decreases n - b,
    {
        let ghost done = flat_entries(buckets@.take(b as int));
        proof {
            assert(buckets@.take(b + 1).drop_last() =~= buckets@.take(b as int));
            assert(buckets@.take(b + 1).last() == buckets@[b as int]);
        }
        match &buckets[b] {
            None => {
                assert(flat_entries(buckets@.take(b + 1)) =~= done);
            },
            Some(es) => {
                let ghost add = es@.map_values(|e: (String, V)| (b as int, e.0@, e.1));
                assert(flat_entries(buckets@.take(b + 1)) == done + add);
                let mut j: usize = 0;
                while j < es.len()
                    invariant
                        b < n,
                        j <= es@.len(),
                        add == es@.map_values(|e: (String, V)| (b as int, e.0@, e.1)),
                        table_names(table@) == first_seen(done + add.take(j as int)),
                        forall|k: int|
                            0 <= k < table@.len() ==> row_of(
                                done + add.take(j as int),
                                (#[trigger] table@[k]).0@,
                                table@[k].1@,
                                n as int,
                            ),
                    decreases es.len() - j,
                {
                    let ghost prev = done + add.take(j as int);
                    let ghost next = done + add.take(j + 1);
                    let ghost e = (b as int, es@[j as int].0@, es@[j as int].1);
                    proof {
                        assert(add[j as int] == e);
                        assert(next =~= prev.push(e));
                        assert(next.drop_last() == prev);
                        assert(next.last() == e);
                    }
                    let name = es[j].0.as_str();
                    let val = es[j].1;
                    let ghost old_table = table@;
                    match index_of(&table, name) {
                        Some(k) => {
                            let (nm, mut row) = table.remove(k);
                            row.set(b, Some(val));
                            table.insert(k, (nm, row));
                            proof {
                                assert(table_names(old_table)[k as int] == name@);
                                assert(first_seen(prev).contains(name@));
                                assert(first_seen(next) == first_seen(prev));
                                lemma_first_seen_distinct(prev);
                                assert(table_names(table@) =~= table_names(old_table));
                                assert forall|q: int| 0 <= q < table@.len() implies row_of(
                                    next,
                                    (#[trigger] table@[q]).0@,
                                    table@[q].1@,
                                    n as int,
                                ) by {
                                    assert(row_of(prev, old_table[q].0@, old_table[q].1@, n as int));
                                    if q != k {
                                        assert(table@[q] == old_table[q]);
                                        assert(table_names(old_table)[q] == old_table[q].0@);
                                        assert(old_table[q].0@ != name@);
                                        assert forall|i: int| 0 <= i < n implies #[trigger] table@[q].1@[i]
                                            == slot_value(next, table@[q].0@, i) by {
                                            assert(old_table[q].1@[i] == slot_value(prev, old_table[q].0@, i));
                                        }
                                    } else {
                                        assert forall|i: int| 0 <= i < n implies #[trigger] table@[q].1@[i]
                                            == slot_value(next, table@[q].0@, i) by {
                                            if i != b {
                                                assert(old_table[q].1@[i] == slot_value(prev, old_table[q].0@, i));
                                            }
                                        }
                                    }
                                }
                            }
                        },
                        None => {
                            let mut row: Vec<Option<V>> = Vec::new();
                            let mut i: usize = 0;
                            while i < n
                                invariant
                                    i <= n,
                                    row@.len() == i,
                                    forall|x: int| 0 <= x < i ==> row@[x] is None,
                                decreases n - i,
                            {
                                row.push(None);
                                i = i + 1;
                            }
                            row.set(b, Some(val));
                            table.push((es[j].0.clone(), row));
                            proof {
                                lemma_slot_absent(prev, name@);
                                assert(first_seen(next) == first_seen(prev).push(name@));
                                assert(table_names(table@) =~= table_names(old_table).push(name@));
                                assert forall|q: int| 0 <= q < table@.len() implies row_of(
                                    next,
                                    (#[trigger] table@[q]).0@,
                                    table@[q].1@,
                                    n as int,
                                ) by {
                                    if q < old_table.len() {
                                        assert(table@[q] == old_table[q]);
                                        assert(row_of(prev, old_table[q].0@, old_table[q].1@, n as int));
                                        assert(table_names(old_table)[q] == old_table[q].0@);
                                        assert(first_seen(prev).contains(old_table[q].0@));
                                        assert(old_table[q].0@ != name@);
                                        assert forall|i: int| 0 <= i < n implies #[trigger] table@[q].1@[i]
                                            == slot_value(next, table@[q].0@, i) by {
                                            assert(old_table[q].1@[i] == slot_value(prev, old_table[q].0@, i));
                                        }
                                    } else {
                                        assert(table@[q].0@ == name@);
                                        assert forall|i: int| 0 <= i < n implies #[trigger] table@[q].1@[i]
                                            == slot_value(next, table@[q].0@, i) by {
                                            if i != b {
                                                assert(slot_value(prev, name@, i) is None);
                                            }
                                        }
                                    }
                                }
                            }
                        },
                    }
                    j = j + 1;
                }
                assert(add.take(es@.len() as int) =~= add);
            },
        }
        b = b + 1;
    }
    assert(buckets@.take(n as int) =~= buckets@);
    table
}

proof fn lemma_first_seen_grows<V>(es: Seq<(int, Seq<char>, V)>)
    requires
        es.len() > 0,
    ensures
        first_seen(es).contains(es.last().1),
        forall|x: Seq<char>| first_seen(es.drop_last()).contains(x) ==> #[trigger] first_seen(es).contains(x),
{
    let p = first_seen(es.drop_last());
    if !p.contains(es.last().1) {
        let g = p.push(es.last().1);
        assert(g[g.len() - 1] == es.last().1);
        assert forall|x: Seq<char>| p.contains(x) implies #[trigger] first_seen(es).contains(x) by {
            let k = choose|k: int| 0 <= k < p.len() && p[k] == x;
            assert(g[k] == x);
        }
    }
}

proof fn lemma_slot_absent<V>(es: Seq<(int, Seq<char>, V)>, name: Seq<char>)
    requires
        !first_seen(es).contains(name),
    ensures
        forall|i: int| #[trigger] slot_value(es, name, i) is None,
    decreases es.len(),
{
    if es.len() > 0 {
        lemma_first_seen_grows(es);
        assert(es.last().1 != name);
        assert(!first_seen(es.drop_last()).contains(name)) by {
            if first_seen(es.drop_last()).contains(name) {
                assert(first_seen(es).contains(name));
            }
        }
        lemma_slot_absent(es.drop_last(), name);
        assert forall|i: int| #[trigger] slot_value(es, name, i) is None by {
            assert(slot_value(es.drop_last(), name, i) is None);
        }
    }
}

/// No series has two rows.
pub proof fn lemma_first_seen_distinct<V>(es: Seq<(int, Seq<char>, V)>)
    ensures
        forall|a: int, b: int|
            #![trigger first_seen(es)[a], first_seen(es)[b]]
            0 <= a < b < first_seen(es).len() ==> first_seen(es)[a] != first_seen(es)[b],
    decreases es.len(),
{
    if es.len() > 0 {
        let p = first_seen(es.drop_last());
        lemma_first_seen_distinct(es.drop_last());
        let x = es.last().1;
        if !p.contains(x) {
            let f = p.push(x);
            assert forall|a: int, b: int| 0 <= a < b < f.len() implies f[a] != f[b] by {
                if b < p.len() {
                    assert(f[a] == p[a] && f[b] == p[b]);
                } else {
                    assert(f[b] == x);
                    assert(f[a] == p[a]);
                    if p[a] == x {
                        assert(p.contains(x));
                    }
                }
            }
        }
    }
}

/// A slot holds a value only when some entry gave that series that value
/// in that bucket, and then it is the last such entry: later entries for
/// the same series and bucket override earlier ones.
pub proof fn lemma_slot_value_is_last<V>(es: Seq<(int, Seq<char>, V)>, name: Seq<char>, i: int)
    ensures
        (forall|k: int| 0 <= k < es.len() ==> !((#[trigger] es[k]).0 == i && es[k].1 == name)) ==> slot_value(
            es,
            name,
            i,
        ) is None,
        slot_value(es, name, i) matches Some(v) ==> exists|k: int|
            0 <= k < es.len() && #[trigger] es[k] == (i, name, v) && forall|q: int|
                k < q < es.len() ==> !((#[trigger] es[q]).0 == i && es[q].1 == name),
    decreases es.len(),
{
    if es.len() > 0 {
        lemma_slot_value_is_last(es.drop_last(), name, i);
        let l = es.last();
        if l.0 == i && l.1 == name {
            assert(es[es.len() - 1] == (i, name, l.2));
        } else {
            if forall|k: int| 0 <= k < es.len() ==> !((#[trigger] es[k]).0 == i && es[k].1 == name) {
                assert forall|k: int| 0 <= k < es.drop_last().len() implies !((#[trigger] es.drop_last()[k]).0 == i
                    && es.drop_last()[k].1 == name) by {
                    assert(es.drop_last()[k] == es[k]);
                }
            }
            if slot_value(es, name, i) is Some {
                let v = slot_value(es, name, i)->0;
                let k = choose|k: int|
                    0 <= k < es.drop_last().len() && #[trigger] es.drop_last()[k] == (i, name, v) && forall|q: int|
                        k < q < es.drop_last().len() ==> !((#[trigger] es.drop_last()[q]).0 == i && es.drop_last()[q].1
                            == name);
                assert(es[k] == es.drop_last()[k]);
                assert forall|q: int| k < q < es.len() implies !((#[trigger] es[q]).0 == i && es[q].1 == name) by {
                    if q < es.len() - 1 {
                        assert(es.drop_last()[q] == es[q]);
                    }
                }
            }
        }
    }
}

/// Every series named by some entry has a row.
pub proof fn lemma_first_seen_complete<V>(es: Seq<(int, Seq<char>, V)>, k: int)
    requires
        0 <= k < es.len(),
    ensures
        first_seen(es).contains(es[k].1),
    decreases es.len(),
{
    lemma_first_seen_grows(es);
    if k < es.len() - 1 {
        lemma_first_seen_complete(es.drop_last(), k);
        assert(es.drop_last()[k] == es[k]);
    }
}

} // verus!
