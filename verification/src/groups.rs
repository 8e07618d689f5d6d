//! Totals by name, in the order in which names come first.

use vstd::hash_map::StringHashMap;
use vstd::prelude::*;

use crate::order;
use crate::order::order;
use crate::text;

verus! {

/// The names among the first `n`, each once, in the order in which they come.
pub open spec fn distinct(names: Seq<Seq<char>>, n: int) -> Seq<Seq<char>>
    decreases n,
{
    if n <= 0 {
        Seq::empty()
    } else {
        let d = distinct(names, n - 1);
        if d.contains(names[n - 1]) {
            d
        } else {
            d.push(names[n - 1])
        }
    }
}

/// No name stands twice among the distinct ones, and each of the first `n`
/// stands there.
pub proof fn distinct_names(names: Seq<Seq<char>>, n: int)
    requires
        0 <= n <= names.len(),
    ensures
        distinct(names, n).no_duplicates(),
        distinct(names, n).len() <= n,
        forall|i: int| 0 <= i < n ==> distinct(names, n).contains(#[trigger] names[i]),
        forall|k: int|
            0 <= k < distinct(names, n).len() ==> names.take(n).contains(
                #[trigger] distinct(names, n)[k],
            ),
    decreases n,
{
    if n > 0 {
        distinct_names(names, n - 1);
        let d = distinct(names, n - 1);
        let e = distinct(names, n);
        assert forall|i: int| 0 <= i < n implies e.contains(#[trigger] names[i]) by {
            if i < n - 1 {
                assert(d.contains(names[i]));
                let k = choose|k: int| 0 <= k < d.len() && d[k] == names[i];
                assert(e[k] == names[i]);
            } else if !d.contains(names[i]) {
                assert(e[d.len() as int] == names[i]);
            }
        }
        assert forall|k: int| 0 <= k < e.len() implies names.take(n).contains(#[trigger] e[k]) by {
            if k < d.len() {
                assert(names.take(n - 1).contains(d[k]));
                let shorter = names.take(n - 1);
                let i = choose|i: int| 0 <= i < shorter.len() && shorter[i] == d[k];
                assert(names.take(n)[i] == d[k]);
            } else {
                assert(names.take(n)[n - 1] == e[k]);
            }
        }
    }
}

/// Names, each with a number in place of it.
#[derive(Debug)]
pub struct Interned {
    pub names: Vec<String>,
    pub ids: Vec<usize>,
}

/// Numbers names in the order in which they come first.
pub fn intern(all: &[String]) -> (r: Interned)
    ensures
        text::texts(r.names@) == distinct(text::texts(all@), all@.len() as int),
        r.names@.len() <= all@.len(),
        text::texts(r.names@).no_duplicates(),
        r.ids@.len() == all@.len(),
        forall|i: int|
            0 <= i < all@.len() ==> (#[trigger] r.ids@[i]) < r.names@.len() && text::texts(
                r.names@,
            )[r.ids@[i] as int] == all@[i]@,
{
    let ghost want = text::texts(all@);
    let mut names: Vec<String> = Vec::new();
    let mut ids: Vec<usize> = Vec::new();
    let mut known: StringHashMap<usize> = StringHashMap::new();
    let mut i: usize = 0;
    while i < all.len()
        invariant
            i <= all@.len(),
            want == text::texts(all@),
            text::texts(names@) =~= distinct(want, i as int),
            names@.len() <= i,
            ids@.len() == i,
            forall|k: int|
                0 <= k < i ==> (#[trigger] ids@[k]) < names@.len() && text::texts(
                    names@,
                )[ids@[k] as int] == want[k],
            forall|s: Seq<char>| #[trigger]
                known@.contains_key(s) ==> known@[s] < names@.len() && text::texts(
                    names@,
                )[known@[s] as int] == s,
            forall|k: int|
                0 <= k < names@.len() ==> known@.contains_key(#[trigger] text::texts(names@)[k]),
        decreases all@.len() - i,
    {
        let ghost before = names@;
        let ghost d = text::texts(before);
        assert(want[i as int] == all@[i as int]@);
        proof {
            distinct_names(want, i as int);
        }
        match known.get(all[i].as_str()) {
            Some(k) => {
                assert(d[*k as int] == want[i as int]);
                ids.push(*k);
            },
            None => {
                assert(!d.contains(want[i as int]));
                let id: usize = names.len();
                names.push(all[i].clone());
                assert(text::texts(names@) =~= d.push(want[i as int]));
                known.insert(all[i].clone(), id);
                ids.push(id);
                assert forall|k: int| 0 <= k < names@.len() implies known@.contains_key(
                    #[trigger] text::texts(names@)[k],
                ) by {
                    if k < before.len() {
                        assert(text::texts(names@)[k] == d[k]);
                    }
                }
            },
        }
        i = i + 1;
    }
    proof {
        distinct_names(want, all@.len() as int);
    }
    Interned { names, ids }
}

// ---------------------------------------------------------------------------
// Totals
// ---------------------------------------------------------------------------

/// How often a name stands among the first `n`.
pub open spec fn count_of(names: Seq<Seq<char>>, name: Seq<char>, n: int) -> int
    decreases n,
{
    if n <= 0 {
        0
    } else {
        count_of(names, name, n - 1) + (if names[n - 1] == name {
            1int
        } else {
            0
        })
    }
}

/// The sum of a name's amounts among the first `n`.
pub open spec fn sum_of(names: Seq<Seq<char>>, amounts: Seq<i64>, name: Seq<char>, n: int) -> int
    decreases n,
{
    if n <= 0 {
        0
    } else {
        sum_of(names, amounts, name, n - 1) + (if names[n - 1] == name {
            amounts[n - 1] as int
        } else {
            0
        })
    }
}

/// The sum of the first `n` amounts.
pub open spec fn sum(amounts: Seq<i64>, n: int) -> int
    decreases n,
{
    if n <= 0 {
        0
    } else {
        sum(amounts, n - 1) + amounts[n - 1]
    }
}

/// A name with the number and the sum of its amounts.
#[derive(Debug)]
pub struct NamedTotal {
    pub name: String,
    pub count: usize,
    pub total: i128,
}

#[verifier::ext_equal]
pub struct NamedTotalV {
    pub name: Seq<char>,
    pub count: int,
    pub total: int,
}

impl View for NamedTotal {
    type V = NamedTotalV;

    open spec fn view(&self) -> NamedTotalV {
        NamedTotalV { name: self.name@, count: self.count as int, total: self.total as int }
    }
}

pub open spec fn total_views(v: Seq<NamedTotal>) -> Seq<NamedTotalV> {
    Seq::new(v.len(), |i: int| v[i]@)
}

/// The total of each name, in the order in which names come first.
pub open spec fn totals(names: Seq<Seq<char>>, amounts: Seq<i64>) -> Seq<NamedTotalV> {
    let n = names.len() as int;
    let d = distinct(names, n);
    Seq::new(
        d.len(),
        |k: int|
            NamedTotalV {
                name: d[k],
                count: count_of(names, d[k], n),
                total: sum_of(names, amounts, d[k], n),
            },
    )
}

/// The order of totals from the greatest down; equal ones keep their order.
pub open spec fn falling(t: Seq<NamedTotalV>) -> Seq<int> {
    order::order_of(Seq::new(t.len(), |i: int| -t[i].total))
}

pub open spec fn picked<T>(s: Seq<T>, p: Seq<int>) -> Seq<T> {
    Seq::new(p.len(), |i: int| s[p[i]])
}

/// The total of each name, the greatest first.
pub open spec fn ranked(names: Seq<Seq<char>>, amounts: Seq<i64>) -> Seq<NamedTotalV> {
    picked(totals(names, amounts), falling(totals(names, amounts)))
}

proof fn sums_are_small(names: Seq<Seq<char>>, amounts: Seq<i64>, name: Seq<char>, n: int)
    requires
        0 <= n <= names.len(),
        names.len() == amounts.len(),
    ensures
        0 <= count_of(names, name, n) <= n,
        -0x8000_0000_0000_0000 * n <= sum_of(names, amounts, name, n) <= 0x8000_0000_0000_0000 * n,
    decreases n,
{
    if n > 0 {
        sums_are_small(names, amounts, name, n - 1);
    }
}

/// The total of each name, in the order in which names come first.
pub fn totals_by_name(names: &[String], amounts: &[i64]) -> (r: Vec<NamedTotal>)
    requires
        names@.len() == amounts@.len(),
    ensures
        total_views(r@) == totals(text::texts(names@), amounts@),
        forall|i: int|
            0 <= i < r@.len() ==> i128::MIN < (#[trigger] r@[i]).total,
{
    let interned = intern(names);
    let ghost all = text::texts(names@);
    let ghost d = text::texts(interned.names@);
    let m: usize = interned.names.len();
    let mut counts: Vec<usize> = Vec::new();
    let mut sums: Vec<i128> = Vec::new();
    let mut k: usize = 0;
    while k < m
        invariant
            k <= m,
            counts@.len() == k,
            sums@.len() == k,
            forall|j: int| 0 <= j < k ==> #[trigger] counts@[j] == 0,
            forall|j: int| 0 <= j < k ==> #[trigger] sums@[j] == 0,
        decreases m - k,
    {
        counts.push(0);
        sums.push(0);
        k = k + 1;
    }
    let n: usize = names.len();
    let mut i: usize = 0;
    while i < n
        invariant
            i <= n,
            n == names@.len(),
            names@.len() == amounts@.len(),
            all == text::texts(names@),
            d == text::texts(interned.names@),
            d.no_duplicates(),
            m == d.len(),
            counts@.len() == m,
            sums@.len() == m,
            interned.ids@.len() == n,
            forall|j: int|
                0 <= j < n ==> (#[trigger] interned.ids@[j]) < m && d[interned.ids@[j] as int]
                    == names@[j]@,
            forall|j: int| 0 <= j < m ==> #[trigger] counts@[j] == count_of(all, d[j], i as int),
            forall|j: int|
                0 <= j < m ==> #[trigger] sums@[j] == sum_of(all, amounts@, d[j], i as int),
        decreases n - i,
    {
        let id: usize = interned.ids[i];
        assert(all[i as int] == names@[i as int]@);
        proof {
            sums_are_small(all, amounts@, d[id as int], i as int);
        }
        let ghost counts_before = counts@;
        let ghost sums_before = sums@;
        let count: usize = counts[id];
        let total: i128 = sums[id];
        counts.set(id, count + 1);
        sums.set(id, total + amounts[i] as i128);
        assert forall|j: int| 0 <= j < m implies #[trigger] counts@[j] == count_of(
            all,
            d[j],
            i + 1,
        ) by {
            assert(counts_before[j] == count_of(all, d[j], i as int));
        }
        assert forall|j: int| 0 <= j < m implies #[trigger] sums@[j] == sum_of(
            all,
            amounts@,
            d[j],
            i + 1,
        ) by {
            assert(sums_before[j] == sum_of(all, amounts@, d[j], i as int));
        }
        i = i + 1;
    }
    let mut out: Vec<NamedTotal> = Vec::new();
    let mut k: usize = 0;
    let ghost want = totals(all, amounts@);
    while k < m
        invariant
            k <= m,
            m == d.len(),
            m == interned.names@.len(),
            counts@.len() == m,
            sums@.len() == m,
            n == all.len(),
            n <= usize::MAX,
            all.len() == amounts@.len(),
            d == text::texts(interned.names@),
            d == distinct(all, n as int),
            want == totals(all, amounts@),
            forall|j: int| 0 <= j < m ==> #[trigger] counts@[j] == count_of(all, d[j], n as int),
            forall|j: int|
                0 <= j < m ==> #[trigger] sums@[j] == sum_of(all, amounts@, d[j], n as int),
            total_views(out@) =~= want.take(k as int),
            forall|j: int| 0 <= j < out@.len() ==> i128::MIN < (#[trigger] out@[j]).total,
        decreases m - k,
    {
        proof {
            sums_are_small(all, amounts@, d[k as int], n as int);
        }
        let ghost before = out@;
        let item = NamedTotal {
            name: interned.names[k].clone(),
            count: counts[k],
            total: sums[k],
        };
        assert(item@ =~= want[k as int]);
        out.push(item);
        assert(total_views(out@) =~= total_views(before).push(item@));
        k = k + 1;
    }
    assert(total_views(out@) =~= want);
    out
}

/// The totals from the greatest down.
pub fn ranked_totals(names: &[String], amounts: &[i64]) -> (r: Vec<NamedTotal>)
    requires
        names@.len() == amounts@.len(),
    ensures
        total_views(r@) == ranked(text::texts(names@), amounts@),
{
    let t = totals_by_name(names, amounts);
    let ghost tv = total_views(t@);
    let mut keys: Vec<i128> = Vec::new();
    let mut i: usize = 0;
    while i < t.len()
        invariant
            i <= t@.len(),
            tv == total_views(t@),
            forall|k: int| 0 <= k < t@.len() ==> i128::MIN < (#[trigger] t@[k]).total,
            order::ints(keys@) =~= Seq::new(i as nat, |k: int| -tv[k].total),
        decreases t@.len() - i,
    {
        let ghost before = keys@;
        keys.push(-t[i].total);
        assert(order::ints(keys@) =~= order::ints(before).push(-tv[i as int].total));
        i = i + 1;
    }
    let p = order(&keys);
    assert(order::ints(keys@) =~= Seq::new(tv.len(), |k: int| -tv[k].total));
    let mut out: Vec<NamedTotal> = Vec::new();
    let mut i: usize = 0;
    while i < p.len()
        invariant
            i <= p@.len(),
            tv == total_views(t@),
            keys@.len() == t@.len(),
            forall|k: int| 0 <= k < p@.len() ==> (#[trigger] p@[k]) < keys@.len(),
            order::positions(p@) == falling(tv),
            total_views(out@) =~= picked(tv, falling(tv)).take(i as int),
        decreases p@.len() - i,
    {
        let ghost before = out@;
        let item = &t[p[i]];
        let copy = NamedTotal { name: item.name.clone(), count: item.count, total: item.total };
        assert(order::positions(p@)[i as int] == p@[i as int]);
        assert(copy@ =~= picked(tv, falling(tv))[i as int]);
        out.push(copy);
        assert(total_views(out@) =~= total_views(before).push(copy@));
        i = i + 1;
    }
    assert(total_views(out@) =~= picked(tv, falling(tv)));
    out
}

// ---------------------------------------------------------------------------
// Laws
// ---------------------------------------------------------------------------

/// The sum of the first `k` of these totals.
pub open spec fn sum_of_totals(t: Seq<NamedTotalV>, k: int) -> int
    decreases k,
{
    if k <= 0 {
        0
    } else {
        sum_of_totals(t, k - 1) + t[k - 1].total
    }
}

/// The sums of the first `k` of the names `d`, over the first `n` amounts.
spec fn grand(
    d: Seq<Seq<char>>,
    names: Seq<Seq<char>>,
    amounts: Seq<i64>,
    n: int,
    k: int,
) -> int
    decreases k,
{
    if k <= 0 {
        0
    } else {
        grand(d, names, amounts, n, k - 1) + sum_of(names, amounts, d[k - 1], n)
    }
}

proof fn grand_step(
    d: Seq<Seq<char>>,
    names: Seq<Seq<char>>,
    amounts: Seq<i64>,
    n: int,
    k: int,
    p: int,
)
    requires
        d.no_duplicates(),
        0 < n <= names.len(),
        0 <= k <= d.len(),
        0 <= p < d.len(),
        d[p] == names[n - 1],
    ensures
        grand(d, names, amounts, n, k) == grand(d, names, amounts, n - 1, k) + (if p < k {
            amounts[n - 1] as int
        } else {
            0
        }),
    decreases k,
{
    if k > 0 {
        grand_step(d, names, amounts, n, k - 1, p);
        if k - 1 != p {
            assert(d[k - 1] != d[p]);
        }
    }
}

proof fn grand_is_sum(d: Seq<Seq<char>>, names: Seq<Seq<char>>, amounts: Seq<i64>, n: int)
    requires
        d.no_duplicates(),
        names.len() == amounts.len(),
        0 <= n <= names.len(),
        forall|i: int| 0 <= i < n ==> d.contains(#[trigger] names[i]),
    ensures
        grand(d, names, amounts, n, d.len() as int) == sum(amounts, n),
    decreases n,
{
    if n == 0 {
        grand_of_nothing(d, names, amounts, d.len() as int);
    } else {
        grand_is_sum(d, names, amounts, n - 1);
        assert(d.contains(names[n - 1]));
        let p = choose|p: int| 0 <= p < d.len() && d[p] == names[n - 1];
        grand_step(d, names, amounts, n, d.len() as int, p);
    }
}

proof fn grand_of_nothing(d: Seq<Seq<char>>, names: Seq<Seq<char>>, amounts: Seq<i64>, k: int)
    ensures
        grand(d, names, amounts, 0, k) == 0,
    decreases k,
{
    if k > 0 {
        grand_of_nothing(d, names, amounts, k - 1);
    }
}

proof fn totals_are_grand(names: Seq<Seq<char>>, amounts: Seq<i64>, k: int)
    requires
        0 <= k <= totals(names, amounts).len(),
    ensures
        sum_of_totals(totals(names, amounts), k) == grand(
            distinct(names, names.len() as int),
            names,
            amounts,
            names.len() as int,
            k,
        ),
    decreases k,
{
    if k > 0 {
        totals_are_grand(names, amounts, k - 1);
    }
}

/// The totals of all names make up the sum of all amounts: nothing is counted
/// twice, and nothing is left out.
pub proof fn totals_add_up(names: Seq<Seq<char>>, amounts: Seq<i64>)
    requires
        names.len() == amounts.len(),
    ensures
        sum_of_totals(totals(names, amounts), totals(names, amounts).len() as int) == sum(
            amounts,
            amounts.len() as int,
        ),
{
    let n = names.len() as int;
    let d = distinct(names, n);
    distinct_names(names, n);
    totals_are_grand(names, amounts, d.len() as int);
    grand_is_sum(d, names, amounts, n);
}

proof fn sum_of_totals_is_sum(t: Seq<NamedTotalV>, s: Seq<int>, k: int)
    requires
        0 <= k <= t.len(),
        k <= s.len(),
        forall|i: int| 0 <= i < k ==> #[trigger] s[i] == t[i].total,
    ensures
        sum_of_totals(t, k) == order::sum_to(s, k),
    decreases k,
{
    if k > 0 {
        sum_of_totals_is_sum(t, s, k - 1);
    }
}

/// A ranking lists each name once, with how often it stands and the sum of its
/// amounts, from the greatest sum down, and leaves nothing out.
pub proof fn a_ranking_is_complete(names: Seq<Seq<char>>, amounts: Seq<i64>)
    requires
        names.len() == amounts.len(),
    ensures
        ({
            let r = ranked(names, amounts);
            let n = names.len() as int;
            &&& forall|k: int|
                0 <= k < r.len() ==> names.contains((#[trigger] r[k]).name) && r[k].count
                    == count_of(names, r[k].name, n) && r[k].total == sum_of(
                    names,
                    amounts,
                    r[k].name,
                    n,
                )
            &&& forall|j: int, k: int|
                0 <= j < k < r.len() ==> (#[trigger] r[j]).name != (#[trigger] r[k]).name
                    && r[j].total >= r[k].total
            &&& forall|i: int|
                0 <= i < n ==> exists|k: int|
                    0 <= k < r.len() && (#[trigger] r[k]).name == #[trigger] names[i]
            &&& sum_of_totals(r, r.len() as int) == sum(amounts, n)
        }),
{
    let n = names.len() as int;
    let d = distinct(names, n);
    let t = totals(names, amounts);
    let keys = Seq::new(t.len(), |i: int| -t[i].total);
    let p = order::order_of(keys);
    let r = ranked(names, amounts);
    distinct_names(names, n);
    order::there_is_an_order(keys);
    assert(names.take(n) =~= names);
    assert forall|k: int| 0 <= k < r.len() implies names.contains((#[trigger] r[k]).name)
        && r[k].count == count_of(names, r[k].name, n) && r[k].total == sum_of(
        names,
        amounts,
        r[k].name,
        n,
    ) by {
        assert(r[k] == t[p[k]]);
        assert(names.take(n).contains(d[p[k]]));
    }
    assert forall|j: int, k: int| 0 <= j < k < r.len() implies (#[trigger] r[j]).name != (
    #[trigger] r[k]).name && r[j].total >= r[k].total by {
        assert(order::before(keys, p[j], p[k]));
        assert(d[p[j]] != d[p[k]]);
    }
    assert forall|i: int| 0 <= i < n implies exists|k: int|
        0 <= k < r.len() && (#[trigger] r[k]).name == #[trigger] names[i] by {
        assert(d.contains(names[i]));
        let a = choose|a: int| 0 <= a < d.len() && d[a] == names[i];
        assert(p.contains(a));
        let k = choose|k: int| 0 <= k < p.len() && p[k] == a;
        assert(r[k].name == names[i]);
    }
    let s = Seq::new(t.len(), |i: int| t[i].total);
    order::an_order_keeps_the_sum(keys, p, s);
    sum_of_totals_is_sum(t, s, t.len() as int);
    sum_of_totals_is_sum(r, Seq::new(p.len(), |i: int| s[p[i]]), r.len() as int);
    totals_add_up(names, amounts);
}

/// The sum of the first `k` of these counts.
pub open spec fn sum_of_counts(t: Seq<NamedTotalV>, k: int) -> int
    decreases k,
{
    if k <= 0 {
        0
    } else {
        sum_of_counts(t, k - 1) + t[k - 1].count
    }
}

proof fn counting_is_adding_ones(names: Seq<Seq<char>>, ones: Seq<i64>, name: Seq<char>, n: int)
    requires
        0 <= n <= names.len(),
        forall|i: int| 0 <= i < n ==> #[trigger] ones[i] == 1,
    ensures
        count_of(names, name, n) == sum_of(names, ones, name, n),
        sum(ones, n) == n,
    decreases n,
{
    if n > 0 {
        counting_is_adding_ones(names, ones, name, n - 1);
        assert(ones[n - 1] == 1);
    }
}

proof fn counts_are_totals(names: Seq<Seq<char>>, amounts: Seq<i64>, ones: Seq<i64>, k: int)
    requires
        0 <= k <= totals(names, amounts).len(),
        forall|i: int| 0 <= i < names.len() ==> #[trigger] ones[i] == 1,
    ensures
        sum_of_counts(totals(names, amounts), k) == sum_of_totals(totals(names, ones), k),
    decreases k,
{
    if k > 0 {
        counts_are_totals(names, amounts, ones, k - 1);
        let d = distinct(names, names.len() as int);
        counting_is_adding_ones(names, ones, d[k - 1], names.len() as int);
    }
}

/// The counts of all names make up the number of places: each place counts for
/// one name, and once.
pub proof fn counts_add_up(names: Seq<Seq<char>>, amounts: Seq<i64>)
    ensures
        sum_of_counts(totals(names, amounts), totals(names, amounts).len() as int) == names.len(),
{
    let ones = Seq::new(names.len(), |i: int| 1i64);
    let m = totals(names, amounts).len() as int;
    counts_are_totals(names, amounts, ones, m);
    totals_add_up(names, ones);
    counting_is_adding_ones(names, ones, Seq::empty(), names.len() as int);
}

} // verus!
