//! Stable sorting: the order of positions by key.

use vstd::prelude::*;

verus! {

/// Position `a` comes before position `b`: its key is smaller, or the keys are
/// equal and it stands first.
pub open spec fn before(keys: Seq<int>, a: int, b: int) -> bool {
    keys[a] < keys[b] || (keys[a] == keys[b] && a < b)
}

/// `p` lists each position of `keys` once, in order.
pub open spec fn is_order(keys: Seq<int>, p: Seq<int>) -> bool {
    &&& p.len() == keys.len()
    &&& forall|i: int| 0 <= i < p.len() ==> 0 <= #[trigger] p[i] < keys.len()
    &&& forall|i: int, j: int| 0 <= i < j < p.len() ==> before(keys, #[trigger] p[i], #[trigger] p[j])
    &&& forall|k: int| 0 <= k < keys.len() ==> #[trigger] p.contains(k)
}

/// The positions of `keys` in order.
pub open spec fn order_of(keys: Seq<int>) -> Seq<int> {
    choose|p: Seq<int>| is_order(keys, p)
}

/// There is at most one order.
pub proof fn order_is_unique(keys: Seq<int>, p: Seq<int>, q: Seq<int>)
    requires
        is_order(keys, p),
        is_order(keys, q),
    ensures
        p == q,
{
    assert forall|n: int| 0 <= n <= p.len() implies p.take(n) == #[trigger] q.take(n) by {
        orders_agree(keys, p, q, n);
    }
    assert(p.take(p.len() as int) =~= p);
    assert(q.take(q.len() as int) =~= q);
}

proof fn orders_agree(keys: Seq<int>, p: Seq<int>, q: Seq<int>, n: int)
    requires
        is_order(keys, p),
        is_order(keys, q),
        0 <= n <= p.len(),
    ensures
        p.take(n) == q.take(n),
    decreases n,
{
    if n > 0 {
        orders_agree(keys, p, q, n - 1);
        let m = n - 1;
        assert(forall|i: int| 0 <= i < m ==> p[i] == q[i]) by {
            assert forall|i: int| 0 <= i < m implies p[i] == q[i] by {
                assert(p.take(m)[i] == q.take(m)[i]);
            }
        }
        assert(q.contains(p[m]));
        let a = choose|a: int| 0 <= a < q.len() && q[a] == p[m];
        assert(p.contains(q[m]));
        let b = choose|b: int| 0 <= b < p.len() && p[b] == q[m];
        if a < m {
            assert(before(keys, p[a], p[m]));
        }
        if b < m {
            assert(before(keys, q[b], q[m]));
        }
        if a > m && b > m {
            assert(before(keys, q[m], q[a]));
            assert(before(keys, p[m], p[b]));
        }
        assert(p.take(n) =~= q.take(n));
    }
}

/// Any listing of the positions in order is the order.
pub proof fn this_is_the_order(keys: Seq<int>, p: Seq<int>)
    requires
        is_order(keys, p),
    ensures
        order_of(keys) == p,
{
    order_is_unique(keys, order_of(keys), p);
}

/// How many of the first positions have keys up to `key`.
spec fn up_to(keys: Seq<int>, p: Seq<int>, key: int, n: int) -> int
    decreases n,
{
    if n <= 0 {
        0
    } else if keys[p[n - 1]] <= key {
        n
    } else {
        up_to(keys, p, key, n - 1)
    }
}

proof fn up_to_splits(keys: Seq<int>, p: Seq<int>, key: int, n: int)
    requires
        is_order(keys, p),
        0 <= n <= p.len(),
        forall|i: int| n <= i < p.len() ==> keys[#[trigger] p[i]] > key,
    ensures
        0 <= up_to(keys, p, key, n) <= n,
        forall|i: int| 0 <= i < up_to(keys, p, key, n) ==> keys[#[trigger] p[i]] <= key,
        forall|i: int| up_to(keys, p, key, n) <= i < p.len() ==> keys[#[trigger] p[i]] > key,
    decreases n,
{
    if n > 0 {
        if keys[p[n - 1]] <= key {
            assert forall|i: int| 0 <= i < n implies keys[#[trigger] p[i]] <= key by {
                if i < n - 1 {
                    assert(before(keys, p[i], p[n - 1]));
                }
            }
        } else {
            up_to_splits(keys, p, key, n - 1);
        }
    }
}

/// An order with one more position put in its place.
proof fn extended_order(keys: Seq<int>, p: Seq<int>) -> (r: Seq<int>)
    requires
        keys.len() > 0,
        is_order(keys.drop_last(), p),
    ensures
        is_order(keys, r),
{
    let n = keys.len() - 1;
    let fewer = keys.drop_last();
    up_to_splits(fewer, p, keys[n], p.len() as int);
    let q = up_to(fewer, p, keys[n], p.len() as int);
    let r = p.take(q) + seq![n] + p.skip(q);
    let old_index = |i: int|
        if i < q {
            i
        } else {
            i - 1
        };
    assert forall|i: int| 0 <= i < r.len() && i != q implies #[trigger] r[i] == p[old_index(i)] by {
    }
    assert(r[q] == n);
    assert forall|i: int| 0 <= i < r.len() implies 0 <= #[trigger] r[i] < keys.len() by {
        if i != q {
            assert(0 <= p[old_index(i)] < fewer.len());
        }
    }
    assert forall|i: int, j: int| 0 <= i < j < r.len() implies before(
        keys,
        #[trigger] r[i],
        #[trigger] r[j],
    ) by {
        if i == q {
            assert(r[j] == p[old_index(j)]);
            assert(fewer[p[j - 1]] > keys[n]);
        } else if j == q {
            assert(r[i] == p[i]);
            assert(fewer[p[i]] <= keys[n]);
            assert(0 <= p[i] < fewer.len());
        } else {
            assert(before(fewer, p[old_index(i)], p[old_index(j)]));
            assert(0 <= p[old_index(i)] < fewer.len());
            assert(0 <= p[old_index(j)] < fewer.len());
        }
    }
    assert forall|k: int| 0 <= k < keys.len() implies #[trigger] r.contains(k) by {
        if k == n {
            assert(r[q] == k);
        } else {
            assert(p.contains(k));
            let i = choose|i: int| 0 <= i < p.len() && p[i] == k;
            if i < q {
                assert(r[i] == k);
            } else {
                assert(r[i + 1] == p[old_index(i + 1)]);
            }
        }
    }
    r
}

proof fn some_order(keys: Seq<int>) -> (r: Seq<int>)
    ensures
        is_order(keys, r),
    decreases keys.len(),
{
    if keys.len() == 0 {
        Seq::empty()
    } else {
        let p = some_order(keys.drop_last());
        extended_order(keys, p)
    }
}

/// Every sequence of keys has an order.
pub proof fn there_is_an_order(keys: Seq<int>)
    ensures
        is_order(keys, order_of(keys)),
{
    let r = some_order(keys);
    assert(is_order(keys, r));
}

/// The keys as mathematical integers.
pub open spec fn ints(keys: Seq<i128>) -> Seq<int> {
    Seq::new(keys.len(), |i: int| keys[i] as int)
}

/// Positions as mathematical integers.
pub open spec fn positions(p: Seq<usize>) -> Seq<int> {
    Seq::new(p.len(), |i: int| p[i] as int)
}

/// `p` lists the positions from `lo` up to `hi` in order.
spec fn is_order_of_range(keys: Seq<i128>, p: Seq<usize>, lo: int, hi: int) -> bool {
    &&& p.len() == hi - lo
    &&& forall|i: int| 0 <= i < p.len() ==> lo <= (#[trigger] p[i]) < hi
    &&& forall|i: int, j: int|
        0 <= i < j < p.len() ==> before(ints(keys), #[trigger] p[i] as int, #[trigger] p[j] as int)
    &&& forall|k: int| lo <= k < hi ==> #[trigger] positions(p).contains(k)
}

fn merge(keys: &[i128], a: &Vec<usize>, b: &Vec<usize>, lo: usize, mid: usize, hi: usize) -> (r:
    Vec<usize>)
    requires
        lo <= mid <= hi <= keys@.len(),
        is_order_of_range(keys@, a@, lo as int, mid as int),
        is_order_of_range(keys@, b@, mid as int, hi as int),
    ensures
        is_order_of_range(keys@, r@, lo as int, hi as int),
{
    let ghost ks = ints(keys@);
    let mut out: Vec<usize> = Vec::new();
    let mut i: usize = 0;
    let mut j: usize = 0;
    while i < a.len() || j < b.len()
        invariant
            lo <= mid <= hi <= keys@.len(),
            ks == ints(keys@),
            is_order_of_range(keys@, a@, lo as int, mid as int),
            is_order_of_range(keys@, b@, mid as int, hi as int),
            i <= a@.len(),
            j <= b@.len(),
            out@.len() == i + j,
            forall|x: int| 0 <= x < out@.len() ==> lo <= (#[trigger] out@[x]) < hi,
            forall|x: int, y: int|
                0 <= x < y < out@.len() ==> before(
                    ks,
                    #[trigger] out@[x] as int,
                    #[trigger] out@[y] as int,
                ),
            forall|x: int, y: int|
                0 <= x < out@.len() && i <= y < a@.len() ==> before(
                    ks,
                    #[trigger] out@[x] as int,
                    #[trigger] a@[y] as int,
                ),
            forall|x: int, y: int|
                0 <= x < out@.len() && j <= y < b@.len() ==> before(
                    ks,
                    #[trigger] out@[x] as int,
                    #[trigger] b@[y] as int,
                ),
            forall|y: int| 0 <= y < i ==> positions(out@).contains(#[trigger] a@[y] as int),
            forall|y: int| 0 <= y < j ==> positions(out@).contains(#[trigger] b@[y] as int),
        decreases a@.len() - i + b@.len() - j,
    {
        let from_a: bool = if i >= a.len() {
            false
        } else if j >= b.len() {
            true
        } else {
            keys[a[i]] <= keys[b[j]]
        };
        let x: usize = if from_a {
            a[i]
        } else {
            b[j]
        };
        let ghost old_out = out@;
        out.push(x);
        proof {
            assert forall|v: int| positions(old_out).contains(v) implies positions(
                out@,
            ).contains(v) by {
                let w = choose|w: int| 0 <= w < old_out.len() && positions(old_out)[w] == v;
                assert(positions(out@)[w] == v);
            }
            assert(positions(out@)[out@.len() - 1] == x);
            assert(positions(out@).contains(x as int));
            if from_a {
                assert(forall|y: int| j <= y < b@.len() ==> before(ks, x as int, #[trigger] b@[y] as int)) by {
                    assert forall|y: int| j <= y < b@.len() implies before(
                        ks,
                        x as int,
                        #[trigger] b@[y] as int,
                    ) by {
                        assert(ks[a@[i as int] as int] <= ks[b@[j as int] as int]);
                        if y > j {
                            assert(before(ks, b@[j as int] as int, b@[y] as int));
                        }
                    }
                }
            } else {
                assert forall|y: int| i <= y < a@.len() implies before(
                    ks,
                    x as int,
                    #[trigger] a@[y] as int,
                ) by {
                    assert(ks[b@[j as int] as int] < ks[a@[i as int] as int]);
                    if y > i {
                        assert(before(ks, a@[i as int] as int, a@[y] as int));
                    }
                }
            }
        }
        if from_a {
            i = i + 1;
        } else {
            j = j + 1;
        }
    }
    proof {
        assert forall|k: int| lo <= k < hi implies #[trigger] positions(out@).contains(k) by {
            if k < mid {
                assert(positions(a@).contains(k));
                let y = choose|y: int| 0 <= y < a@.len() && positions(a@)[y] == k;
                assert(a@[y] as int == k);
            } else {
                assert(positions(b@).contains(k));
                let y = choose|y: int| 0 <= y < b@.len() && positions(b@)[y] == k;
                assert(b@[y] as int == k);
            }
        }
    }
    out
}

fn order_of_range(keys: &[i128], lo: usize, hi: usize) -> (r: Vec<usize>)
    requires
        lo <= hi <= keys@.len(),
    ensures
        is_order_of_range(keys@, r@, lo as int, hi as int),
    decreases hi - lo,
{
    let mut out: Vec<usize> = Vec::new();
    if lo == hi {
        out
    } else if hi - lo == 1 {
        out.push(lo);
        assert(positions(out@)[0] == lo);
        out
    } else {
        let mid: usize = lo + (hi - lo) / 2;
        let a = order_of_range(keys, lo, mid);
        let b = order_of_range(keys, mid, hi);
        merge(keys, &a, &b, lo, mid, hi)
    }
}

/// The positions of `keys` in order: by key, and by position where keys are
/// equal.
pub fn order(keys: &[i128]) -> (r: Vec<usize>)
    ensures
        is_order(ints(keys@), positions(r@)),
        positions(r@) == order_of(ints(keys@)),
        r@.len() == keys@.len(),
        forall|i: int| 0 <= i < r@.len() ==> (#[trigger] r@[i]) < keys@.len(),
{
    let r = order_of_range(keys, 0, keys.len());
    proof {
        let p = positions(r@);
        assert forall|i: int, j: int| 0 <= i < j < p.len() implies before(
            ints(keys@),
            #[trigger] p[i],
            #[trigger] p[j],
        ) by {
            assert(before(ints(keys@), r@[i] as int, r@[j] as int));
        }
        this_is_the_order(ints(keys@), p);
    }
    r
}

// ---------------------------------------------------------------------------
// Two keys
// ---------------------------------------------------------------------------

/// Position `i` comes before position `j` by the first keys, or by the second
/// where those are equal, or by itself where these are too.
pub open spec fn before2(a: Seq<int>, b: Seq<int>, i: int, j: int) -> bool {
    a[i] < a[j] || (a[i] == a[j] && before(b, i, j))
}

/// `p` lists each position once, in order of two keys.
pub open spec fn is_order2(a: Seq<int>, b: Seq<int>, p: Seq<int>) -> bool {
    &&& p.len() == a.len()
    &&& forall|i: int| 0 <= i < p.len() ==> 0 <= #[trigger] p[i] < a.len()
    &&& forall|i: int, j: int|
        0 <= i < j < p.len() ==> before2(a, b, #[trigger] p[i], #[trigger] p[j])
    &&& forall|k: int| 0 <= k < a.len() ==> #[trigger] p.contains(k)
}

/// The positions in order of the first keys, and of the second where those are
/// equal.
pub fn order2(a: &[i128], b: &[i128]) -> (r: Vec<usize>)
    requires
        a@.len() == b@.len(),
    ensures
        is_order2(ints(a@), ints(b@), positions(r@)),
        r@.len() == a@.len(),
        forall|i: int| 0 <= i < r@.len() ==> (#[trigger] r@[i]) < a@.len(),
{
    let inner = order(b);
    let mut keys: Vec<i128> = Vec::new();
    let mut i: usize = 0;
    while i < inner.len()
        invariant
            i <= inner@.len(),
            inner@.len() == a@.len(),
            forall|k: int| 0 <= k < inner@.len() ==> (#[trigger] inner@[k]) < a@.len(),
            keys@.len() == i,
            forall|k: int| 0 <= k < i ==> #[trigger] keys@[k] == a@[inner@[k] as int],
        decreases inner@.len() - i,
    {
        keys.push(a[inner[i]]);
        i = i + 1;
    }
    let outer = order(&keys);
    let mut out: Vec<usize> = Vec::new();
    let mut i: usize = 0;
    while i < outer.len()
        invariant
            i <= outer@.len(),
            outer@.len() == inner@.len(),
            keys@.len() == inner@.len(),
            forall|k: int| 0 <= k < outer@.len() ==> (#[trigger] outer@[k]) < keys@.len(),
            out@.len() == i,
            forall|k: int| 0 <= k < i ==> #[trigger] out@[k] == inner@[outer@[k] as int],
        decreases outer@.len() - i,
    {
        out.push(inner[outer[i]]);
        i = i + 1;
    }
    proof {
        let av = ints(a@);
        let bv = ints(b@);
        let kv = ints(keys@);
        let p = positions(out@);
        let pi = positions(inner@);
        let po = positions(outer@);
        assert forall|i: int| 0 <= i < p.len() implies #[trigger] p[i] == pi[po[i]] && 0 <= po[i]
            < pi.len() && kv[po[i]] == av[p[i]] && 0 <= p[i] < av.len() by {
            assert(out@[i] == inner@[outer@[i] as int]);
            assert(outer@[i] < keys@.len());
            assert(keys@[outer@[i] as int] == a@[inner@[outer@[i] as int] as int]);
        }
        assert forall|i: int, j: int| 0 <= i < j < p.len() implies before2(
            av,
            bv,
            #[trigger] p[i],
            #[trigger] p[j],
        ) by {
            assert(before(kv, po[i], po[j]));
            if kv[po[i]] == kv[po[j]] {
                assert(before(bv, pi[po[i]], pi[po[j]]));
            }
        }
        assert forall|k: int| 0 <= k < av.len() implies #[trigger] p.contains(k) by {
            assert(pi.contains(k));
            let x = choose|x: int| 0 <= x < pi.len() && pi[x] == k;
            assert(po.contains(x));
            let y = choose|y: int| 0 <= y < po.len() && po[y] == x;
            assert(p[y] == k);
        }
    }
    out
}

// ---------------------------------------------------------------------------
// Laws
// ---------------------------------------------------------------------------

/// The sum of the first `n` numbers.
pub open spec fn sum_to(s: Seq<int>, n: int) -> int
    decreases n,
{
    if n <= 0 {
        0
    } else {
        sum_to(s, n - 1) + s[n - 1]
    }
}

proof fn sum_to_agrees(s: Seq<int>, t: Seq<int>, n: int)
    requires
        forall|i: int| 0 <= i < n ==> s[i] == #[trigger] t[i],
    ensures
        sum_to(s, n) == sum_to(t, n),
    decreases n,
{
    if n > 0 {
        sum_to_agrees(s, t, n - 1);
    }
}

proof fn sum_without(s: Seq<int>, j: int, n: int)
    requires
        0 <= j < n <= s.len(),
    ensures
        sum_to(s, n) == sum_to(s.remove(j), n - 1) + s[j],
    decreases n,
{
    if j == n - 1 {
        sum_to_agrees(s, s.remove(j), n - 1);
    } else {
        sum_without(s, j, n - 1);
        assert(s.remove(j)[n - 2] == s[n - 1]);
    }
}

proof fn sum_of_listing(s: Seq<int>, p: Seq<int>)
    requires
        p.len() == s.len(),
        forall|i: int| 0 <= i < p.len() ==> 0 <= #[trigger] p[i] < s.len(),
        p.no_duplicates(),
        forall|k: int| 0 <= k < s.len() ==> #[trigger] p.contains(k),
    ensures
        sum_to(Seq::new(p.len(), |i: int| s[p[i]]), s.len() as int) == sum_to(s, s.len() as int),
    decreases s.len(),
{
    let n = s.len() as int;
    if n > 0 {
        assert(p.contains(n - 1));
        let j = choose|j: int| 0 <= j < p.len() && p[j] == n - 1;
        let q = p.remove(j);
        let t = s.drop_last();
        assert forall|i: int| 0 <= i < q.len() implies 0 <= #[trigger] q[i] < t.len() by {
            let a = if i < j {
                i
            } else {
                i + 1
            };
            assert(q[i] == p[a]);
            assert(p[a] != p[j]);
        }
        assert(q.no_duplicates()) by {
            assert forall|a: int, b: int| 0 <= a < q.len() && 0 <= b < q.len() && a != b implies q[a]
                != q[b] by {
                let c = if a < j {
                    a
                } else {
                    a + 1
                };
                let d = if b < j {
                    b
                } else {
                    b + 1
                };
                assert(q[a] == p[c] && q[b] == p[d]);
            }
        }
        assert forall|k: int| 0 <= k < t.len() implies #[trigger] q.contains(k) by {
            assert(p.contains(k));
            let a = choose|a: int| 0 <= a < p.len() && p[a] == k;
            if a < j {
                assert(q[a] == k);
            } else {
                assert(q[a - 1] == k);
            }
        }
        sum_of_listing(t, q);
        let all = Seq::new(p.len(), |i: int| s[p[i]]);
        sum_without(all, j, n);
        sum_to_agrees(all.remove(j), Seq::new(q.len(), |i: int| t[q[i]]), n - 1);
        sum_to_agrees(s, t, n - 1);
    }
}

/// Putting numbers in an order changes nothing in their sum.
pub proof fn an_order_keeps_the_sum(keys: Seq<int>, p: Seq<int>, s: Seq<int>)
    requires
        is_order(keys, p),
        s.len() == keys.len(),
    ensures
        sum_to(Seq::new(p.len(), |i: int| s[p[i]]), s.len() as int) == sum_to(s, s.len() as int),
{
    assert(p.no_duplicates()) by {
        assert forall|a: int, b: int| 0 <= a < p.len() && 0 <= b < p.len() && a != b implies p[a]
            != p[b] by {
            if a < b {
                assert(before(keys, p[a], p[b]));
            } else {
                assert(before(keys, p[b], p[a]));
            }
        }
    }
    sum_of_listing(s, p);
}

} // verus!
