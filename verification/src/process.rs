//! Processes as `/proc` shows them: identities, children and listeners.

use vstd::prelude::*;

use crate::order;
use crate::order::order;
use crate::text;
use crate::text::{
    chars_of, cut, decimal_chars, extend_chars, extend_str, hex_chars, lines_of,
    parse_bounded_chars, parse_i64_chars, parse_u64_chars, rfind_chars, same_text, string_of,
    words_of,
};

verus! {

/// What tells one process from another that later gets the same pid.
#[derive(Clone, Copy, Debug, PartialEq, Eq, Structural)]
pub struct ProcessIdentity {
    pub start_time: u64,
    pub exe_device: u64,
    pub exe_inode: u64,
}

// ---------------------------------------------------------------------------
// What the kernel's files say
// ---------------------------------------------------------------------------

/// What follows the last `sep`.
pub open spec fn after_last(s: Seq<char>, sep: Seq<char>) -> Option<Seq<char>> {
    match text::rfind(s, sep) {
        Some(i) => Some(s.skip(i + sep.len())),
        None => None,
    }
}

fn after_last_chars(s: &Vec<char>, sep: &str) -> (r: Option<Vec<char>>)
    ensures
        match r {
            Some(v) => after_last(s@, sep@) == Some(v@),
            None => after_last(s@, sep@) is None,
        },
{
    let p = chars_of(sep);
    match rfind_chars(s, &p) {
        Some(i) => {
            let v = cut(s, i + p.len(), s.len());
            assert(v@ =~= s@.skip(i + sep@.len()));
            Some(v)
        },
        None => None,
    }
}

/// The start time in the text of `/proc/<pid>/stat`: the twentieth field after
/// the process name, which may itself hold blanks and brackets.
pub open spec fn stat_start_time(stat: Seq<char>) -> Option<int> {
    match after_last(stat, ") "@) {
        Some(rest) => if text::words(rest).len() > 19 {
            text::parse_unsigned(text::words(rest)[19], u64::MAX as int)
        } else {
            None
        },
        None => None,
    }
}

/// The start time in the text of `/proc/<pid>/stat`.
pub fn parse_start_time(stat: &str) -> (r: Option<u64>)
    ensures
        match r {
            Some(n) => stat_start_time(stat@) == Some(n as int),
            None => stat_start_time(stat@) is None,
        },
{
    let chars = chars_of(stat);
    match after_last_chars(&chars, ") ") {
        Some(rest) => {
            let fields = words_of(&rest);
            if fields.len() > 19 {
                assert(text::pieces(fields@)[19] == fields@[19]@);
                parse_u64_chars(&fields[19])
            } else {
                None
            }
        },
        None => None,
    }
}

/// Strictly increasing.
pub open spec fn increasing(v: Seq<u32>) -> bool {
    forall|i: int, j: int| 0 <= i < j < v.len() ==> #[trigger] v[i] < #[trigger] v[j]
}

/// `n` is one of the numbers in one of the texts.
pub open spec fn listed(contents: Seq<Seq<char>>, n: u32) -> bool {
    exists|i: int, k: int| #[trigger] listed_at(contents, i, k, n)
}

/// The `k`th word of the `i`th text is the number `n`.
pub open spec fn listed_at(contents: Seq<Seq<char>>, i: int, k: int, n: u32) -> bool {
    &&& 0 <= i < contents.len()
    &&& 0 <= k < text::words(contents[i]).len()
    &&& text::parse_unsigned(text::words(contents[i])[k], u32::MAX as int) == Some(n as int)
}

/// Adds `x` where it is not there yet.
fn insert_sorted(v: &mut Vec<u32>, x: u32)
    requires
        increasing(old(v)@),
    ensures
        increasing(final(v)@),
        forall|n: u32| final(v)@.contains(n) <==> (old(v)@.contains(n) || n == x),
{
    let mut i: usize = 0;
    while i < v.len() && v[i] < x
        invariant
            i <= v@.len(),
            *v == *old(v),
            increasing(v@),
            forall|k: int| 0 <= k < i ==> v@[k] < x,
        decreases v@.len() - i,
    {
        i = i + 1;
    }
    let ghost before = v@;
    if i < v.len() && v[i] == x {
        assert(v@.contains(x)) by {
            assert(v@[i as int] == x);
        }
        return;
    }
    v.insert(i, x);
    proof {
        let after = v@;
        assert(after =~= before.insert(i as int, x));
        assert forall|a: int, b: int| 0 <= a < b < after.len() implies #[trigger] after[a]
            < #[trigger] after[b] by {
            let pa = if a < i {
                a
            } else {
                a - 1
            };
            let pb = if b < i {
                b
            } else {
                b - 1
            };
            if a != i && b != i {
                assert(after[a] == before[pa]);
                assert(after[b] == before[pb]);
            } else if a == i {
                assert(after[b] == before[pb]);
                if pb > i {
                    assert(before[i as int] < before[pb]);
                }
            } else {
                assert(after[a] == before[pa]);
            }
        }
        assert forall|n: u32| after.contains(n) <==> (before.contains(n) || n == x) by {
            if before.contains(n) {
                let k = choose|k: int| 0 <= k < before.len() && before[k] == n;
                assert(after[if k < i {
                    k
                } else {
                    k + 1
                }] == n);
            }
            if n == x {
                assert(after[i as int] == n);
            }
            if after.contains(n) {
                let k = choose|k: int| 0 <= k < after.len() && after[k] == n;
                if k != i {
                    assert(before[if k < i {
                        k
                    } else {
                        k - 1
                    }] == n);
                }
            }
        }
    }
}

/// The pids in the `children` files of a process's threads: each once, in
/// increasing order. What is no pid is passed over.
pub fn process_children(contents: &[String]) -> (r: Vec<u32>)
    ensures
        increasing(r@),
        forall|n: u32| r@.contains(n) <==> listed(text::texts(contents@), n),
{
    let mut out: Vec<u32> = Vec::new();
    let ghost all = text::texts(contents@);
    let mut i: usize = 0;
    while i < contents.len()
        invariant
            i <= contents@.len(),
            all == text::texts(contents@),
            increasing(out@),
            forall|n: u32| #![auto]
                out@.contains(n) <==> (exists|a: int, k: int| a < i && listed_at(all, a, k, n)),
        decreases contents@.len() - i,
    {
        let chars = chars_of(contents[i].as_str());
        let fields = words_of(&chars);
        assert(all[i as int] == chars@);
        let ghost ws = text::words(all[i as int]);
        assert(text::pieces(fields@) == ws);
        let mut k: usize = 0;
        while k < fields.len()
            invariant
                k <= fields@.len(),
                i < contents@.len(),
                all == text::texts(contents@),
                ws == text::words(all[i as int]),
                text::pieces(fields@) == ws,
                ws.len() == fields@.len(),
                increasing(out@),
                forall|n: u32| #![auto]
                    out@.contains(n) <==> ((exists|a: int, b: int|
                        a < i && listed_at(all, a, b, n)) || (exists|b: int|
                        b < k && listed_at(all, i as int, b, n))),
            decreases fields@.len() - k,
        {
            assert(ws[k as int] == fields@[k as int]@);
            let ghost before = out@;
            match parse_bounded_chars(&fields[k], u32::MAX as u64) {
                Some(n) => {
                    insert_sorted(&mut out, n as u32);
                    assert(listed_at(all, i as int, k as int, n as u32));
                    assert forall|m: u32| #![auto] out@.contains(m) <==> ((exists|a: int, b: int|
                        a < i && listed_at(all, a, b, m)) || (exists|b: int|
                        b < k + 1 && listed_at(all, i as int, b, m))) by {
                        assert(out@.contains(m) <==> (before.contains(m) || m == n as u32));
                        if exists|b: int| b < k + 1 && listed_at(all, i as int, b, m) {
                            let b = choose|b: int| b < k + 1 && listed_at(all, i as int, b, m);
                            if b < k {
                                assert(before.contains(m));
                            }
                        }
                    }
                },
                None => {
                    assert forall|m: u32| #![auto] out@.contains(m) <==> ((exists|a: int, b: int|
                        a < i && listed_at(all, a, b, m)) || (exists|b: int|
                        b < k + 1 && listed_at(all, i as int, b, m))) by {
                        if exists|b: int| b < k + 1 && listed_at(all, i as int, b, m) {
                            let b = choose|b: int| b < k + 1 && listed_at(all, i as int, b, m);
                            assert(b < k);
                        }
                    }
                },
            }
            k = k + 1;
        }
        assert forall|n: u32| #![auto] out@.contains(n) <==> (exists|a: int, b: int|
            a < i + 1 && listed_at(all, a, b, n)) by {
            if exists|a: int, b: int| a < i + 1 && listed_at(all, a, b, n) {
                let (a, b) = choose|a: int, b: int| a < i + 1 && listed_at(all, a, b, n);
                if a == i {
                    assert(b < fields@.len());
                    assert(listed_at(all, i as int, b, n));
                } else {
                    assert(a < i && listed_at(all, a, b, n));
                }
            }
        }
        i = i + 1;
    }
    assert forall|n: u32| out@.contains(n) <==> listed(all, n) by {
        if listed(all, n) {
            let (a, k) = choose|a: int, k: int| listed_at(all, a, k, n);
            assert(a < i && listed_at(all, a, k, n));
        }
    }
    out
}

// ---------------------------------------------------------------------------
// Process trees
// ---------------------------------------------------------------------------

/// The walk over the descendants of a process. The caller looks up what
/// `next_pid` names and hands it to `supply`.
#[derive(Debug)]
pub struct Capture {
    /// The descendants found, each with the identity that it had.
    pub tree: Vec<(u32, ProcessIdentity)>,
    pub pending: Vec<u32>,
}

pub open spec fn in_tree(tree: Seq<(u32, ProcessIdentity)>, pid: u32) -> bool {
    exists|i: int| 0 <= i < tree.len() && (#[trigger] tree[i]).0 == pid
}

/// The last process in `pending` that is not in the tree, and how many entries
/// stand before it.
pub open spec fn last_unseen(tree: Seq<(u32, ProcessIdentity)>, pending: Seq<u32>) -> Option<
    (u32, int),
>
    decreases pending.len(),
{
    if pending.len() == 0 {
        None
    } else if in_tree(tree, pending.last()) {
        last_unseen(tree, pending.drop_last())
    } else {
        Some((pending.last(), pending.len() - 1))
    }
}

/// No process is in the tree twice.
pub open spec fn tree_ok(tree: Seq<(u32, ProcessIdentity)>) -> bool {
    forall|i: int, j: int|
        0 <= i < j < tree.len() ==> (#[trigger] tree[i]).0 != (#[trigger] tree[j]).0
}

impl Capture {
    /// Begins with the children of a process.
    pub fn new(children: Vec<u32>) -> (c: Capture)
        ensures
            c.tree@ == Seq::<(u32, ProcessIdentity)>::empty(),
            c.pending@ == children@,
            tree_ok(c.tree@),
    {
        Capture { tree: Vec::new(), pending: children }
    }

    fn seen(&self, pid: u32) -> (r: bool)
        ensures
            r == in_tree(self.tree@, pid),
    {
        let mut i: usize = 0;
        while i < self.tree.len()
            invariant
                i <= self.tree@.len(),
                forall|k: int| 0 <= k < i ==> (#[trigger] self.tree@[k]).0 != pid,
            decreases self.tree@.len() - i,
        {
            if self.tree[i].0 == pid {
                return true;
            }
            i = i + 1;
        }
        false
    }

    /// The process to look up next; none once the walk is done.
    pub fn next_pid(&mut self) -> (r: Option<u32>)
        ensures
            final(self).tree@ == old(self).tree@,
            match last_unseen(old(self).tree@, old(self).pending@) {
                Some((pid, n)) => r == Some(pid) && final(self).pending@ == old(
                    self,
                ).pending@.take(n),
                None => r is None && final(self).pending@.len() == 0,
            },
            r matches Some(pid) ==> !in_tree(final(self).tree@, pid),
    {
        loop
            invariant
                self.tree@ == old(self).tree@,
                self.pending@.len() <= old(self).pending@.len(),
                self.pending@ == old(self).pending@.take(self.pending@.len() as int),
                last_unseen(self.tree@, self.pending@) == last_unseen(
                    old(self).tree@,
                    old(self).pending@,
                ),
            decreases self.pending@.len(),
        {
            let ghost before = self.pending@;
            match self.pending.pop() {
                Some(pid) => {
                    assert(self.pending@ =~= before.drop_last());
                    assert(self.pending@ =~= old(self).pending@.take(
                        self.pending@.len() as int,
                    ));
                    if !self.seen(pid) {
                        return Some(pid);
                    }
                },
                None => {
                    return None;
                },
            }
        }
    }

    /// Takes in what was found of a process: its identity where it still runs,
    /// and its children.
    pub fn supply(&mut self, pid: u32, identity: Option<ProcessIdentity>, children: &[u32])
        ensures
            final(self).tree@ == match identity {
                Some(id) => old(self).tree@.push((pid, id)),
                None => old(self).tree@,
            },
            final(self).pending@ == old(self).pending@ + children@,
            tree_ok(old(self).tree@) && !in_tree(old(self).tree@, pid) ==> tree_ok(
                final(self).tree@,
            ),
    {
        if let Some(id) = identity {
            self.tree.push((pid, id));
        }
        let mut i: usize = 0;
        while i < children.len()
            invariant
                i <= children@.len(),
                self.tree@ == match identity {
                    Some(id) => old(self).tree@.push((pid, id)),
                    None => old(self).tree@,
                },
                self.pending@ == old(self).pending@ + children@.take(i as int),
            decreases children@.len() - i,
        {
            self.pending.push(children[i]);
            i = i + 1;
            assert(children@.take(i as int) =~= children@.take(i - 1).push(children@[i - 1]));
        }
        assert(children@.take(children@.len() as int) =~= children@);
    }
}

/// The same process: the same pid with the same identity.
pub open spec fn known(before: Seq<(u32, ProcessIdentity)>, p: (u32, ProcessIdentity)) -> bool {
    exists|i: int| 0 <= i < before.len() && #[trigger] before[i] == p
}

/// The first process of `after` that `before` does not hold. A pid that now
/// belongs to another process counts as new.
pub fn find_new_descendant(
    before: &[(u32, ProcessIdentity)],
    after: &[(u32, ProcessIdentity)],
) -> (r: Option<(u32, ProcessIdentity)>)
    ensures
        match r {
            Some(p) => exists|k: int|
                {
                    &&& 0 <= k < after@.len()
                    &&& #[trigger] after@[k] == p
                    &&& !known(before@, p)
                    &&& forall|j: int| 0 <= j < k ==> known(before@, #[trigger] after@[j])
                },
            None => forall|j: int| 0 <= j < after@.len() ==> known(before@, #[trigger] after@[j]),
        },
{
    let mut k: usize = 0;
    while k < after.len()
        invariant
            k <= after@.len(),
            forall|j: int| 0 <= j < k ==> known(before@, #[trigger] after@[j]),
        decreases after@.len() - k,
    {
        let p = after[k];
        let mut found = false;
        let mut i: usize = 0;
        while i < before.len()
            invariant
                i <= before@.len(),
                found == exists|j: int| 0 <= j < i && #[trigger] before@[j] == p,
            decreases before@.len() - i,
        {
            if before[i].0 == p.0 && before[i].1 == p.1 {
                assert(before@[i as int] == p);
                found = true;
            }
            i = i + 1;
        }
        if !found {
            assert(after@[k as int] == p);
            return Some(p);
        }
        k = k + 1;
    }
    None
}

/// The order in which captured processes are killed: the one found last first.
pub fn kill_order(tree: &[(u32, ProcessIdentity)]) -> (r: Vec<(u32, ProcessIdentity)>)
    ensures
        r@ == tree@.reverse(),
{
    let mut out: Vec<(u32, ProcessIdentity)> = Vec::new();
    let mut i: usize = tree.len();
    while i > 0
        invariant
            i <= tree@.len(),
            out@.len() == tree@.len() - i,
            forall|k: int| 0 <= k < out@.len() ==> out@[k] == tree@[tree@.len() - 1 - k],
        decreases i,
    {
        i = i - 1;
        out.push(tree[i]);
    }
    assert(out@ =~= tree@.reverse());
    out
}

/// The order in which a process that is owned and its descendants are killed:
/// the process itself first. Nothing is killed where the pid now belongs to
/// another process.
pub fn owned_kill_order(
    pid: u32,
    identity: ProcessIdentity,
    found: Option<ProcessIdentity>,
    tree: &[(u32, ProcessIdentity)],
) -> (r: Vec<(u32, ProcessIdentity)>)
    ensures
        r@ == if found == Some(identity) {
            seq![(pid, identity)] + tree@.reverse()
        } else {
            Seq::empty()
        },
{
    let same = match found {
        Some(id) => id == identity,
        None => false,
    };
    if !same {
        return Vec::new();
    }
    let mut out: Vec<(u32, ProcessIdentity)> = Vec::new();
    out.push((pid, identity));
    let mut rest = kill_order(tree);
    out.append(&mut rest);
    assert(out@ =~= seq![(pid, identity)] + tree@.reverse());
    out
}

/// The thread ids among the entries of `/proc/<pid>/task`.
pub open spec fn numbers_in(names: Seq<Seq<char>>) -> Seq<int>
    decreases names.len(),
{
    if names.len() == 0 {
        Seq::empty()
    } else {
        let rest = numbers_in(names.drop_last());
        match text::parse_signed(names.last()) {
            Some(n) => rest.push(n),
            None => rest,
        }
    }
}

/// The thread ids among the entries of `/proc/<pid>/task`, in increasing order.
pub fn task_threads(names: &[String]) -> (r: Vec<i64>)
    ensures
        ({
            let ids = numbers_in(text::texts(names@));
            let p = order::order_of(ids);
            &&& r@.len() == ids.len()
            &&& forall|i: int| 0 <= i < r@.len() ==> #[trigger] r@[i] == ids[p[i]]
        }),
{
    let ghost all = text::texts(names@);
    let mut ids: Vec<i64> = Vec::new();
    let mut keys: Vec<i128> = Vec::new();
    let mut i: usize = 0;
    while i < names.len()
        invariant
            i <= names@.len(),
            all == text::texts(names@),
            ids@.len() == keys@.len(),
            forall|k: int| 0 <= k < ids@.len() ==> ids@[k] == keys@[k],
            order::ints(keys@) =~= numbers_in(all.take(i as int)),
        decreases names@.len() - i,
    {
        assert(all.take(i + 1).drop_last() =~= all.take(i as int));
        assert(all.take(i + 1).last() == names@[i as int]@);
        let chars = chars_of(names[i].as_str());
        let ghost before = keys@;
        match parse_i64_chars(&chars) {
            Some(n) => {
                ids.push(n);
                keys.push(n as i128);
                assert(order::ints(keys@) =~= order::ints(before).push(n as int));
            },
            None => {},
        }
        i = i + 1;
    }
    assert(all.take(all.len() as int) =~= all);
    let p = order(&keys);
    let ghost want = numbers_in(all);
    let mut out: Vec<i64> = Vec::new();
    let mut k: usize = 0;
    while k < p.len()
        invariant
            k <= p@.len(),
            p@.len() == ids@.len(),
            ids@.len() == keys@.len(),
            forall|x: int| 0 <= x < ids@.len() ==> ids@[x] == keys@[x],
            forall|x: int| 0 <= x < p@.len() ==> (#[trigger] p@[x]) < ids@.len(),
            order::ints(keys@) == want,
            order::positions(p@) == order::order_of(want),
            out@.len() == k,
            forall|x: int| 0 <= x < k ==> #[trigger] out@[x] == want[order::order_of(want)[x]],
        decreases p@.len() - k,
    {
        assert(order::positions(p@)[k as int] == p@[k as int]);
        assert(want[p@[k as int] as int] == keys@[p@[k as int] as int]);
        out.push(ids[p[k]]);
        k = k + 1;
    }
    out
}

// ---------------------------------------------------------------------------
// Listeners
// ---------------------------------------------------------------------------

/// The inode in one line of `/proc/net/tcp`, where the line shows a socket
/// that listens on the port.
pub open spec fn listener_in_line(line: Seq<char>, port: int) -> Option<int> {
    let fields = text::words(line);
    if fields.len() > 9 && after_last(fields[1], ":"@) == Some(text::hex(port, 4, true))
        && fields[3] == "0A"@ {
        text::parse_unsigned(fields[9], u64::MAX as int)
    } else {
        None
    }
}

/// The inode of the first listener on the port, from line `k` on.
pub open spec fn listener_from(lines: Seq<Seq<char>>, port: int, k: int) -> Option<int>
    decreases lines.len() - k,
{
    if k < 0 || k >= lines.len() {
        None
    } else {
        match listener_in_line(lines[k], port) {
            Some(n) => Some(n),
            None => listener_from(lines, port, k + 1),
        }
    }
}

/// The inode of the first listener on the port in the tables, from table `k`
/// on. The first line of a table is its heading.
pub open spec fn listener_in(tables: Seq<Seq<char>>, port: int, k: int) -> Option<int>
    decreases tables.len() - k,
{
    if k < 0 || k >= tables.len() {
        None
    } else {
        match listener_from(text::lines(tables[k]), port, 1) {
            Some(n) => Some(n),
            None => listener_in(tables, port, k + 1),
        }
    }
}

/// The port in an address.
pub open spec fn port_of(addr: Seq<char>) -> Option<int> {
    match after_last(addr, ":"@) {
        Some(p) => text::parse_unsigned(p, u16::MAX as int),
        None => None,
    }
}

fn same_chars(a: &Vec<char>, b: &Vec<char>) -> (r: bool)
    ensures
        r == (a@ == b@),
{
    let x = string_of(a);
    let y = string_of(b);
    x == y
}

fn line_listener(line: &Vec<char>, port: u16) -> (r: Option<u64>)
    ensures
        match r {
            Some(n) => listener_in_line(line@, port as int) == Some(n as int),
            None => listener_in_line(line@, port as int) is None,
        },
{
    let fields = words_of(line);
    let ghost ws = text::words(line@);
    if fields.len() <= 9 {
        return None;
    }
    assert(ws[1] == fields@[1]@ && ws[3] == fields@[3]@ && ws[9] == fields@[9]@);
    let wanted = hex_chars(port as u64, 4, true);
    let listening = chars_of("0A");
    match after_last_chars(&fields[1], ":") {
        Some(p) => if same_chars(&p, &wanted) && same_chars(&fields[3], &listening) {
            parse_u64_chars(&fields[9])
        } else {
            None
        },
        None => None,
    }
}

/// The inode of the socket that listens at the address, by the texts of the
/// kernel's socket tables.
pub fn listener_inode(addr: &str, tables: &[String]) -> (r: Option<u64>)
    ensures
        ({
            let found = match port_of(addr@) {
                Some(port) => listener_in(text::texts(tables@), port, 0),
                None => None,
            };
            match r {
                Some(n) => found == Some(n as int),
                None => found is None,
            }
        }),
{
    let chars = chars_of(addr);
    let port: u16 = match after_last_chars(&chars, ":") {
        Some(p) => match parse_bounded_chars(&p, u16::MAX as u64) {
            Some(n) => n as u16,
            None => {
                return None;
            },
        },
        None => {
            return None;
        },
    };
    let ghost all = text::texts(tables@);
    let mut i: usize = 0;
    while i < tables.len()
        invariant
            i <= tables@.len(),
            all == text::texts(tables@),
            port_of(addr@) == Some(port as int),
            listener_in(all, port as int, 0) == listener_in(all, port as int, i as int),
        decreases tables@.len() - i,
    {
        let table = chars_of(tables[i].as_str());
        assert(all[i as int] == table@);
        let rows = lines_of(&table);
        let ghost lines = text::lines(table@);
        let mut k: usize = 1;
        while k < rows.len()
            invariant
                1 <= k,
                i < tables@.len(),
                all == text::texts(tables@),
                all[i as int] == table@,
                lines == text::lines(table@),
                text::pieces(rows@) == lines,
                port_of(addr@) == Some(port as int),
                listener_in(all, port as int, 0) == listener_in(all, port as int, i as int),
                listener_from(lines, port as int, 1) == listener_from(
                    lines,
                    port as int,
                    k as int,
                ),
            decreases rows@.len() - k,
        {
            assert(lines[k as int] == rows@[k as int]@);
            if let Some(n) = line_listener(&rows[k], port) {
                return Some(n);
            }
            k = k + 1;
        }
        i = i + 1;
    }
    None
}

/// The name that a process's open socket shows.
pub open spec fn socket_name(inode: int) -> Seq<char> {
    "socket:["@ + text::decimal(inode as nat) + "]"@
}

/// Whether one of the open files of a process is that socket.
pub fn holds_socket(links: &[String], inode: u64) -> (r: bool)
    ensures
        r == exists|i: int| 0 <= i < links@.len() && (#[trigger] links@[i])@ == socket_name(
            inode as int,
        ),
{
    let mut name = chars_of("socket:[");
    let d = decimal_chars(inode);
    extend_chars(&mut name, &d);
    extend_str(&mut name, "]");
    let wanted = string_of(&name);
    let mut i: usize = 0;
    while i < links.len()
        invariant
            i <= links@.len(),
            wanted@ == socket_name(inode as int),
            forall|k: int| 0 <= k < i ==> (#[trigger] links@[k])@ != socket_name(inode as int),
        decreases links@.len() - i,
    {
        if same_text(links[i].as_str(), wanted.as_str()) {
            return true;
        }
        i = i + 1;
    }
    false
}

/// Whether one of some processes listens at the address, by the kernel's socket
/// tables and the names of the files that each process has open.
pub fn listener_owned_by(addr: &str, tables: &[String], open_files: &[Vec<String>]) -> (r: bool)
    ensures
        r == match port_of(addr@) {
            Some(port) => match listener_in(text::texts(tables@), port, 0) {
                Some(inode) => exists|p: int, i: int|
                    0 <= p < open_files@.len() && 0 <= i < open_files@[p]@.len() && (
                    #[trigger] open_files@[p]@[i])@ == socket_name(inode),
                None => false,
            },
            None => false,
        },
{
    let inode: u64 = match listener_inode(addr, tables) {
        Some(n) => n,
        None => {
            return false;
        },
    };
    let mut p: usize = 0;
    while p < open_files.len()
        invariant
            p <= open_files@.len(),
            port_of(addr@) is Some,
            listener_in(text::texts(tables@), port_of(addr@)->0, 0) == Some(inode as int),
            forall|q: int, i: int|
                0 <= q < p && 0 <= i < open_files@[q]@.len() ==> (
                #[trigger] open_files@[q]@[i])@ != socket_name(inode as int),
        decreases open_files@.len() - p,
    {
        if holds_socket(open_files[p].as_slice(), inode) {
            return true;
        }
        p = p + 1;
    }
    false
}

// ---------------------------------------------------------------------------
// Laws
// ---------------------------------------------------------------------------

/// What follows the last separator is found behind any text, however often the
/// separator stands in that.
pub proof fn what_follows_the_last_separator(before: Seq<char>, sep: Seq<char>, rest: Seq<char>)
    requires
        sep.len() > 0,
        forall|j: int|
            before.len() < j ==> !#[trigger] text::occurs_at(before + sep + rest, sep, j),
    ensures
        after_last(before + sep + rest, sep) == Some(rest),
{
    let s = before + sep + rest;
    let n = before.len() as int;
    text::rfind_from_is_last(s, sep, s.len() - sep.len());
    assert(s.subrange(n, n + sep.len()) == sep);
    assert(text::occurs_at(s, sep, n));
    assert(s.skip(n + sep.len()) == rest);
}

/// The start time is the twentieth field behind the process name, whatever
/// blanks and brackets the name holds.
pub proof fn the_start_time_stands_behind_the_name(
    before: Seq<char>,
    fields: Seq<Seq<char>>,
    time: u64,
)
    requires
        fields.len() > 19,
        forall|i: int| 0 <= i < fields.len() ==> text::is_word(#[trigger] fields[i]),
        fields[19] == text::decimal(time as nat),
        !text::join(fields, " "@).contains(')'),
    ensures
        stat_start_time(before + ") "@ + text::join(fields, " "@)) == Some(time as int),
{
    reveal_strlit(") ");
    let rest = text::join(fields, " "@);
    let s = before + ") "@ + rest;
    assert forall|j: int| before.len() < j implies !#[trigger] text::occurs_at(s, ") "@, j) by {
        if text::occurs_at(s, ") "@, j) {
            assert(s.subrange(j, j + 2)[0] == s[j]);
            assert(s[j] == ')');
            if j == before.len() + 1 {
                assert(s[j] == ' ');
            } else {
                assert(s[j] == rest[j - before.len() - 2]);
            }
        }
    }
    what_follows_the_last_separator(before, ") "@, rest);
    text::joined_words_are_read_back(fields);
    text::parse_of_decimal(time as nat, u64::MAX as int);
}

/// The process that is looked up next is not in the tree, and whatever stands
/// behind it is; where nothing is left to look up, all are in the tree.
pub proof fn the_last_unseen_comes_next(tree: Seq<(u32, ProcessIdentity)>, pending: Seq<u32>)
    ensures
        match last_unseen(tree, pending) {
            Some((pid, n)) => {
                &&& 0 <= n < pending.len()
                &&& pending[n] == pid
                &&& !in_tree(tree, pid)
                &&& forall|k: int| n < k < pending.len() ==> in_tree(tree, #[trigger] pending[k])
            },
            None => forall|k: int| 0 <= k < pending.len() ==> in_tree(tree, #[trigger] pending[k]),
        },
    decreases pending.len(),
{
    if pending.len() > 0 && in_tree(tree, pending.last()) {
        the_last_unseen_comes_next(tree, pending.drop_last());
        assert forall|k: int|
            0 <= k < pending.len() && (k == pending.len() - 1 || in_tree(
                tree,
                pending.drop_last()[k],
            )) implies in_tree(tree, #[trigger] pending[k]) by {
            if k < pending.len() - 1 {
                assert(pending.drop_last()[k] == pending[k]);
            }
        }
        match last_unseen(tree, pending) {
            Some((pid, n)) => {
                assert forall|k: int| n < k < pending.len() implies in_tree(
                    tree,
                    #[trigger] pending[k],
                ) by {
                    if k < pending.len() - 1 {
                        assert(in_tree(tree, pending.drop_last()[k]));
                    }
                }
            },
            None => {
                assert forall|k: int| 0 <= k < pending.len() implies in_tree(
                    tree,
                    #[trigger] pending[k],
                ) by {
                    if k < pending.len() - 1 {
                        assert(in_tree(tree, pending.drop_last()[k]));
                    }
                }
            },
        }
    }
}

/// Every entry that is a number is a thread, once for each entry, and no other.
pub proof fn threads_are_the_numbers(names: Seq<Seq<char>>, name: Seq<char>, n: int)
    ensures
        numbers_in(names.push(name)) == match text::parse_signed(name) {
            Some(id) => numbers_in(names).push(id),
            None => numbers_in(names),
        },
        numbers_in(names).contains(n) <==> exists|i: int|
            0 <= i < names.len() && text::parse_signed(#[trigger] names[i]) == Some(n),
    decreases names.len(),
{
    assert(names.push(name).drop_last() == names);
    if names.len() > 0 {
        let l = names.drop_last();
        threads_are_the_numbers(l, name, n);
        let rest = numbers_in(l);
        let all = numbers_in(names);
        if all.contains(n) {
            let k = choose|k: int| 0 <= k < all.len() && all[k] == n;
            if k < rest.len() {
                assert(rest[k] == n);
                let i = choose|i: int|
                    0 <= i < l.len() && text::parse_signed(#[trigger] l[i]) == Some(n);
                assert(names[i] == l[i]);
            } else {
                assert(text::parse_signed(names[names.len() - 1]) == Some(n));
            }
        }
        if exists|i: int| 0 <= i < names.len() && text::parse_signed(#[trigger] names[i]) == Some(
            n,
        ) {
            let i = choose|i: int|
                0 <= i < names.len() && text::parse_signed(#[trigger] names[i]) == Some(n);
            if i < l.len() {
                assert(l[i] == names[i]);
                assert(rest.contains(n));
                let k = choose|k: int| 0 <= k < rest.len() && rest[k] == n;
                assert(all[k] == n);
            } else {
                assert(all[all.len() - 1] == n);
            }
        }
    }
}

/// The port of an address is the number behind its last colon, whatever colons
/// the host holds.
pub proof fn a_port_is_read_back(host: Seq<char>, port: u16)
    ensures
        port_of(host + ":"@ + text::decimal(port as nat)) == Some(port as int),
{
    reveal_strlit(":");
    let d = text::decimal(port as nat);
    text::number_of_decimal(port as nat);
    let s = host + ":"@ + d;
    assert forall|j: int| host.len() < j implies !#[trigger] text::occurs_at(s, ":"@, j) by {
        if text::occurs_at(s, ":"@, j) {
            assert(s.subrange(j, j + 1)[0] == s[j]);
            assert(s[j] == d[j - host.len() - 1]);
            assert(text::is_digit(d[j - host.len() - 1]));
        }
    }
    what_follows_the_last_separator(host, ":"@, d);
    text::parse_of_decimal(port as nat, u16::MAX as int);
}

/// How a port is written in the kernel's tables.
proof fn four_digits(port: u16)
    ensures
        text::hex(port as int, 4, true).len() == 4,
        text::hex_number(text::hex(port as int, 4, true)) == port,
        !text::hex(port as int, 4, true).contains(':'),
{
    reveal_with_fuel(text::sixteens, 5);
    text::hexadecimal_reads_back(port as int, 4, true, 65536);
    digits_are_no_colons(port as int, 4);
}

proof fn digits_are_no_colons(n: int, width: nat)
    requires
        0 <= n,
    ensures
        !text::hex(n, width, true).contains(':'),
    decreases width,
{
    if width > 0 {
        digits_are_no_colons(n / 16, (width - 1) as nat);
        let rest = text::hex(n / 16, (width - 1) as nat, true);
        let s = text::hex(n, width, true);
        let d = n % 16;
        assert(0 <= d < 16);
        assert(s == rest.push(text::hex_digit(d, true)));
        assert(text::hex_digit(d, true) != ':');
        if s.contains(':') {
            let k = choose|k: int| 0 <= k < s.len() && s[k] == ':';
            assert(rest[k] == ':');
        }
    }
}

/// A line of a socket table whose local address ends in the port, and whose
/// state is that of a listener, gives the inode of the socket. One in another
/// state, or at another port, gives none.
pub proof fn a_listener_is_known_by_port_and_state(
    fields: Seq<Seq<char>>,
    address: Seq<char>,
    port: u16,
    other: u16,
    inode: u64,
)
    requires
        fields.len() > 9,
        forall|i: int| 0 <= i < fields.len() ==> text::is_word(#[trigger] fields[i]),
        fields[1] == address + ":"@ + text::hex(port as int, 4, true),
        fields[9] == text::decimal(inode as nat),
    ensures
        listener_in_line(text::join(fields, " "@), other as int) == if port == other && fields[3]
            == "0A"@ {
            Some(inode as int)
        } else {
            None
        },
{
    reveal_strlit(":");
    text::joined_words_are_read_back(fields);
    let d = text::hex(port as int, 4, true);
    four_digits(port);
    four_digits(other);
    let s = fields[1];
    assert forall|j: int| address.len() < j implies !#[trigger] text::occurs_at(s, ":"@, j) by {
        if text::occurs_at(s, ":"@, j) {
            assert(s.subrange(j, j + 1)[0] == s[j]);
            assert(s[j] == d[j - address.len() - 1]);
        }
    }
    what_follows_the_last_separator(address, ":"@, d);
    text::parse_of_decimal(inode as nat, u64::MAX as int);
}

/// The first line behind the heading that shows a listener on the port counts;
/// the heading itself never does.
pub proof fn the_first_listener_counts(lines: Seq<Seq<char>>, port: int, i: int, k: int)
    requires
        0 <= i <= k <= lines.len(),
        forall|j: int| i <= j < k ==> listener_in_line(#[trigger] lines[j], port) is None,
        k < lines.len() ==> listener_in_line(lines[k], port) is Some,
    ensures
        listener_from(lines, port, i) == if k < lines.len() {
            listener_in_line(lines[k], port)
        } else {
            None
        },
    decreases k - i,
{
    if i < k {
        the_first_listener_counts(lines, port, i + 1, k);
    }
}

/// A table whose heading is followed by a line of a listener gives that one. A
/// table that shows none leaves it to the tables behind it.
pub proof fn tables_are_read_in_turn(heading: Seq<char>, line: Seq<char>, rest: Seq<char>, tables: Seq<Seq<char>>, port: int)
    requires
        !heading.contains('\n'),
        !line.contains('\n'),
        line.len() > 0,
        line.last() != '\r',
        tables.len() > 0,
    ensures
        tables[0] == heading + seq!['\n'] + (line + seq!['\n'] + rest) && listener_in_line(
            line,
            port,
        ) is Some ==> listener_in(tables, port, 0) == listener_in_line(line, port),
        tables[0] == heading + seq!['\n'] ==> listener_in(tables, port, 0) == listener_in(
            tables,
            port,
            1,
        ),
{
    text::a_line_ends_at_a_line_feed(heading, line + seq!['\n'] + rest);
    text::a_line_ends_at_a_line_feed(heading, Seq::empty());
    text::a_line_ends_at_a_line_feed(line, rest);
    if tables[0] == heading + seq!['\n'] + (line + seq!['\n'] + rest) {
        let l = text::lines(tables[0]);
        assert(l[1] == line);
        assert(listener_from(l, port, 1) == listener_in_line(l[1], port) || listener_in_line(
            line,
            port,
        ) is None);
    }
    if tables[0] == heading + seq!['\n'] {
        assert(heading + seq!['\n'] + Seq::<char>::empty() == tables[0]);
        assert(text::lines(tables[0]).len() == 1);
    }
}

/// A socket is known by its inode: two sockets have two names.
pub proof fn sockets_are_told_apart(m: u64, n: u64)
    ensures
        socket_name(m as int) == socket_name(n as int) ==> m == n,
        socket_name(m as int) == "socket:["@ + text::decimal(m as nat) + "]"@,
{
    reveal_strlit("]");
    reveal_strlit("socket:[");
    let a = socket_name(m as int);
    let b = socket_name(n as int);
    text::number_of_decimal(m as nat);
    text::number_of_decimal(n as nat);
    assert(a.subrange(8, a.len() - 1) == text::decimal(m as nat));
    assert(b.subrange(8, b.len() - 1) == text::decimal(n as nat));
}

} // verus!
