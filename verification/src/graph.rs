//! A picture of the timeline: one row of characters for each stream.

use vstd::prelude::*;

use crate::chains;
use crate::chains::StreamLaunch;
use crate::groups;
use crate::groups::{ranked_totals, NamedTotal};
use crate::text;
use crate::text::{chars_of, parse_bounded_chars, same_text, string_of};

verus! {

/// The width that a row has unless another one is asked for.
pub const USUAL_WIDTH: usize = 100;

/// The width that is asked for, where it is a number from 20 to 500.
pub fn graph_width(arg: Option<&str>) -> (r: usize)
    ensures
        20 <= r <= 500,
        ({
            let asked = match arg {
                Some(s) => text::parse_unsigned(s@, u64::MAX as int),
                None => None,
            };
            match asked {
                Some(n) => r == if 20 <= n <= 500 {
                    n
                } else {
                    USUAL_WIDTH as int
                },
                None => r == USUAL_WIDTH,
            }
        }),
{
    match arg {
        Some(s) => match parse_bounded_chars(&chars_of(s), u64::MAX) {
            Some(n) => if 20 <= n && n <= 500 {
                n as usize
            } else {
                USUAL_WIDTH
            },
            None => USUAL_WIDTH,
        },
        None => USUAL_WIDTH,
    }
}

/// The character for the kernel at rank `i`: capital letters, small letters,
/// digits, and a star for all others.
pub open spec fn glyph(i: int) -> char {
    if i < 26 {
        ('A' as int + i) as char
    } else if i < 52 {
        ('a' as int + i - 26) as char
    } else if i < 62 {
        ('0' as int + i - 52) as char
    } else {
        '*'
    }
}

pub fn glyph_of(i: usize) -> (r: char)
    ensures
        r == glyph(i as int),
{
    if i < 26 {
        ('A' as u8 + i as u8) as char
    } else if i < 52 {
        ('a' as u8 + (i - 26) as u8) as char
    } else if i < 62 {
        ('0' as u8 + (i - 52) as u8) as char
    } else {
        '*'
    }
}

/// The first cell of a launch.
pub open spec fn first_cell(start: int, from: int, span: int, width: int) -> int {
    let c = (start - from) * width / span;
    if c < width - 1 {
        c
    } else {
        width - 1
    }
}

/// `a / b`, rounded up.
pub open spec fn divided_up(a: int, b: int) -> int {
    if a <= 0 {
        0
    } else {
        (a + b - 1) / b
    }
}

/// The cell after the last one of a launch. A launch has one cell at least.
pub open spec fn end_cell(end: int, from: int, span: int, width: int, first: int) -> int {
    let c = divided_up((end - from) * width, span);
    if c < first + 1 {
        first + 1
    } else if c > width {
        width
    } else {
        c
    }
}

/// A launch takes up a cell.
pub open spec fn takes(l: StreamLaunch, from: int, span: int, width: int, c: int) -> bool {
    let s = first_cell(l.start as int, from, span, width);
    s <= c < end_cell(chains::end_of(l), from, span, width, s)
}

/// The rank of a name, at or after `k`.
pub open spec fn rank_from(t: Seq<groups::NamedTotalV>, name: Seq<char>, k: int) -> Option<int>
    decreases t.len() - k,
{
    if k < 0 || k >= t.len() {
        None
    } else if t[k].name == name {
        Some(k)
    } else {
        rank_from(t, name, k + 1)
    }
}

/// The character of a kernel.
pub open spec fn glyph_for(t: Seq<groups::NamedTotalV>, name: Seq<char>) -> char {
    match rank_from(t, name, 0) {
        Some(k) => glyph(k),
        None => '?',
    }
}

/// What stands in a cell after the launches from `a` up to `b` were drawn: the
/// last one that takes it up.
pub open spec fn drawn(
    names: Seq<Seq<char>>,
    v: Seq<StreamLaunch>,
    t: Seq<groups::NamedTotalV>,
    from: int,
    span: int,
    width: int,
    a: int,
    b: int,
    c: int,
) -> char
    decreases b - a,
{
    if a >= b {
        ' '
    } else if takes(v[b - 1], from, span, width, c) {
        glyph_for(t, names[b - 1])
    } else {
        drawn(names, v, t, from, span, width, a, b - 1, c)
    }
}

/// The end of the launches on the stream of launch `a`, from `i` on.
pub open spec fn stream_end(v: Seq<StreamLaunch>, a: int, i: int) -> int
    decreases v.len() - i,
{
    if i < 0 || i >= v.len() || v[i].stream != v[a].stream {
        i
    } else {
        stream_end(v, a, i + 1)
    }
}

proof fn stream_end_is_later(v: Seq<StreamLaunch>, a: int, i: int)
    requires
        0 <= i <= v.len(),
    ensures
        i <= stream_end(v, a, i) <= v.len(),
    decreases v.len() - i,
{
    if i < v.len() && v[i].stream == v[a].stream {
        stream_end_is_later(v, a, i + 1);
    }
}

/// The rows from launch `a` on.
pub open spec fn rows_from(
    names: Seq<Seq<char>>,
    v: Seq<StreamLaunch>,
    t: Seq<groups::NamedTotalV>,
    from: int,
    span: int,
    width: int,
    a: int,
) -> Seq<(u32, Seq<char>)>
    decreases v.len() - a,
{
    if a < 0 || a >= v.len() {
        Seq::empty()
    } else {
        let b = stream_end(v, a, a + 1);
        let row = Seq::new(
            width as nat,
            |c: int| drawn(names, v, t, from, span, width, a, b, c),
        );
        if a < b <= v.len() {
            seq![(v[a].stream, row)] + rows_from(names, v, t, from, span, width, b)
        } else {
            Seq::empty()
        }
    }
}

/// The first start among the first `n` launches.
pub open spec fn first_start(v: Seq<StreamLaunch>, n: int) -> int
    decreases n,
{
    if n <= 1 {
        v[0].start as int
    } else {
        let s = first_start(v, n - 1);
        if v[n - 1].start < s {
            v[n - 1].start as int
        } else {
            s
        }
    }
}

/// The last end among the first `n` launches.
pub open spec fn last_end(v: Seq<StreamLaunch>, n: int) -> int
    decreases n,
{
    if n <= 1 {
        chains::end_of(v[0])
    } else {
        let e = last_end(v, n - 1);
        if chains::end_of(v[n - 1]) > e {
            chains::end_of(v[n - 1])
        } else {
            e
        }
    }
}

#[derive(Debug)]
pub struct Graph {
    pub from: i64,
    pub to: i128,
    pub rows: Vec<(u32, String)>,
    /// The kernels, in the order of their characters.
    pub kernels: Vec<NamedTotal>,
}

pub open spec fn row_views(v: Seq<(u32, String)>) -> Seq<(u32, Seq<char>)> {
    Seq::new(v.len(), |i: int| (v[i].0, v[i].1@))
}

pub open spec fn launch_times(v: Seq<StreamLaunch>) -> Seq<i64> {
    Seq::new(v.len(), |i: int| v[i].duration)
}

fn rank_of(t: &[NamedTotal], name: &str) -> (r: Option<usize>)
    ensures
        match r {
            Some(k) => rank_from(groups::total_views(t@), name@, 0) == Some(k as int),
            None => rank_from(groups::total_views(t@), name@, 0) is None,
        },
{
    let mut k: usize = 0;
    while k < t.len()
        invariant
            k <= t@.len(),
            rank_from(groups::total_views(t@), name@, 0) == rank_from(
                groups::total_views(t@),
                name@,
                k as int,
            ),
        decreases t@.len() - k,
    {
        assert(groups::total_views(t@)[k as int] == t@[k as int]@);
        if same_text(t[k].name.as_str(), name) {
            return Some(k);
        }
        k = k + 1;
    }
    None
}

proof fn cells_are_small(x: int, width: int, span: int)
    requires
        0 <= x <= 0x2_0000_0000_0000_0000,
        20 <= width <= 500,
        0 < span <= 0x4_0000_0000_0000_0000,
    ensures
        0 <= x * width <= 0x2_0000_0000_0000_0000 * 500,
        0 <= x * width / span <= x * width,
{
    assert(0 <= x * width <= 0x2_0000_0000_0000_0000 * 500) by (nonlinear_arith)
        requires
            0 <= x <= 0x2_0000_0000_0000_0000,
            20 <= width <= 500,
    ;
    let y = x * width;
    vstd::arithmetic::div_mod::lemma_div_pos_is_pos(y, span);
    vstd::arithmetic::div_mod::lemma_div_is_ordered_by_denominator(y, 1, span);
}

/// The cells of a launch: the first, and the one after the last.
fn cells_of(l: &StreamLaunch, from: i64, span: i128, width: usize) -> (r: (usize, usize))
    requires
        20 <= width <= 500,
        0 < span <= 0x4_0000_0000_0000_0000,
        from <= l.start,
    ensures
        r.0 == first_cell(l.start as int, from as int, span as int, width as int),
        r.1 == end_cell(
            chains::end_of(*l),
            from as int,
            span as int,
            width as int,
            r.0 as int,
        ),
        r.0 < r.1 <= width,
{
    let x: i128 = l.start as i128 - from as i128;
    proof {
        cells_are_small(x as int, width as int, span as int);
    }
    let c: i128 = x * width as i128 / span;
    let s: usize = if c < width as i128 - 1 {
        c as usize
    } else {
        width - 1
    };
    let y: i128 = l.start as i128 + l.duration as i128 - from as i128;
    let e: i128 = if y <= 0 {
        proof {
            assert(y * width <= 0) by (nonlinear_arith)
                requires
                    y <= 0,
                    width >= 20,
            ;
        }
        0
    } else {
        proof {
            cells_are_small(y as int, width as int, span as int);
            assert(y * width > 0) by (nonlinear_arith)
                requires
                    y > 0,
                    width >= 20,
            ;
            let z = y * width + span - 1;
            vstd::arithmetic::div_mod::lemma_div_pos_is_pos(z, span as int);
        }
        (y * width as i128 + span - 1) / span
    };
    let end: usize = if e < s as i128 + 1 {
        s + 1
    } else if e > width as i128 {
        width
    } else {
        e as usize
    };
    (s, end)
}

/// Draws the timeline. The launches are given by stream, and in the order of
/// their starts on each. There is no picture without launches, nor where they
/// take no time.
pub fn stream_graph(names: &[String], v: &[StreamLaunch], width: usize) -> (r: Option<Graph>)
    requires
        names@.len() == v@.len(),
        20 <= width <= 500,
    ensures
        match r {
            Some(g) => {
                let n = v@.len() as int;
                let all = text::texts(names@);
                let t = groups::ranked(all, launch_times(v@));
                let from = first_start(v@, n);
                let span = last_end(v@, n) - from;
                &&& n > 0
                &&& span > 0
                &&& g.from == from
                &&& g.to == last_end(v@, n)
                &&& groups::total_views(g.kernels@) == t
                &&& row_views(g.rows@) == rows_from(all, v@, t, from, span, width as int, 0)
            },
            None => v@.len() == 0 || last_end(v@, v@.len() as int) <= first_start(
                v@,
                v@.len() as int,
            ),
        },
{
    let n: usize = v.len();
    if n == 0 {
        return None;
    }
    let ghost all = text::texts(names@);
    let mut from: i64 = v[0].start;
    let mut to: i128 = v[0].start as i128 + v[0].duration as i128;
    let mut long: Vec<i64> = Vec::new();
    long.push(v[0].duration);
    let mut i: usize = 1;
    while i < n
        invariant
            1 <= i <= n,
            n == v@.len(),
            from == first_start(v@, i as int),
            to == last_end(v@, i as int),
            forall|k: int| 0 <= k < i ==> from <= (#[trigger] v@[k]).start,
            -0x1_0000_0000_0000_0000 <= to <= 0x1_0000_0000_0000_0000,
            long@ =~= launch_times(v@).take(i as int),
        decreases n - i,
    {
        if v[i].start < from {
            from = v[i].start;
        }
        let e: i128 = v[i].start as i128 + v[i].duration as i128;
        if e > to {
            to = e;
        }
        long.push(v[i].duration);
        i = i + 1;
    }
    assert(long@ =~= launch_times(v@));
    let span: i128 = to - from as i128;
    if span <= 0 {
        return None;
    }
    let kernels = ranked_totals(names, &long);
    let ghost t = groups::ranked(all, launch_times(v@));
    let mut glyphs: Vec<char> = Vec::new();
    let mut i: usize = 0;
    while i < n
        invariant
            i <= n,
            n == v@.len(),
            n == names@.len(),
            all == text::texts(names@),
            groups::total_views(kernels@) == t,
            glyphs@.len() == i,
            forall|k: int| 0 <= k < i ==> #[trigger] glyphs@[k] == glyph_for(t, all[k]),
        decreases n - i,
    {
        let g: char = match rank_of(&kernels, names[i].as_str()) {
            Some(k) => glyph_of(k),
            None => '?',
        };
        assert(all[i as int] == names@[i as int]@);
        glyphs.push(g);
        i = i + 1;
    }
    let mut rows: Vec<(u32, String)> = Vec::new();
    let ghost f = from as int;
    let ghost sp = span as int;
    let ghost w = width as int;
    let ghost whole = rows_from(all, v@, t, f, sp, w, 0);
    let mut a: usize = 0;
    assert(row_views(rows@) + whole =~= whole);
    while a < n
        invariant
            a <= n,
            n == v@.len(),
            n == names@.len(),
            f == from,
            sp == span,
            w == width,
            0 < span <= 0x4_0000_0000_0000_0000,
            20 <= width <= 500,
            forall|k: int| 0 <= k < n ==> from <= (#[trigger] v@[k]).start,
            glyphs@.len() == n,
            forall|k: int| 0 <= k < n ==> #[trigger] glyphs@[k] == glyph_for(t, all[k]),
            row_views(rows@) + rows_from(all, v@, t, f, sp, w, a as int) =~= whole,
        decreases n - a,
    {
        proof {
            stream_end_is_later(v@, a as int, a + 1);
        }
        let stream: u32 = v[a].stream;
        let mut line: Vec<char> = Vec::new();
        let mut c: usize = 0;
        while c < width
            invariant
                c <= width,
                line@.len() == c,
                forall|k: int| 0 <= k < c ==> #[trigger] line@[k] == ' ',
            decreases width - c,
        {
            line.push(' ');
            c = c + 1;
        }
        let mut b: usize = a;
        while b < n && v[b].stream == stream
            invariant
                a <= b <= n,
                n == v@.len(),
                f == from,
                sp == span,
                w == width,
                0 < span <= 0x4_0000_0000_0000_0000,
                20 <= width <= 500,
                a < n,
                stream == v@[a as int].stream,
                forall|k: int| 0 <= k < n ==> from <= (#[trigger] v@[k]).start,
                glyphs@.len() == n,
                forall|k: int| 0 <= k < n ==> #[trigger] glyphs@[k] == glyph_for(t, all[k]),
                b > a ==> stream_end(v@, a as int, a + 1) == stream_end(v@, a as int, b as int),
                line@.len() == width,
                forall|k: int|
                    0 <= k < width ==> #[trigger] line@[k] == drawn(
                        all,
                        v@,
                        t,
                        f,
                        sp,
                        w,
                        a as int,
                        b as int,
                        k,
                    ),
            decreases n - b,
        {
            let (s, e) = cells_of(&v[b], from, span, width);
            let g: char = glyphs[b];
            let ghost before = line@;
            let mut c: usize = s;
            while c < e
                invariant
                    s <= c <= e <= width,
                    line@.len() == width,
                    before.len() == width,
                    forall|k: int|
                        0 <= k < width ==> #[trigger] line@[k] == (if s <= k < c {
                            g
                        } else {
                            before[k]
                        }),
                decreases e - c,
            {
                line.set(c, g);
                c = c + 1;
            }
            assert forall|k: int| 0 <= k < width implies #[trigger] line@[k] == drawn(
                all,
                v@,
                t,
                f,
                sp,
                w,
                a as int,
                b + 1,
                k,
            ) by {
                assert(before[k] == drawn(all, v@, t, f, sp, w, a as int, b as int, k));
                assert(takes(v@[b as int], f, sp, w, k) <==> s <= k < e);
            }
            b = b + 1;
        }
        let ghost seen = rows@;
        let row = string_of(&line);
        assert(b > a);
        assert(b == stream_end(v@, a as int, a + 1));
        assert(row@ =~= Seq::new(
            w as nat,
            |c: int| drawn(all, v@, t, f, sp, w, a as int, b as int, c),
        ));
        let ghost item = (stream, row@);
        rows.push((stream, row));
        assert(row_views(rows@) =~= row_views(seen).push(item));
        assert(row_views(seen) + (seq![item] + rows_from(all, v@, t, f, sp, w, b as int))
            =~= row_views(rows@) + rows_from(all, v@, t, f, sp, w, b as int));
        a = b;
    }
    assert(row_views(rows@) =~= whole);
    Some(Graph { from, to, rows, kernels })
}

/// However short a launch is, it takes up a cell of the row.
pub proof fn every_launch_has_a_cell(l: StreamLaunch, from: int, span: int, width: int)
    requires
        from <= l.start,
        span > 0,
        width > 0,
    ensures
        ({
            let c = first_cell(l.start as int, from, span, width);
            0 <= c < width && takes(l, from, span, width, c)
        }),
{
    let x = (l.start - from) * width;
    assert(x >= 0) by (nonlinear_arith)
        requires
            x == (l.start - from) * width,
            from <= l.start,
            width > 0,
    ;
    vstd::arithmetic::div_mod::lemma_div_pos_is_pos(x, span);
}

// ---------------------------------------------------------------------------
// Laws
// ---------------------------------------------------------------------------

/// The first kernels have characters of their own, letters and digits; all
/// others share the star.
pub proof fn characters_are_told_apart(i: int, j: int)
    requires
        0 <= i < j,
    ensures
        j < 62 ==> glyph(i) != glyph(j),
        i < 62 ==> 'A' <= glyph(i) <= 'Z' || 'a' <= glyph(i) <= 'z' || '0' <= glyph(i) <= '9',
        j >= 62 ==> glyph(j) == '*',
{
}

/// A kernel has the character of its rank.
pub proof fn a_kernel_has_the_character_of_its_rank(t: Seq<groups::NamedTotalV>, k: int)
    requires
        0 <= k < t.len(),
        forall|i: int| 0 <= i < k ==> (#[trigger] t[i]).name != t[k].name,
    ensures
        glyph_for(t, t[k].name) == glyph(k),
{
    rank_is_first(t, 0, k);
}

proof fn rank_is_first(t: Seq<groups::NamedTotalV>, i: int, k: int)
    requires
        0 <= i <= k < t.len(),
        forall|j: int| i <= j < k ==> (#[trigger] t[j]).name != t[k].name,
    ensures
        rank_from(t, t[k].name, i) == Some(k),
    decreases k - i,
{
    if i < k {
        rank_is_first(t, i + 1, k);
    }
}

/// The picture begins with the first start and ends with the last end.
pub proof fn the_picture_spans_all_launches(v: Seq<StreamLaunch>, n: int)
    requires
        0 < n <= v.len(),
    ensures
        forall|i: int|
            0 <= i < n ==> first_start(v, n) <= (#[trigger] v[i]).start && v[i].start
                + v[i].duration <= last_end(v, n),
        exists|i: int| 0 <= i < n && (#[trigger] v[i]).start == first_start(v, n),
        exists|i: int| 0 <= i < n && (#[trigger] v[i]).start + v[i].duration == last_end(v, n),
    decreases n,
{
    if n > 1 {
        the_picture_spans_all_launches(v, n - 1);
        let i = choose|i: int| 0 <= i < n - 1 && (#[trigger] v[i]).start == first_start(v, n - 1);
        let j = choose|j: int|
            0 <= j < n - 1 && (#[trigger] v[j]).start + v[j].duration == last_end(v, n - 1);
        assert(v[i].start == first_start(v, n) || v[n - 1].start == first_start(v, n));
        assert(v[j].start + v[j].duration == last_end(v, n) || v[n - 1].start + v[n - 1].duration
            == last_end(v, n));
    } else {
        assert(v[0].start == first_start(v, n));
    }
}

/// A launch takes up a cell where the time of the cell and that of the launch
/// have something in common, and only there.
pub proof fn a_launch_takes_up_the_cells_of_its_time(
    l: StreamLaunch,
    from: int,
    span: int,
    width: int,
    c: int,
)
    requires
        from <= l.start,
        l.duration > 0,
        l.start + l.duration <= from + span,
        width > 0,
        0 <= c < width,
    ensures
        takes(l, from, span, width, c) <==> c * span < (l.start + l.duration - from) * width && (
        l.start - from) * width < (c + 1) * span,
{
    let x = (l.start - from) * width;
    let e = l.start + l.duration - from;
    let y = e * width;
    let f = x / span;
    assert(0 <= x < y <= span * width) by (nonlinear_arith)
        requires
            x == (l.start - from) * width,
            y == e * width,
            0 <= l.start - from < e <= span,
            width > 0,
    ;
    assert(f * span <= x < (f + 1) * span && 0 <= f < width) by (nonlinear_arith)
        requires
            f == x / span,
            0 <= x < span * width,
            span > 0,
    ;
    let u = (y + span - 1) / span;
    assert((u - 1) * span < y <= u * span && f < u <= width) by (nonlinear_arith)
        requires
            u == (y + span - 1) / span,
            0 < y <= span * width,
            f * span <= x < y,
            span > 0,
    ;
    assert(f <= c <==> x < (c + 1) * span) by (nonlinear_arith)
        requires
            f * span <= x < (f + 1) * span,
            span > 0,
    ;
    assert(c < u <==> c * span < y) by (nonlinear_arith)
        requires
            (u - 1) * span < y <= u * span,
            span > 0,
    ;
}

/// A cell shows the last launch that takes it up, and a blank where none does.
pub proof fn a_cell_shows_the_last_launch(
    names: Seq<Seq<char>>,
    v: Seq<StreamLaunch>,
    t: Seq<groups::NamedTotalV>,
    from: int,
    span: int,
    width: int,
    a: int,
    b: int,
    c: int,
    k: int,
)
    requires
        a - 1 <= k < b,
        k >= a ==> takes(v[k], from, span, width, c),
        forall|j: int| k < j < b ==> !takes(#[trigger] v[j], from, span, width, c),
    ensures
        drawn(names, v, t, from, span, width, a, b, c) == if k >= a {
            glyph_for(t, names[k])
        } else {
            ' '
        },
    decreases b - a,
{
    if a < b && k < b - 1 {
        a_cell_shows_the_last_launch(names, v, t, from, span, width, a, b - 1, c, k);
    }
}

proof fn stream_ends_where_it_does(v: Seq<StreamLaunch>, a: int, i: int, b: int)
    requires
        0 <= i <= b <= v.len(),
        forall|j: int| i <= j < b ==> (#[trigger] v[j]).stream == v[a].stream,
        b < v.len() ==> v[b].stream != v[a].stream,
    ensures
        stream_end(v, a, i) == b,
    decreases b - i,
{
    if i < b {
        stream_ends_where_it_does(v, a, i + 1, b);
    }
}

/// The launches of one stream, as far as they stand together, make one row, as
/// wide as asked for; what follows them makes the rows behind it.
pub proof fn a_stream_has_its_row(
    names: Seq<Seq<char>>,
    v: Seq<StreamLaunch>,
    t: Seq<groups::NamedTotalV>,
    from: int,
    span: int,
    width: int,
    a: int,
    b: int,
)
    requires
        0 <= a < b <= v.len(),
        forall|j: int| a <= j < b ==> (#[trigger] v[j]).stream == v[a].stream,
        b < v.len() ==> v[b].stream != v[a].stream,
        width >= 0,
    ensures
        ({
            let rows = rows_from(names, v, t, from, span, width, a);
            &&& rows.len() > 0
            &&& rows[0].0 == v[a].stream
            &&& rows[0].1.len() == width
            &&& forall|c: int|
                0 <= c < width ==> #[trigger] rows[0].1[c] == drawn(
                    names,
                    v,
                    t,
                    from,
                    span,
                    width,
                    a,
                    b,
                    c,
                )
            &&& rows.skip(1) == rows_from(names, v, t, from, span, width, b)
        }),
{
    stream_ends_where_it_does(v, a, a + 1, b);
    let rows = rows_from(names, v, t, from, span, width, a);
    let rest = rows_from(names, v, t, from, span, width, b);
    assert(rows.skip(1) == rest);
}

} // verus!
