//! Text as sequences of characters: searching, splitting, trimming and
//! decimal numbers, stated over `Seq<char>`.

use vstd::prelude::*;

verus! {

// ---------------------------------------------------------------------------
// Trusted: one method of `String`
// ---------------------------------------------------------------------------

/// `String::push` appends the given character to the end of the string.
pub assume_specification[ String::push ](s: &mut String, ch: char)
    ensures
        final(s)@ == old(s)@.push(ch),
;

// ---------------------------------------------------------------------------
// Conversions
// ---------------------------------------------------------------------------

/// The characters of a string, in order.
pub fn chars_of(s: &str) -> (v: Vec<char>)
    ensures
        v@ == s@,
{
    let mut v: Vec<char> = Vec::new();
    for c in it: s.chars()
        invariant
            v@ == it.seq().take(it.index()),
            it.seq() == s@,
    {
        v.push(c);
    }
    v
}

/// The string made of the given characters.
pub fn string_of(v: &[char]) -> (s: String)
    ensures
        s@ == v@,
{
    let mut s: String = String::new();
    let mut i: usize = 0;
    while i < v.len()
        invariant
            i <= v@.len(),
            s@ == v@.take(i as int),
        decreases v@.len() - i,
    {
        s.push(v[i]);
        i = i + 1;
        assert(v@.take(i as int) =~= v@.take(i - 1).push(v@[i - 1]));
    }
    assert(v@.take(v@.len() as int) =~= v@);
    s
}

/// Whether two strings hold the same characters.
pub fn same_text(a: &str, b: &str) -> (r: bool)
    ensures
        r == (a@ == b@),
{
    a.to_owned() == b.to_owned()
}

/// The text of an optional string.
pub open spec fn opt_text(s: Option<String>) -> Option<Seq<char>> {
    match s {
        Some(t) => Some(t@),
        None => None,
    }
}

/// The text of an optional string slice.
pub open spec fn opt_str(s: Option<&str>) -> Option<Seq<char>> {
    match s {
        Some(t) => Some(t@),
        None => None,
    }
}

/// The texts of a sequence of strings.
pub open spec fn texts(v: Seq<String>) -> Seq<Seq<char>> {
    Seq::new(v.len(), |i: int| v[i]@)
}

/// The texts of a sequence of character vectors.
pub open spec fn pieces(v: Seq<Vec<char>>) -> Seq<Seq<char>> {
    Seq::new(v.len(), |i: int| v[i]@)
}

// ---------------------------------------------------------------------------
// Searching
// ---------------------------------------------------------------------------

/// `p` stands in `s` at position `i`.
pub open spec fn occurs_at<T>(s: Seq<T>, p: Seq<T>, i: int) -> bool {
    0 <= i && i + p.len() <= s.len() && s.subrange(i, i + p.len()) == p
}

/// The first position at or after `i` where `p` stands in `s`.
pub open spec fn find_from<T>(s: Seq<T>, p: Seq<T>, i: int) -> Option<int>
    decreases s.len() - i + 1,
{
    if i < 0 || i + p.len() > s.len() {
        None
    } else if occurs_at(s, p, i) {
        Some(i)
    } else {
        find_from(s, p, i + 1)
    }
}

/// The first position where `p` stands in `s`.
pub open spec fn find<T>(s: Seq<T>, p: Seq<T>) -> Option<int> {
    find_from(s, p, 0)
}

/// The last position at or before `i` where `p` stands in `s`.
pub open spec fn rfind_from<T>(s: Seq<T>, p: Seq<T>, i: int) -> Option<int>
    decreases i + 1,
{
    if i < 0 {
        None
    } else if occurs_at(s, p, i) {
        Some(i)
    } else {
        rfind_from(s, p, i - 1)
    }
}

/// The last position where `p` stands in `s`.
pub open spec fn rfind<T>(s: Seq<T>, p: Seq<T>) -> Option<int> {
    rfind_from(s, p, s.len() - p.len())
}

/// `p` stands somewhere in `s`.
pub open spec fn contains<T>(s: Seq<T>, p: Seq<T>) -> bool {
    find(s, p) is Some
}

/// `s` begins with `p`.
pub open spec fn starts_with<T>(s: Seq<T>, p: Seq<T>) -> bool {
    occurs_at(s, p, 0)
}

/// `s` ends with `p`.
pub open spec fn ends_with<T>(s: Seq<T>, p: Seq<T>) -> bool {
    occurs_at(s, p, s.len() - p.len())
}

/// What `find_from` returns is an occurrence, and no earlier one exists.
pub proof fn find_from_is_first<T>(s: Seq<T>, p: Seq<T>, i: int)
    requires
        0 <= i,
    ensures
        match find_from(s, p, i) {
            Some(k) => {
                &&& i <= k
                &&& occurs_at(s, p, k)
                &&& forall|j: int| i <= j < k ==> !occurs_at(s, p, j)
            },
            None => forall|j: int| i <= j ==> !occurs_at(s, p, j),
        },
    decreases s.len() - i + 1,
{
    if i + p.len() <= s.len() && !occurs_at(s, p, i) {
        find_from_is_first(s, p, i + 1);
    }
}

/// An occurrence with none before it is what `find_from` returns.
pub proof fn first_is_find_from<T>(s: Seq<T>, p: Seq<T>, i: int, k: int)
    requires
        0 <= i <= k,
        occurs_at(s, p, k),
        forall|j: int| i <= j < k ==> !occurs_at(s, p, j),
    ensures
        find_from(s, p, i) == Some(k),
    decreases k - i,
{
    if i < k {
        first_is_find_from(s, p, i + 1, k);
    }
}

/// What `rfind_from` returns is an occurrence, and no later one exists.
pub proof fn rfind_from_is_last<T>(s: Seq<T>, p: Seq<T>, i: int)
    ensures
        match rfind_from(s, p, i) {
            Some(k) => {
                &&& k <= i
                &&& occurs_at(s, p, k)
                &&& forall|j: int| k < j <= i ==> !occurs_at(s, p, j)
            },
            None => forall|j: int| j <= i ==> !occurs_at(s, p, j),
        },
    decreases i + 1,
{
    if i >= 0 && !occurs_at(s, p, i) {
        rfind_from_is_last(s, p, i - 1);
    }
}

fn stands_at(s: &[char], p: &[char], i: usize) -> (r: bool)
    requires
        i + p@.len() <= s@.len(),
    ensures
        r == occurs_at(s@, p@, i as int),
{
    let n: usize = s.len();
    let mut k: usize = 0;
    while k < p.len()
        invariant
            k <= p@.len(),
            n == s@.len(),
            i + p@.len() <= s@.len(),
            forall|j: int| 0 <= j < k ==> s@[i + j] == p@[j],
        decreases p@.len() - k,
    {
        if s[i + k] != p[k] {
            assert(s@.subrange(i as int, i + p@.len())[k as int] != p@[k as int]);
            return false;
        }
        k = k + 1;
    }
    assert(s@.subrange(i as int, i + p@.len()) =~= p@);
    true
}

/// The first position at or after `from` where `p` stands in `s`.
pub fn find_chars(s: &[char], p: &[char], from: usize) -> (r: Option<usize>)
    ensures
        match r {
            Some(k) => {
                &&& find_from(s@, p@, from as int) == Some(k as int)
                &&& from <= k
                &&& k + p@.len() <= s@.len()
                &&& k + p@.len() <= usize::MAX
            },
            None => find_from(s@, p@, from as int) is None,
        },
{
    if p.len() > s.len() || from > s.len() - p.len() {
        return None;
    }
    let n: usize = s.len();
    let last: usize = n - p.len();
    let mut i: usize = from;
    loop
        invariant
            last + p@.len() == s@.len(),
            n == s@.len(),
            from <= i <= last,
            find_from(s@, p@, from as int) == find_from(s@, p@, i as int),
        decreases last - i,
    {
        if stands_at(s, p, i) {
            return Some(i);
        }
        if i == last {
            assert(find_from(s@, p@, i + 1) is None);
            return None;
        }
        i = i + 1;
    }
}

/// The last position where `p` stands in `s`.
pub fn rfind_chars(s: &[char], p: &[char]) -> (r: Option<usize>)
    ensures
        match r {
            Some(k) => {
                &&& rfind(s@, p@) == Some(k as int)
                &&& k + p@.len() <= s@.len()
                &&& k + p@.len() <= usize::MAX
            },
            None => rfind(s@, p@) is None,
        },
{
    if p.len() > s.len() {
        return None;
    }
    let n: usize = s.len();
    let mut i: usize = n - p.len();
    loop
        invariant
            n == s@.len(),
            i + p@.len() <= s@.len(),
            rfind(s@, p@) == rfind_from(s@, p@, i as int),
        decreases i,
    {
        if stands_at(s, p, i) {
            return Some(i);
        }
        if i == 0 {
            assert(rfind_from(s@, p@, -1) is None);
            return None;
        }
        i = i - 1;
    }
}

pub fn starts_with_chars(s: &[char], p: &[char]) -> (r: bool)
    ensures
        r == starts_with(s@, p@),
{
    p.len() <= s.len() && stands_at(s, p, 0)
}

pub fn ends_with_chars(s: &[char], p: &[char]) -> (r: bool)
    ensures
        r == ends_with(s@, p@),
{
    p.len() <= s.len() && stands_at(s, p, s.len() - p.len())
}

/// A copy of `s[a..b]`.
pub fn cut(s: &[char], a: usize, b: usize) -> (r: Vec<char>)
    requires
        a <= b <= s@.len(),
    ensures
        r@ == s@.subrange(a as int, b as int),
{
    let mut r: Vec<char> = Vec::new();
    let mut i: usize = a;
    while i < b
        invariant
            a <= i <= b <= s@.len(),
            r@ == s@.subrange(a as int, i as int),
        decreases b - i,
    {
        r.push(s[i]);
        i = i + 1;
        assert(s@.subrange(a as int, i as int) =~= s@.subrange(a as int, i - 1).push(s@[i - 1]));
    }
    r
}

// ---------------------------------------------------------------------------
// Splitting, joining and replacing
// ---------------------------------------------------------------------------

/// The parts of `s` from position `start` on, cut at each `sep` in turn.
pub open spec fn split_from<T>(s: Seq<T>, sep: Seq<T>, start: int) -> Seq<Seq<T>>
    decreases s.len() - start,
{
    match find_from(s, sep, start) {
        Some(i) => if sep.len() > 0 && start <= i && i + sep.len() <= s.len() {
            seq![s.subrange(start, i)] + split_from(s, sep, i + sep.len())
        } else {
            seq![s.skip(start)]
        },
        None => seq![s.skip(start)],
    }
}

/// The parts of `s` between occurrences of `sep`.
pub open spec fn split<T>(s: Seq<T>, sep: Seq<T>) -> Seq<Seq<T>> {
    split_from(s, sep, 0)
}

pub fn split_chars(s: &[char], sep: &[char]) -> (r: Vec<Vec<char>>)
    requires
        sep@.len() > 0,
    ensures
        pieces(r@) == split(s@, sep@),
{
    let mut out: Vec<Vec<char>> = Vec::new();
    let mut start: usize = 0;
    loop
        invariant
            start <= s@.len(),
            sep@.len() > 0,
            pieces(out@) + split_from(s@, sep@, start as int) =~= split(s@, sep@),
        decreases s@.len() - start,
    {
        match find_chars(s, sep, start) {
            Some(i) => {
                proof {
                    find_from_is_first(s@, sep@, start as int);
                }
                let piece = cut(s, start, i);
                let ghost before = out@;
                out.push(piece);
                assert(pieces(out@) =~= pieces(before).push(piece@));
                start = i + sep.len();
            },
            None => {
                let piece = cut(s, start, s.len());
                let ghost before = out@;
                out.push(piece);
                assert(pieces(out@) =~= pieces(before).push(piece@));
                assert(s@.skip(start as int) =~= s@.subrange(start as int, s@.len() as int));
                return out;
            },
        }
    }
}

/// `s` from position `start` on, with each occurrence of `from` replaced.
pub open spec fn replace_from<T>(s: Seq<T>, from: Seq<T>, to: Seq<T>, start: int) -> Seq<T>
    decreases s.len() - start,
{
    match find_from(s, from, start) {
        Some(i) => if from.len() > 0 && start <= i && i + from.len() <= s.len() {
            s.subrange(start, i) + to + replace_from(s, from, to, i + from.len())
        } else {
            s.skip(start)
        },
        None => s.skip(start),
    }
}

/// `s` with each occurrence of `from`, taken from the left, replaced by `to`.
pub open spec fn replace<T>(s: Seq<T>, from: Seq<T>, to: Seq<T>) -> Seq<T> {
    replace_from(s, from, to, 0)
}

/// Where nothing is found, nothing is replaced.
pub proof fn replacing_nothing<T>(s: Seq<T>, from: Seq<T>, to: Seq<T>)
    requires
        !contains(s, from),
    ensures
        replace(s, from, to) == s,
{
    assert(s.skip(0) =~= s);
}

/// Appends `s[a..b]` to `out`.
pub fn extend_range(out: &mut Vec<char>, s: &[char], a: usize, b: usize)
    requires
        a <= b <= s@.len(),
    ensures
        final(out)@ == old(out)@ + s@.subrange(a as int, b as int),
{
    let mut i: usize = a;
    while i < b
        invariant
            a <= i <= b <= s@.len(),
            out@ == old(out)@ + s@.subrange(a as int, i as int),
        decreases b - i,
    {
        out.push(s[i]);
        i = i + 1;
        assert(s@.subrange(a as int, i as int) =~= s@.subrange(a as int, i - 1).push(s@[i - 1]));
    }
}

/// Appends all of `s` to `out`.
pub fn extend_chars(out: &mut Vec<char>, s: &[char])
    ensures
        final(out)@ == old(out)@ + s@,
{
    extend_range(out, s, 0, s.len());
    assert(s@.subrange(0, s@.len() as int) =~= s@);
}

/// Appends the characters of `s` to `out`.
pub fn extend_str(out: &mut Vec<char>, s: &str)
    ensures
        final(out)@ == old(out)@ + s@,
{
    let v = chars_of(s);
    extend_chars(out, &v);
}

pub fn replace_chars(s: &[char], from: &[char], to: &[char]) -> (r: Vec<char>)
    requires
        from@.len() > 0,
    ensures
        r@ == replace(s@, from@, to@),
{
    let mut out: Vec<char> = Vec::new();
    let mut start: usize = 0;
    loop
        invariant
            start <= s@.len(),
            from@.len() > 0,
            out@ + replace_from(s@, from@, to@, start as int) =~= replace(s@, from@, to@),
        decreases s@.len() - start,
    {
        match find_chars(s, from, start) {
            Some(i) => {
                proof {
                    find_from_is_first(s@, from@, start as int);
                }
                extend_range(&mut out, s, start, i);
                extend_chars(&mut out, to);
                start = i + from.len();
            },
            None => {
                extend_range(&mut out, s, start, s.len());
                assert(s@.skip(start as int) =~= s@.subrange(start as int, s@.len() as int));
                return out;
            },
        }
    }
}

/// The parts, with `sep` between neighbours.
pub open spec fn join(parts: Seq<Seq<char>>, sep: Seq<char>) -> Seq<char>
    decreases parts.len(),
{
    if parts.len() == 0 {
        Seq::empty()
    } else if parts.len() == 1 {
        parts[0]
    } else {
        join(parts.drop_last(), sep) + sep + parts.last()
    }
}

/// Each part stands in the text that they are joined to.
pub proof fn join_holds_each_part(parts: Seq<Seq<char>>, sep: Seq<char>, k: int)
    requires
        0 <= k < parts.len(),
    ensures
        contains(join(parts, sep), parts[k]),
    decreases parts.len(),
{
    let j = join(parts, sep);
    if parts.len() == 1 {
        assert(j.subrange(0, parts[k].len() as int) =~= parts[k]);
        found_where_it_stands(j, parts[k], 0);
    } else {
        let front = join(parts.drop_last(), sep);
        if k == parts.len() - 1 {
            let at = (front + sep).len() as int;
            assert(j.subrange(at, at + parts[k].len()) =~= parts[k]);
            found_where_it_stands(j, parts[k], at);
        } else {
            join_holds_each_part(parts.drop_last(), sep, k);
            find_from_is_first(front, parts[k], 0);
            let at = find(front, parts[k])->0;
            assert(j.subrange(at, at + parts[k].len()) =~= front.subrange(
                at,
                at + parts[k].len(),
            ));
            found_where_it_stands(j, parts[k], at);
        }
    }
}

/// What stands somewhere is found.
pub proof fn found_where_it_stands<T>(s: Seq<T>, p: Seq<T>, i: int)
    ensures
        occurs_at(s, p, i) ==> contains(s, p),
{
    find_from_is_first(s, p, 0);
}

/// The text that parts are joined to ends with the last of them.
pub proof fn join_ends_with_the_last_part(parts: Seq<Seq<char>>, sep: Seq<char>)
    requires
        parts.len() > 0,
        parts.last().len() > 0,
    ensures
        join(parts, sep).len() > 0,
        join(parts, sep).last() == parts.last().last(),
{
}

/// Joins strings with a separator.
pub fn join_strings(parts: &[String], sep: &str) -> (r: String)
    ensures
        r@ == join(texts(parts@), sep@),
{
    let mut out: Vec<char> = Vec::new();
    let sep_chars = chars_of(sep);
    let mut i: usize = 0;
    while i < parts.len()
        invariant
            i <= parts@.len(),
            sep_chars@ == sep@,
            out@ == join(texts(parts@).take(i as int), sep@),
        decreases parts@.len() - i,
    {
        let ghost t = texts(parts@);
        assert(t.take(i + 1).drop_last() =~= t.take(i as int));
        assert(t.take(i + 1).last() == parts@[i as int]@);
        if i > 0 {
            extend_chars(&mut out, &sep_chars);
        }
        extend_str(&mut out, parts[i].as_str());
        i = i + 1;
        if i == 1 {
            assert(out@ =~= parts@[0]@);
        }
    }
    assert(texts(parts@).take(parts@.len() as int) =~= texts(parts@));
    string_of(&out)
}

/// `s` without a carriage return at its end.
pub open spec fn without_return(s: Seq<char>) -> Seq<char> {
    if s.len() > 0 && s.last() == '\r' {
        s.drop_last()
    } else {
        s
    }
}

/// The lines of `s` from position `i` on: each ends in a line feed, with or
/// without a carriage return before it; the last one may lack it.
pub open spec fn lines_from(s: Seq<char>, i: int) -> Seq<Seq<char>>
    decreases s.len() - i,
{
    if i < 0 || i >= s.len() {
        Seq::empty()
    } else {
        match find_from(s, seq!['\n'], i) {
            Some(k) => if i <= k < s.len() {
                seq![without_return(s.subrange(i, k))] + lines_from(s, k + 1)
            } else {
                Seq::empty()
            },
            None => seq![s.skip(i)],
        }
    }
}

/// The lines of `s`.
pub open spec fn lines(s: Seq<char>) -> Seq<Seq<char>> {
    lines_from(s, 0)
}

pub fn lines_of(s: &[char]) -> (r: Vec<Vec<char>>)
    ensures
        pieces(r@) == lines(s@),
{
    let mut newline: Vec<char> = Vec::new();
    newline.push('\n');
    assert(newline@ =~= seq!['\n']);
    let mut out: Vec<Vec<char>> = Vec::new();
    let mut start: usize = 0;
    while start < s.len()
        invariant
            start <= s@.len(),
            newline@ == seq!['\n'],
            pieces(out@) + lines_from(s@, start as int) =~= lines(s@),
        decreases s@.len() - start,
    {
        match find_chars(s, &newline, start) {
            Some(k) => {
                proof {
                    find_from_is_first(s@, newline@, start as int);
                }
                let end: usize = if k > start && s[k - 1] == '\r' {
                    k - 1
                } else {
                    k
                };
                let piece = cut(s, start, end);
                assert(piece@ =~= without_return(s@.subrange(start as int, k as int)));
                let ghost before = out@;
                out.push(piece);
                assert(pieces(out@) =~= pieces(before).push(piece@));
                start = k + 1;
            },
            None => {
                let piece = cut(s, start, s.len());
                let ghost before = out@;
                out.push(piece);
                assert(pieces(out@) =~= pieces(before).push(piece@));
                assert(s@.skip(start as int) =~= s@.subrange(start as int, s@.len() as int));
                return out;
            },
        }
    }
    out
}

// ---------------------------------------------------------------------------
// White space
// ---------------------------------------------------------------------------

/// The characters with the Unicode property `White_Space`.
pub open spec fn is_white(c: char) -> bool {
    ||| '\u{9}' <= c <= '\u{d}'
    ||| c == '\u{20}'
    ||| c == '\u{85}'
    ||| c == '\u{a0}'
    ||| c == '\u{1680}'
    ||| '\u{2000}' <= c <= '\u{200a}'
    ||| c == '\u{2028}'
    ||| c == '\u{2029}'
    ||| c == '\u{202f}'
    ||| c == '\u{205f}'
    ||| c == '\u{3000}'
}

pub fn is_white_char(c: char) -> (r: bool)
    ensures
        r == is_white(c),
{
    ('\u{9}' <= c && c <= '\u{d}') || c == '\u{20}' || c == '\u{85}' || c == '\u{a0}' || c
        == '\u{1680}' || ('\u{2000}' <= c && c <= '\u{200a}') || c == '\u{2028}' || c == '\u{2029}'
        || c == '\u{202f}' || c == '\u{205f}' || c == '\u{3000}'
}

/// The first position at or after `i` that holds no white space, or the end.
pub open spec fn skip_white(s: Seq<char>, i: int) -> int
    decreases s.len() - i,
{
    if 0 <= i < s.len() && is_white(s[i]) {
        skip_white(s, i + 1)
    } else {
        i
    }
}

/// The first position at or after `i` that holds white space, or the end.
pub open spec fn skip_word(s: Seq<char>, i: int) -> int
    decreases s.len() - i,
{
    if 0 <= i < s.len() && !is_white(s[i]) {
        skip_word(s, i + 1)
    } else {
        i
    }
}

/// `s` without its leading white space.
pub open spec fn trim_start(s: Seq<char>) -> Seq<char> {
    s.skip(skip_white(s, 0))
}

/// `s` without its trailing white space.
pub open spec fn trim_end(s: Seq<char>) -> Seq<char>
    decreases s.len(),
{
    if s.len() > 0 && is_white(s.last()) {
        trim_end(s.drop_last())
    } else {
        s
    }
}

/// `s` without white space at either end.
pub open spec fn trim(s: Seq<char>) -> Seq<char> {
    trim_end(trim_start(s))
}

fn skip_white_chars(s: &[char], from: usize) -> (r: usize)
    requires
        from <= s@.len(),
    ensures
        r == skip_white(s@, from as int),
        from <= r <= s@.len(),
{
    let mut i: usize = from;
    while i < s.len() && is_white_char(s[i])
        invariant
            from <= i <= s@.len(),
            skip_white(s@, from as int) == skip_white(s@, i as int),
        decreases s@.len() - i,
    {
        i = i + 1;
    }
    i
}

fn skip_word_chars(s: &[char], from: usize) -> (r: usize)
    requires
        from <= s@.len(),
    ensures
        r == skip_word(s@, from as int),
        from <= r <= s@.len(),
        from < s@.len() && !is_white(s@[from as int]) ==> from < r,
{
    let mut i: usize = from;
    while i < s.len() && !is_white_char(s[i])
        invariant
            from <= i <= s@.len(),
            skip_word(s@, from as int) == skip_word(s@, i as int),
        decreases s@.len() - i,
    {
        i = i + 1;
    }
    i
}

/// `s` without its trailing white space.
pub fn trim_end_chars(s: &[char]) -> (r: Vec<char>)
    ensures
        r@ == trim_end(s@),
{
    let mut n: usize = s.len();
    assert(s@.take(n as int) =~= s@);
    while n > 0 && is_white_char(s[n - 1])
        invariant
            n <= s@.len(),
            trim_end(s@) == trim_end(s@.take(n as int)),
        decreases n,
    {
        assert(s@.take(n as int).drop_last() =~= s@.take(n - 1));
        n = n - 1;
    }
    assert(s@.take(n as int) =~= s@.subrange(0, n as int));
    cut(s, 0, n)
}

/// `s` without white space at either end.
pub fn trim_chars(s: &[char]) -> (r: Vec<char>)
    ensures
        r@ == trim(s@),
{
    let a: usize = skip_white_chars(s, 0);
    let rest = cut(s, a, s.len());
    assert(rest@ =~= trim_start(s@));
    trim_end_chars(&rest)
}

/// The maximal runs without white space from position `i` on.
pub open spec fn words_from(s: Seq<char>, i: int) -> Seq<Seq<char>>
    decreases s.len() - i,
{
    let a = skip_white(s, i);
    let b = skip_word(s, a);
    if i <= a < b <= s.len() {
        seq![s.subrange(a, b)] + words_from(s, b)
    } else {
        Seq::empty()
    }
}

/// The maximal runs without white space.
pub open spec fn words(s: Seq<char>) -> Seq<Seq<char>> {
    words_from(s, 0)
}

/// The words of `s`.
pub fn words_of(s: &[char]) -> (r: Vec<Vec<char>>)
    ensures
        pieces(r@) == words(s@),
{
    let mut out: Vec<Vec<char>> = Vec::new();
    let mut i: usize = 0;
    loop
        invariant
            i <= s@.len(),
            pieces(out@) + words_from(s@, i as int) =~= words(s@),
        decreases s@.len() - i,
    {
        let a: usize = skip_white_chars(s, i);
        let b: usize = skip_word_chars(s, a);
        if a < b {
            let word = cut(s, a, b);
            let ghost before = out@;
            out.push(word);
            assert(pieces(out@) =~= pieces(before).push(word@));
            i = b;
        } else {
            return out;
        }
    }
}

// ---------------------------------------------------------------------------
// Decimal numbers
// ---------------------------------------------------------------------------

pub open spec fn is_digit(c: char) -> bool {
    '0' <= c <= '9'
}

pub open spec fn digit_value(c: char) -> int {
    c as int - '0' as int
}

pub open spec fn all_digits(s: Seq<char>) -> bool {
    forall|i: int| 0 <= i < s.len() ==> is_digit(#[trigger] s[i])
}

/// The number that a run of decimal digits denotes.
pub open spec fn number(s: Seq<char>) -> int
    decreases s.len(),
{
    if s.len() == 0 {
        0
    } else {
        number(s.drop_last()) * 10 + digit_value(s.last())
    }
}

/// The unsigned number, at most `max`, that `s` denotes: an optional `+` and
/// at least one digit.
pub open spec fn parse_unsigned(s: Seq<char>, max: int) -> Option<int> {
    let d = if s.len() > 0 && s[0] == '+' {
        s.skip(1)
    } else {
        s
    };
    if d.len() > 0 && all_digits(d) && number(d) <= max {
        Some(number(d))
    } else {
        None
    }
}

/// The signed 64-bit number that `s` denotes: an optional sign and at least
/// one digit.
pub open spec fn parse_signed(s: Seq<char>) -> Option<int> {
    let negative = s.len() > 0 && s[0] == '-';
    let d = if s.len() > 0 && (s[0] == '+' || s[0] == '-') {
        s.skip(1)
    } else {
        s
    };
    let v = if negative {
        -number(d)
    } else {
        number(d)
    };
    if d.len() > 0 && all_digits(d) && i64::MIN <= v <= i64::MAX {
        Some(v)
    } else {
        None
    }
}

/// The decimal digits of `n`.
pub open spec fn decimal(n: nat) -> Seq<char>
    decreases n,
{
    if n < 10 {
        seq![(('0' as int + n) as char)]
    } else {
        decimal(n / 10).push((('0' as int + n % 10) as char))
    }
}

/// The decimal form of a signed number.
pub open spec fn signed_decimal(n: int) -> Seq<char> {
    if n < 0 {
        seq!['-'] + decimal((-n) as nat)
    } else {
        decimal(n as nat)
    }
}

proof fn number_grows(s: Seq<char>, k: int)
    requires
        all_digits(s),
        0 <= k <= s.len(),
    ensures
        0 <= number(s.take(k)) <= number(s),
    decreases s.len(),
{
    if k == s.len() {
        assert(s.take(k) =~= s);
        if s.len() > 0 {
            assert(is_digit(s.last()));
            assert(all_digits(s.drop_last())) by {
                assert forall|i: int| 0 <= i < s.drop_last().len() implies is_digit(
                    #[trigger] s.drop_last()[i],
                ) by {
                    assert(is_digit(s[i]));
                }
            }
            number_grows(s.drop_last(), k - 1);
            assert(s.drop_last().take(k - 1) =~= s.drop_last());
        }
    } else {
        assert(all_digits(s.drop_last())) by {
            assert forall|i: int| 0 <= i < s.drop_last().len() implies is_digit(
                #[trigger] s.drop_last()[i],
            ) by {
                assert(is_digit(s[i]));
            }
        }
        assert(s.drop_last().take(k) =~= s.take(k));
        number_grows(s.drop_last(), k);
        assert(is_digit(s.last()));
    }
}

/// An unsigned number is not negative.
pub proof fn parse_is_natural(s: Seq<char>, max: int)
    ensures
        parse_unsigned(s, max) matches Some(n) ==> 0 <= n <= max,
{
    let d = if s.len() > 0 && s[0] == '+' {
        s.skip(1)
    } else {
        s
    };
    if all_digits(d) {
        number_grows(d, 0);
    }
}

/// The decimal form of a number is a run of digits that denotes it.
pub proof fn number_of_decimal(n: nat)
    ensures
        all_digits(decimal(n)),
        decimal(n).len() > 0,
        number(decimal(n)) == n,
    decreases n,
{
    if n < 10 {
        let s = decimal(n);
        assert(s.drop_last() =~= Seq::empty());
        assert(number(s.drop_last()) == 0);
    } else {
        number_of_decimal(n / 10);
        let s = decimal(n);
        let c = ('0' as int + n % 10) as char;
        assert(s.drop_last() =~= decimal(n / 10));
        assert(s.last() == c);
        assert forall|i: int| 0 <= i < s.len() implies is_digit(#[trigger] s[i]) by {
            if i < s.len() - 1 {
                assert(s[i] == decimal(n / 10)[i]);
            }
        }
    }
}

/// Reading back the decimal form of a number gives the number.
pub proof fn parse_of_decimal(n: nat, max: int)
    requires
        n <= max,
    ensures
        parse_unsigned(decimal(n), max) == Some(n as int),
{
    number_of_decimal(n);
    assert(is_digit(decimal(n)[0]));
}

/// Digits have no white space at either end.
pub proof fn digits_are_trimmed(s: Seq<char>)
    requires
        all_digits(s),
    ensures
        trim(s) == s,
{
    if s.len() > 0 {
        assert(is_digit(s[0]));
        assert(is_digit(s[s.len() - 1]));
    }
    assert(s.skip(0) =~= s);
}

/// The value of `s[from..]` as decimal digits, where it fits.
fn digits_from(s: &[char], from: usize) -> (r: Option<u64>)
    requires
        from <= s@.len(),
    ensures
        ({
            let d = s@.skip(from as int);
            match r {
                Some(v) => d.len() > 0 && all_digits(d) && number(d) == v,
                None => !(d.len() > 0 && all_digits(d) && number(d) <= u64::MAX),
            }
        }),
{
    let ghost d = s@.skip(from as int);
    if from == s.len() {
        return None;
    }
    let mut acc: u64 = 0;
    let mut i: usize = from;
    while i < s.len()
        invariant
            from <= i <= s@.len(),
            d == s@.skip(from as int),
            forall|k: int| 0 <= k < i - from ==> is_digit(#[trigger] d[k]),
            acc == number(d.take(i - from)),
        decreases s@.len() - i,
    {
        let c: char = s[i];
        if !('0' <= c && c <= '9') {
            assert(!is_digit(d[i - from]));
            return None;
        }
        let v: u64 = c as u64 - '0' as u64;
        let ghost k = i - from;
        assert(d.take(k + 1).drop_last() =~= d.take(k));
        assert(d.take(k + 1).last() == c);
        assert(number(d.take(k + 1)) == acc * 10 + v);
        if acc > (u64::MAX - v) / 10 {
            proof {
                if all_digits(d) {
                    number_grows(d, k + 1);
                }
            }
            return None;
        }
        acc = acc * 10 + v;
        i = i + 1;
    }
    assert(d.take(d.len() as int) =~= d);
    Some(acc)
}

/// Reads an unsigned number as `str::parse::<u64>` does.
pub fn parse_u64_chars(s: &[char]) -> (r: Option<u64>)
    ensures
        match r {
            Some(v) => parse_unsigned(s@, u64::MAX as int) == Some(v as int),
            None => parse_unsigned(s@, u64::MAX as int) is None,
        },
{
    if s.len() > 0 && s[0] == '+' {
        digits_from(s, 1)
    } else {
        assert(s@.skip(0) =~= s@);
        digits_from(s, 0)
    }
}

/// Reads an unsigned number of at most `max`.
pub fn parse_bounded_chars(s: &[char], max: u64) -> (r: Option<u64>)
    ensures
        match r {
            Some(v) => parse_unsigned(s@, max as int) == Some(v as int) && v <= max,
            None => parse_unsigned(s@, max as int) is None,
        },
{
    match parse_u64_chars(s) {
        Some(v) => if v <= max {
            Some(v)
        } else {
            None
        },
        None => None,
    }
}

/// Reads a signed number as `str::parse::<i64>` does.
pub fn parse_i64_chars(s: &[char]) -> (r: Option<i64>)
    ensures
        match r {
            Some(v) => parse_signed(s@) == Some(v as int),
            None => parse_signed(s@) is None,
        },
{
    let signed = s.len() > 0 && (s[0] == '+' || s[0] == '-');
    let negative = s.len() > 0 && s[0] == '-';
    assert(s@.skip(0) =~= s@);
    let from: usize = if signed {
        1
    } else {
        0
    };
    match digits_from(s, from) {
        Some(v) => {
            if negative {
                if v <= 0x7fff_ffff_ffff_ffff {
                    Some(-(v as i64))
                } else if v == 0x8000_0000_0000_0000 {
                    Some(i64::MIN)
                } else {
                    None
                }
            } else if v <= 0x7fff_ffff_ffff_ffff {
                Some(v as i64)
            } else {
                None
            }
        },
        None => None,
    }
}

/// The decimal digits of `n`.
pub fn decimal_chars(n: u64) -> (r: Vec<char>)
    ensures
        r@ == decimal(n as nat),
    decreases n,
{
    let d: u8 = (n % 10) as u8;
    let c: char = ('0' as u8 + d) as char;
    if n < 10 {
        let mut v: Vec<char> = Vec::new();
        v.push(c);
        assert(v@ =~= decimal(n as nat));
        v
    } else {
        let mut v = decimal_chars(n / 10);
        v.push(c);
        v
    }
}

/// The decimal form of a signed number.
pub fn signed_decimal_chars(n: i64) -> (r: Vec<char>)
    ensures
        r@ == signed_decimal(n as int),
{
    if n < 0 {
        let m: u64 = if n == i64::MIN {
            0x8000_0000_0000_0000
        } else {
            (-n) as u64
        };
        let mut v: Vec<char> = Vec::new();
        v.push('-');
        let d = decimal_chars(m);
        extend_chars(&mut v, &d);
        assert(v@ =~= signed_decimal(n as int));
        v
    } else {
        decimal_chars(n as u64)
    }
}

/// `n` blanks.
pub open spec fn blanks(n: int) -> Seq<char> {
    Seq::new(
        if n > 0 {
            n as nat
        } else {
            0
        },
        |i: int| ' ',
    )
}

/// `s` with blanks before it, up to that width.
pub open spec fn pad_left(s: Seq<char>, width: int) -> Seq<char> {
    blanks(width - s.len()) + s
}

/// `s` with blanks before it, up to that width.
pub fn pad_left_chars(s: &[char], width: usize) -> (r: Vec<char>)
    ensures
        r@ == pad_left(s@, width as int),
{
    let mut out: Vec<char> = Vec::new();
    if s.len() < width {
        let n: usize = width - s.len();
        let mut i: usize = 0;
        while i < n
            invariant
                i <= n,
                out@ == blanks(i as int),
            decreases n - i,
        {
            out.push(' ');
            i = i + 1;
            assert(out@ =~= blanks(i as int));
        }
    } else {
        assert(out@ =~= blanks(width - s@.len()));
    }
    extend_chars(&mut out, s);
    out
}

// ---------------------------------------------------------------------------
// Hexadecimal numbers
// ---------------------------------------------------------------------------

/// One hexadecimal digit; letters are upper case where `upper` says so.
pub open spec fn hex_digit(n: int, upper: bool) -> char {
    if n < 10 {
        ('0' as int + n) as char
    } else if upper {
        ('A' as int + n - 10) as char
    } else {
        ('a' as int + n - 10) as char
    }
}

/// The last `width` hexadecimal digits of `n`.
pub open spec fn hex(n: int, width: nat, upper: bool) -> Seq<char>
    decreases width,
{
    if width == 0 {
        Seq::empty()
    } else {
        hex(n / 16, (width - 1) as nat, upper).push(hex_digit(n % 16, upper))
    }
}

fn hex_digit_char(n: u8, upper: bool) -> (c: char)
    requires
        n < 16,
    ensures
        c == hex_digit(n as int, upper),
{
    if n < 10 {
        ('0' as u8 + n) as char
    } else if upper {
        ('A' as u8 + (n - 10)) as char
    } else {
        ('a' as u8 + (n - 10)) as char
    }
}

/// The last `width` hexadecimal digits of `n`.
pub fn hex_chars(n: u64, width: usize, upper: bool) -> (r: Vec<char>)
    ensures
        r@ == hex(n as int, width as nat, upper),
    decreases width,
{
    if width == 0 {
        Vec::new()
    } else {
        let mut v = hex_chars(n / 16, width - 1, upper);
        v.push(hex_digit_char((n % 16) as u8, upper));
        v
    }
}

// ---------------------------------------------------------------------------
// Letters
// ---------------------------------------------------------------------------

/// `c` with an ASCII upper-case letter made lower case.
pub open spec fn ascii_lower(c: char) -> char {
    if 'A' <= c <= 'Z' {
        (c as int + 32) as char
    } else {
        c
    }
}

/// `s` with its ASCII letters made lower case.
pub open spec fn lowered(s: Seq<char>) -> Seq<char> {
    Seq::new(s.len(), |i: int| ascii_lower(s[i]))
}

/// `s` with its ASCII letters made lower case.
pub fn lower_ascii(s: &str) -> (r: Vec<char>)
    ensures
        r@ == lowered(s@),
{
    let chars = chars_of(s);
    let mut out: Vec<char> = Vec::new();
    let mut i: usize = 0;
    while i < chars.len()
        invariant
            i <= chars@.len(),
            out@.len() == i,
            forall|k: int| 0 <= k < i ==> #[trigger] out@[k] == ascii_lower(chars@[k]),
        decreases chars@.len() - i,
    {
        let c: char = chars[i];
        if 'A' <= c && c <= 'Z' {
            out.push((c as u8 + 32) as char);
        } else {
            out.push(c);
        }
        i = i + 1;
    }
    assert(out@ =~= lowered(s@));
    out
}

// ---------------------------------------------------------------------------
// Order
// ---------------------------------------------------------------------------

/// `a` comes before `b` in a dictionary, from position `i` on.
pub open spec fn earlier_from(a: Seq<char>, b: Seq<char>, i: int) -> bool
    decreases b.len() - i,
{
    if i < 0 || i >= b.len() {
        false
    } else if i >= a.len() {
        true
    } else if a[i] != b[i] {
        (a[i] as int) < b[i] as int
    } else {
        earlier_from(a, b, i + 1)
    }
}

/// `a` comes before `b` in the order of strings.
pub open spec fn earlier(a: Seq<char>, b: Seq<char>) -> bool {
    earlier_from(a, b, 0)
}

pub fn earlier_chars(a: &[char], b: &[char]) -> (r: bool)
    ensures
        r == earlier(a@, b@),
{
    let mut i: usize = 0;
    while i < b.len()
        invariant
            i <= b@.len(),
            i <= a@.len(),
            earlier(a@, b@) == earlier_from(a@, b@, i as int),
        decreases b@.len() - i,
    {
        if i >= a.len() {
            return true;
        }
        if a[i] != b[i] {
            return a[i] < b[i];
        }
        i = i + 1;
    }
    false
}

// ---------------------------------------------------------------------------
// Laws
// ---------------------------------------------------------------------------

/// All of it is white space.
pub open spec fn all_white(s: Seq<char>) -> bool {
    forall|i: int| 0 <= i < s.len() ==> is_white(#[trigger] s[i])
}

/// No white space stands at either end.
pub open spec fn is_trimmed(s: Seq<char>) -> bool {
    s.len() > 0 ==> !is_white(s[0]) && !is_white(s.last())
}

proof fn skip_white_skips(s: Seq<char>, i: int)
    requires
        0 <= i <= s.len(),
    ensures
        i <= skip_white(s, i) <= s.len(),
        forall|k: int| i <= k < skip_white(s, i) ==> is_white(#[trigger] s[k]),
        skip_white(s, i) < s.len() ==> !is_white(s[skip_white(s, i)]),
    decreases s.len() - i,
{
    if i < s.len() && is_white(s[i]) {
        skip_white_skips(s, i + 1);
    }
}

proof fn trim_end_trims(s: Seq<char>)
    ensures
        trim_end(s).len() <= s.len(),
        trim_end(s) == s.take(trim_end(s).len() as int),
        all_white(s.skip(trim_end(s).len() as int)),
        trim_end(s).len() > 0 ==> !is_white(trim_end(s).last()),
    decreases s.len(),
{
    if s.len() > 0 && is_white(s.last()) {
        let f = s.drop_last();
        trim_end_trims(f);
        let n = trim_end(f).len() as int;
        assert(s.take(n) =~= f.take(n));
        assert forall|i: int| 0 <= i < s.skip(n).len() implies is_white(
            #[trigger] s.skip(n)[i],
        ) by {
            if i < f.skip(n).len() {
                assert(is_white(f.skip(n)[i]));
            }
        }
    } else {
        assert(s.take(s.len() as int) =~= s);
    }
}

/// Trimming takes white space away from the two ends and nothing else.
pub proof fn trimming_takes_only_white_space(s: Seq<char>)
    ensures
        is_trimmed(trim(s)),
        exists|a: Seq<char>, b: Seq<char>|
            all_white(a) && all_white(b) && s == #[trigger] (a + trim(s) + b),
        is_trimmed(s) ==> trim(s) == s,
        trim(trim(s)) == trim(s),
{
    let k = skip_white(s, 0);
    skip_white_skips(s, 0);
    let r = trim_start(s);
    trim_end_trims(r);
    let t = trim(s);
    let n = t.len() as int;
    let a = s.take(k);
    let b = r.skip(n);
    assert(all_white(a)) by {
        assert forall|i: int| 0 <= i < a.len() implies is_white(#[trigger] a[i]) by {
            assert(is_white(s[i]));
        }
    }
    assert(s =~= a + t + b);
    if n > 0 {
        assert(t[0] == s[k]);
    }
    trimmed_stays(t);
    if is_trimmed(s) {
        trimmed_stays(s);
    }
}

proof fn trimmed_stays(s: Seq<char>)
    requires
        is_trimmed(s),
    ensures
        trim(s) == s,
{
    skip_white_skips(s, 0);
    if s.len() > 0 && skip_white(s, 0) > 0 {
        assert(is_white(s[0]));
    }
    assert(s.skip(0) =~= s);
}

/// Reading back the decimal form of a signed number gives the number.
pub proof fn parse_of_signed_decimal(n: int)
    requires
        i64::MIN <= n <= i64::MAX,
    ensures
        parse_signed(signed_decimal(n)) == Some(n),
        is_trimmed(signed_decimal(n)),
        signed_decimal(n).len() > 0,
{
    let m = if n < 0 {
        (-n) as nat
    } else {
        n as nat
    };
    number_of_decimal(m);
    let d = decimal(m);
    assert(is_digit(d[0]));
    assert(is_digit(d[d.len() - 1]));
    if n < 0 {
        assert(signed_decimal(n).skip(1) =~= d);
    }
}

proof fn lines_after(a: Seq<char>, s: Seq<char>, i: int)
    requires
        0 <= i <= s.len(),
    ensures
        lines_from(a + s, a.len() + i) == lines_from(s, i),
    decreases s.len() - i,
{
    let t = a + s;
    let nl = seq!['\n'];
    let n = a.len() as int;
    if i < s.len() {
        find_from_is_first(s, nl, i);
        find_from_is_first(t, nl, n + i);
        match find_from(s, nl, i) {
            Some(k) => {
                assert(t.subrange(n + k, n + k + 1) =~= s.subrange(k, k + 1));
                assert forall|j: int| n + i <= j < n + k implies !occurs_at(t, nl, j) by {
                    if occurs_at(t, nl, j) {
                        assert(t.subrange(j, j + 1) =~= s.subrange(j - n, j - n + 1));
                        assert(occurs_at(s, nl, j - n));
                    }
                }
                first_is_find_from(t, nl, n + i, n + k);
                assert(t.subrange(n + i, n + k) =~= s.subrange(i, k));
                lines_after(a, s, k + 1);
            },
            None => {
                if find_from(t, nl, n + i) is Some {
                    let j = find_from(t, nl, n + i)->0;
                    assert(t.subrange(j, j + 1) =~= s.subrange(j - n, j - n + 1));
                    assert(occurs_at(s, nl, j - n));
                }
                assert(t.skip(n + i) =~= s.skip(i));
            },
        }
    }
}

/// A line ends where a line feed stands: what stands before it is the first
/// line, without a carriage return at its end, and what follows is read on.
pub proof fn a_line_ends_at_a_line_feed(first: Seq<char>, rest: Seq<char>)
    requires
        !first.contains('\n'),
    ensures
        lines(first + seq!['\n'] + rest) == seq![without_return(first)] + lines(rest),
        first.len() > 0 ==> lines(first) == seq![first],
        lines(Seq::empty()).len() == 0,
{
    let nl = seq!['\n'];
    let s = first + nl + rest;
    let k = first.len() as int;
    assert(s.subrange(k, k + 1) =~= nl);
    assert forall|j: int| 0 <= j < k implies !occurs_at(s, nl, j) by {
        if occurs_at(s, nl, j) {
            assert(s.subrange(j, j + 1)[0] == '\n');
            assert(first[j] == '\n');
        }
    }
    first_is_find_from(s, nl, 0, k);
    assert(s.subrange(0, k) =~= first);
    lines_after(first + nl, rest, 0);
    find_from_is_first(first, nl, 0);
    if find_from(first, nl, 0) is Some {
        let j = find_from(first, nl, 0)->0;
        assert(first.subrange(j, j + 1)[0] == '\n');
        assert(first[j] == '\n');
    }
    assert(first.skip(0) =~= first);
}

proof fn skip_word_skips(s: Seq<char>, i: int)
    requires
        0 <= i <= s.len(),
    ensures
        i <= skip_word(s, i) <= s.len(),
        forall|k: int| i <= k < skip_word(s, i) ==> !is_white(#[trigger] s[k]),
        skip_word(s, i) < s.len() ==> is_white(s[skip_word(s, i)]),
    decreases s.len() - i,
{
    if i < s.len() && !is_white(s[i]) {
        skip_word_skips(s, i + 1);
    }
}

proof fn skips_after(a: Seq<char>, s: Seq<char>, i: int)
    requires
        0 <= i <= s.len(),
    ensures
        skip_white(a + s, a.len() + i) == a.len() + skip_white(s, i),
        skip_word(a + s, a.len() + i) == a.len() + skip_word(s, i),
    decreases s.len() - i,
{
    if i < s.len() {
        skips_after(a, s, i + 1);
        assert((a + s)[a.len() + i] == s[i]);
    }
}

proof fn words_after(a: Seq<char>, s: Seq<char>, i: int)
    requires
        0 <= i <= s.len(),
    ensures
        words_from(a + s, a.len() + i) == words_from(s, i),
    decreases s.len() - i,
{
    let n = a.len() as int;
    let x = skip_white(s, i);
    skip_white_skips(s, i);
    skips_after(a, s, i);
    skip_word_skips(s, x);
    skips_after(a, s, x);
    let y = skip_word(s, x);
    if i <= x < y <= s.len() {
        assert((a + s).subrange(n + x, n + y) =~= s.subrange(x, y));
        words_after(a, s, y);
    }
}

/// White space ends a word: a word that is followed by white space is the first
/// one, and the rest is read on; leading white space does not count.
pub proof fn a_word_ends_at_white_space(word: Seq<char>, gap: char, rest: Seq<char>)
    requires
        word.len() > 0,
        forall|i: int| 0 <= i < word.len() ==> !is_white(#[trigger] word[i]),
        is_white(gap),
    ensures
        words(word + seq![gap] + rest) == seq![word] + words(rest),
        words(word) == seq![word],
        words(seq![gap] + rest) == words(rest),
        words(Seq::empty()).len() == 0,
{
    let s = word + seq![gap] + rest;
    let n = word.len() as int;
    skip_word_skips(s, 0);
    assert(s[n] == gap);
    if skip_word(s, 0) > n {
        assert(is_white(s[n]));
    }
    if skip_word(s, 0) < n {
        assert(s[skip_word(s, 0)] == word[skip_word(s, 0)]);
    }
    assert(skip_word(s, 0) == n);
    assert(s[0] == word[0]);
    assert(skip_white(s, 0) == 0);
    assert(s.subrange(0, n) =~= word);
    let tail = seq![gap] + rest;
    assert(s =~= word + tail);
    words_after(word, tail, 0);
    assert(words_from(s, n) == words_from(tail, 0));
    // A blank in front is skipped.
    assert(tail[0] == gap);
    words_after(seq![gap], rest, 0);
    assert(skip_white(tail, 0) == skip_white(tail, 1));
    assert(words_from(tail, 0) == words_from(tail, 1)) by {
        skip_white_skips(tail, 1);
        skip_word_skips(tail, skip_white(tail, 1));
    }
    skip_word_skips(word, 0);
    if skip_word(word, 0) < n {
        assert(is_white(word[skip_word(word, 0)]));
    }
    assert(word[0] == word[0]);
    assert(skip_white(word, 0) == 0);
    assert(word.subrange(0, n) =~= word);
    assert(words_from(word, n).len() == 0);
    assert(seq![word] + Seq::<Seq<char>>::empty() =~= seq![word]);
    assert(words_from(word, n) =~= Seq::empty());
}

/// The value of one hexadecimal digit.
pub open spec fn hex_value(c: char) -> int {
    if '0' <= c <= '9' {
        c as int - '0' as int
    } else if 'A' <= c <= 'F' {
        c as int - 'A' as int + 10
    } else {
        c as int - 'a' as int + 10
    }
}

/// The number that hexadecimal digits denote.
pub open spec fn hex_number(s: Seq<char>) -> int
    decreases s.len(),
{
    if s.len() == 0 {
        0
    } else {
        hex_number(s.drop_last()) * 16 + hex_value(s.last())
    }
}

/// The hexadecimal form of a number that fits in its width denotes the number,
/// in so many digits.
pub proof fn hexadecimal_reads_back(n: int, width: nat, upper: bool, limit: int)
    requires
        0 <= n < limit,
        limit == sixteens(width),
    ensures
        hex(n, width, upper).len() == width,
        hex_number(hex(n, width, upper)) == n,
    decreases width,
{
    if width > 0 {
        let w = (width - 1) as nat;
        let s = hex(n, width, upper);
        assert(n / 16 < sixteens(w)) by (nonlinear_arith)
            requires
                0 <= n < 16 * sixteens(w),
        ;
        hexadecimal_reads_back(n / 16, w, upper, sixteens(w));
        assert(s.drop_last() =~= hex(n / 16, w, upper));
        assert(hex_value(hex_digit(n % 16, upper)) == n % 16);
    }
}

/// How many numbers have so many hexadecimal digits.
pub open spec fn sixteens(width: nat) -> int
    decreases width,
{
    if width == 0 {
        1
    } else {
        16 * sixteens((width - 1) as nat)
    }
}

/// The order of texts is that of a dictionary: of two different texts one comes
/// first, and a text comes before every longer one that it begins.
pub proof fn the_order_of_texts_is_total(a: Seq<char>, b: Seq<char>, i: int)
    requires
        0 <= i <= a.len(),
        i <= b.len(),
        forall|k: int| 0 <= k < i ==> a[k] == #[trigger] b[k],
    ensures
        a != b ==> (earlier_from(a, b, i) <==> !earlier_from(b, a, i)),
        a == b ==> !earlier_from(a, b, i),
        a.len() < b.len() && a == b.take(a.len() as int) ==> earlier_from(a, b, i),
    decreases b.len() - i,
{
    if i < a.len() && i < b.len() && a[i] == b[i] {
        the_order_of_texts_is_total(a, b, i + 1);
    } else if i == a.len() && i == b.len() {
        assert(a =~= b);
    } else if i < a.len() && i < b.len() {
        assert(a[i] != b[i]);
        if a.len() < b.len() && a == b.take(a.len() as int) {
            assert(a[i] == b.take(a.len() as int)[i]);
        }
    }
}

/// What follows a text of `a.len()` items is searched as it would be alone.
proof fn finding_behind<T>(a: Seq<T>, s: Seq<T>, p: Seq<T>, i: int)
    requires
        0 <= i,
    ensures
        find_from(a + s, p, a.len() + i) == match find_from(s, p, i) {
            Some(k) => Some(a.len() + k),
            None => None::<int>,
        },
    decreases s.len() - i + 1,
{
    if i + p.len() <= s.len() {
        assert((a + s).subrange(a.len() + i, a.len() + i + p.len()) == s.subrange(
            i,
            i + p.len(),
        ));
        if !occurs_at(s, p, i) {
            finding_behind(a, s, p, i + 1);
        }
    }
}

/// What follows a text of `a.len()` items is split as it would be alone.
proof fn splitting_behind<T>(a: Seq<T>, s: Seq<T>, sep: Seq<T>, i: int)
    requires
        0 <= i <= s.len(),
        sep.len() > 0,
    ensures
        split_from(a + s, sep, a.len() + i) == split_from(s, sep, i),
    decreases s.len() - i,
{
    finding_behind(a, s, sep, i);
    find_from_is_first(s, sep, i);
    match find_from(s, sep, i) {
        Some(k) => {
            splitting_behind(a, s, sep, k + sep.len());
            assert((a + s).subrange(a.len() + i, a.len() + k) == s.subrange(i, k));
        },
        None => {
            assert((a + s).skip(a.len() + i) == s.skip(i));
        },
    }
}

/// What follows a text of `a.len()` items is rewritten as it would be alone.
proof fn replacing_behind<T>(a: Seq<T>, s: Seq<T>, from: Seq<T>, to: Seq<T>, i: int)
    requires
        0 <= i <= s.len(),
        from.len() > 0,
    ensures
        replace_from(a + s, from, to, a.len() + i) == replace_from(s, from, to, i),
    decreases s.len() - i,
{
    finding_behind(a, s, from, i);
    find_from_is_first(s, from, i);
    match find_from(s, from, i) {
        Some(k) => {
            replacing_behind(a, s, from, to, k + from.len());
            assert((a + s).subrange(a.len() + i, a.len() + k) == s.subrange(i, k));
        },
        None => {
            assert((a + s).skip(a.len() + i) == s.skip(i));
        },
    }
}

/// A text holds another one where, and only where, it stands somewhere in it.
/// The first place is found from the front and the last one from the back.
pub proof fn what_is_found_stands_there<T>(s: Seq<T>, p: Seq<T>)
    ensures
        contains(s, p) <==> exists|a: Seq<T>, b: Seq<T>| s == #[trigger] (a + p + b),
        find(s, p) matches Some(i) ==> s == s.take(i) + p + s.skip(i + p.len()) && forall|
            a: Seq<T>,
            b: Seq<T>,
        |
            s == #[trigger] (a + p + b) ==> i <= a.len(),
        rfind(s, p) matches Some(i) ==> s == s.take(i) + p + s.skip(i + p.len()) && forall|
            a: Seq<T>,
            b: Seq<T>,
        |
            s == #[trigger] (a + p + b) ==> a.len() <= i,
        contains(s, p) <==> rfind(s, p) is Some,
{
    find_from_is_first(s, p, 0);
    rfind_from_is_last(s, p, s.len() - p.len());
    assert forall|a: Seq<T>, b: Seq<T>| s == #[trigger] (a + p + b) implies occurs_at(
        s,
        p,
        a.len() as int,
    ) by {
        assert((a + p + b).subrange(a.len() as int, (a.len() + p.len()) as int) == p);
    }
    if find(s, p) is Some {
        let i = find(s, p)->0;
        assert(s == s.take(i) + s.subrange(i, i + p.len()) + s.skip(i + p.len()));
    }
    if rfind(s, p) is Some {
        let i = rfind(s, p)->0;
        assert(s == s.take(i) + s.subrange(i, i + p.len()) + s.skip(i + p.len()));
        assert(occurs_at(s, p, i));
    }
}

/// A piece ends where the separator first stands, and what follows is split on
/// its own. A text without the separator is one piece.
pub proof fn a_piece_ends_at_a_separator<T>(first: Seq<T>, sep: Seq<T>, rest: Seq<T>)
    requires
        sep.len() > 0,
    ensures
        find(first + sep + rest, sep) == Some(first.len() as int) ==> split(
            first + sep + rest,
            sep,
        ) == seq![first] + split(rest, sep),
        !contains(first, sep) ==> split(first, sep) == seq![first],
{
    splitting_behind(first + sep, rest, sep, 0);
    assert((first + sep + rest).subrange(0, first.len() as int) == first);
    assert(first.skip(0) == first);
}

/// What is replaced is the first place where it stands; what follows is
/// rewritten on its own.
pub proof fn each_place_is_replaced<T>(first: Seq<T>, from: Seq<T>, to: Seq<T>, rest: Seq<T>)
    requires
        from.len() > 0,
        find(first + from + rest, from) == Some(first.len() as int),
    ensures
        replace(first + from + rest, from, to) == first + to + replace(rest, from, to),
{
    replacing_behind(first + from, rest, from, to, 0);
    assert((first + from + rest).subrange(0, first.len() as int) == first);
}

/// A word: it holds something, and no white space.
pub open spec fn is_word(s: Seq<char>) -> bool {
    s.len() > 0 && forall|i: int| 0 <= i < s.len() ==> !is_white(#[trigger] s[i])
}

/// The parts behind the first one, joined.
proof fn join_begins_with_the_first(parts: Seq<Seq<char>>, sep: Seq<char>)
    requires
        parts.len() > 1,
    ensures
        join(parts, sep) == parts[0] + sep + join(parts.skip(1), sep),
    decreases parts.len(),
{
    let l = parts.drop_last();
    let r = parts.skip(1);
    assert(r.last() == parts.last());
    if parts.len() > 2 {
        join_begins_with_the_first(l, sep);
        assert(l.skip(1) == r.drop_last());
        assert(join(r, sep) == join(r.drop_last(), sep) + sep + r.last());
        assert(join(parts, sep) == join(l, sep) + sep + parts.last());
        assert(join(l, sep) == parts[0] + sep + join(l.skip(1), sep));
    } else {
        assert(l[0] == parts[0]);
        assert(r[0] == parts[1]);
        assert(join(l, sep) == parts[0]);
        assert(join(r, sep) == parts[1]);
    }
}

/// Words that were joined by a blank are the words of the text.
pub proof fn joined_words_are_read_back(parts: Seq<Seq<char>>)
    requires
        forall|i: int| 0 <= i < parts.len() ==> is_word(#[trigger] parts[i]),
    ensures
        words(join(parts, " "@)) == parts,
    decreases parts.len(),
{
    reveal_strlit(" ");
    assert(" "@ == seq![' ']);
    if parts.len() == 0 {
        a_word_ends_at_white_space(seq!['a'], ' ', Seq::empty());
        assert(words(join(parts, " "@)) == parts);
    } else if parts.len() == 1 {
        a_word_ends_at_white_space(parts[0], ' ', Seq::empty());
        assert(parts == seq![parts[0]]);
    } else {
        let r = parts.skip(1);
        assert forall|i: int| 0 <= i < r.len() implies is_word(#[trigger] r[i]) by {
            assert(r[i] == parts[i + 1]);
        }
        joined_words_are_read_back(r);
        join_begins_with_the_first(parts, " "@);
        a_word_ends_at_white_space(parts[0], ' ', join(r, " "@));
        assert(parts == seq![parts[0]] + r);
    }
}

/// Texts that differ in the case of ASCII letters alone are lowered to one.
/// Lowering keeps the length, and lowers nothing twice.
pub proof fn lowering_forgets_the_case(s: Seq<char>)
    ensures
        lowered(s).len() == s.len(),
        lowered(lowered(s)) == lowered(s),
        forall|i: int| 0 <= i < s.len() && !('A' <= #[trigger] s[i] <= 'Z') ==> lowered(s)[i]
            == s[i],
        forall|i: int|
            0 <= i < s.len() && 'A' <= #[trigger] s[i] <= 'Z' ==> lowered(s)[i] as int - 'a' as int
                == s[i] as int - 'A' as int,
{
}

/// A padded text ends with the text, has blanks before it, and is as wide as
/// asked for, or as wide as the text where that is wider.
pub proof fn padding_reaches_the_width(s: Seq<char>, width: int)
    ensures
        pad_left(s, width).len() == if s.len() < width {
            width
        } else {
            s.len() as int
        },
        ends_with(pad_left(s, width), s),
        forall|i: int|
            0 <= i < pad_left(s, width).len() - s.len() ==> #[trigger] pad_left(s, width)[i] == ' ',
{
    let p = pad_left(s, width);
    assert(p.subrange(p.len() - s.len(), p.len() as int) == s);
}

/// Different numbers are written differently.
pub proof fn numbers_are_told_apart(m: nat, n: nat)
    ensures
        decimal(m) == decimal(n) ==> m == n,
{
    number_of_decimal(m);
    number_of_decimal(n);
}

proof fn earlier_texts_chain(a: Seq<char>, b: Seq<char>, c: Seq<char>, i: int)
    requires
        0 <= i,
        earlier_from(a, b, i),
        earlier_from(b, c, i),
    ensures
        earlier_from(a, c, i),
    decreases b.len() - i,
{
    if i < a.len() && i < b.len() && i < c.len() && a[i] == b[i] && b[i] == c[i] {
        earlier_texts_chain(a, b, c, i + 1);
    }
}

/// What comes before a text comes before all that come after it.
pub proof fn the_order_of_texts_is_transitive(a: Seq<char>, b: Seq<char>, c: Seq<char>)
    requires
        earlier(a, b),
        earlier(b, c),
    ensures
        earlier(a, c),
{
    earlier_texts_chain(a, b, c, 0);
}

} // verus!
