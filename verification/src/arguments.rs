//! The arguments of commands, and names as they are shown and searched for.

use vstd::prelude::*;

use crate::text;
use crate::text::{chars_of, cut, extend_str, parse_bounded_chars, string_of};

verus! {

/// The number that an argument is, where it is one.
pub open spec fn number_of(arg: Seq<char>) -> Option<int> {
    text::parse_unsigned(arg, usize::MAX as int)
}

fn read_number(arg: &str) -> (r: Option<usize>)
    ensures
        match r {
            Some(n) => number_of(arg@) == Some(n as int),
            None => number_of(arg@) is None,
        },
{
    match parse_bounded_chars(&chars_of(arg), usize::MAX as u64) {
        Some(n) => Some(n as usize),
        None => None,
    }
}

/// The number at a position, or else `usual`.
pub fn number_at(args: &[String], position: usize, usual: usize) -> (r: usize)
    ensures
        r == if position < args@.len() && number_of(args@[position as int]@) is Some {
            number_of(args@[position as int]@)->0
        } else {
            usual as int
        },
{
    if position < args.len() {
        match read_number(args[position].as_str()) {
            Some(n) => n,
            None => usual,
        }
    } else {
        usual
    }
}

/// How many rows to show: the first argument, or else ten.
pub fn parse_count(args: &[String]) -> (r: usize)
    ensures
        r == if args@.len() > 0 && number_of(args@[0]@) is Some {
            number_of(args@[0]@)->0
        } else {
            10
        },
{
    number_at(args, 0, 10)
}

/// The pattern to search for: the first argument that is not the number of
/// rows.
pub open spec fn pattern_of(args: Seq<Seq<char>>) -> Option<Seq<char>> {
    if args.len() == 0 {
        None
    } else if number_of(args[0]) is None {
        Some(args[0])
    } else if args.len() > 1 {
        Some(args[1])
    } else {
        None
    }
}

pub fn parse_pattern(args: &[String]) -> (r: Option<String>)
    ensures
        text::opt_text(r) == pattern_of(text::texts(args@)),
{
    if args.len() == 0 {
        return None;
    }
    assert(text::texts(args@)[0] == args@[0]@);
    if read_number(args[0].as_str()).is_none() {
        return Some(args[0].clone());
    }
    if args.len() > 1 {
        assert(text::texts(args@)[1] == args@[1]@);
        Some(args[1].clone())
    } else {
        None
    }
}

/// A text of at most `max` characters: a longer one ends in three dots.
pub open spec fn truncated(s: Seq<char>, max: int) -> Seq<char> {
    if s.len() <= max {
        s
    } else {
        s.take(max - 3) + "..."@
    }
}

pub fn trunc(s: &str, max: usize) -> (r: String)
    requires
        max >= 3 || s@.len() <= max,
    ensures
        r@ == truncated(s@, max as int),
{
    let v = chars_of(s);
    if v.len() <= max {
        return string_of(&v);
    }
    let mut out = cut(&v, 0, max - 3);
    assert(out@ =~= s@.take(max - 3));
    extend_str(&mut out, "...");
    string_of(&out)
}

/// What is shown is never longer than asked for, and what fits is shown as it
/// is.
pub proof fn truncated_fits(s: Seq<char>, max: int)
    requires
        max >= 3,
    ensures
        truncated(s, max).len() <= max,
        s.len() <= max ==> truncated(s, max) == s,
{
    reveal_strlit("...");
}

/// A character that means something in a regular expression.
pub open spec fn is_meta(c: char) -> bool {
    c == '\\' || c == '^' || c == '$' || c == '.' || c == '|' || c == '?' || c == '*' || c == '+'
        || c == '(' || c == ')' || c == '[' || c == ']' || c == '{' || c == '}'
}

/// A text as a regular expression that matches it.
pub open spec fn escaped(s: Seq<char>) -> Seq<char>
    decreases s.len(),
{
    if s.len() == 0 {
        s
    } else if is_meta(s.last()) {
        escaped(s.drop_last()).push('\\').push(s.last())
    } else {
        escaped(s.drop_last()).push(s.last())
    }
}

/// A text as a regular expression that matches it.
pub fn escape_regex(s: &str) -> (r: String)
    ensures
        r@ == escaped(s@),
{
    let v = chars_of(s);
    let mut out: Vec<char> = Vec::new();
    let mut i: usize = 0;
    while i < v.len()
        invariant
            i <= v@.len(),
            out@ == escaped(v@.take(i as int)),
        decreases v@.len() - i,
    {
        assert(v@.take(i + 1).drop_last() =~= v@.take(i as int));
        let c = v[i];
        if c == '\\' || c == '^' || c == '$' || c == '.' || c == '|' || c == '?' || c == '*' || c
            == '+' || c == '(' || c == ')' || c == '[' || c == ']' || c == '{' || c == '}' {
            out.push('\\');
        }
        out.push(c);
        i = i + 1;
    }
    assert(v@.take(i as int) =~= v@);
    string_of(&out)
}

/// The text that a regular expression without operators matches: a backslash
/// takes the meaning from the character after it.
pub open spec fn matched(t: Seq<char>) -> Option<Seq<char>>
    decreases t.len(),
{
    if t.len() == 0 {
        Some(t)
    } else if t[0] == '\\' {
        if t.len() < 2 {
            None
        } else {
            match matched(t.skip(2)) {
                Some(s) => Some(seq![t[1]] + s),
                None => None,
            }
        }
    } else if is_meta(t[0]) {
        None
    } else {
        match matched(t.skip(1)) {
            Some(s) => Some(seq![t[0]] + s),
            None => None,
        }
    }
}

proof fn escaped_from_front(s: Seq<char>)
    requires
        s.len() > 0,
    ensures
        escaped(s) == (if is_meta(s[0]) {
            seq!['\\', s[0]]
        } else {
            seq![s[0]]
        }) + escaped(s.skip(1)),
    decreases s.len(),
{
    let head = if is_meta(s[0]) {
        seq!['\\', s[0]]
    } else {
        seq![s[0]]
    };
    if s.len() == 1 {
        assert(s.last() == s[0]);
        assert(escaped(s.drop_last()) == s.drop_last());
        assert(escaped(s.skip(1)) == s.skip(1));
        assert(escaped(s) =~= head + escaped(s.skip(1)));
    } else {
        escaped_from_front(s.drop_last());
        assert(s.drop_last().skip(1) =~= s.skip(1).drop_last());
        assert(s.skip(1).last() == s.last());
        assert(escaped(s) =~= head + escaped(s.skip(1)));
    }
}

/// Whatever a name holds, its escaped form matches that name and no other.
pub proof fn escaped_matches_itself(s: Seq<char>)
    ensures
        matched(escaped(s)) == Some(s),
    decreases s.len(),
{
    let t = escaped(s);
    if s.len() > 0 {
        escaped_from_front(s);
        escaped_matches_itself(s.skip(1));
        assert(seq![s[0]] + s.skip(1) =~= s);
        if is_meta(s[0]) {
            assert(t.skip(2) =~= escaped(s.skip(1)));
        } else {
            assert(t.skip(1) =~= escaped(s.skip(1)));
        }
    }
}

/// A number that was written is read back as an argument.
pub proof fn a_number_is_read_back(n: usize)
    ensures
        number_of(text::decimal(n as nat)) == Some(n as int),
{
    text::parse_of_decimal(n as nat, usize::MAX as int);
}

/// The pattern is the first argument, or the second one behind a number; what
/// follows it does not count.
pub proof fn the_pattern_is_the_first_that_is_no_count(
    pattern: Seq<char>,
    n: usize,
    more: Seq<Seq<char>>,
)
    ensures
        number_of(pattern) is None ==> pattern_of(seq![pattern] + more) == Some(pattern),
        pattern_of(seq![text::decimal(n as nat), pattern] + more) == Some(pattern),
        pattern_of(seq![text::decimal(n as nat)]) is None,
        pattern_of(Seq::empty()) is None,
{
    a_number_is_read_back(n);
    let a = seq![pattern] + more;
    assert(a[0] == pattern);
    let b = seq![text::decimal(n as nat), pattern] + more;
    assert(b[0] == text::decimal(n as nat));
    assert(b[1] == pattern);
}

/// What is cut off is the end of a text, and three dots stand for it; as much
/// of the text is shown as fits before them.
pub proof fn a_long_text_is_cut_at_its_end(s: Seq<char>, max: int)
    requires
        3 <= max < s.len(),
    ensures
        truncated(s, max).len() == max,
        truncated(s, max).take(max - 3) == s.take(max - 3),
        text::ends_with(truncated(s, max), "..."@),
{
    reveal_strlit("...");
    let t = truncated(s, max);
    assert(t.take(max - 3) == s.take(max - 3));
    assert(t.subrange(t.len() - 3, t.len() as int) == "..."@);
}

/// A character that means nothing in an expression stays as it is, and each
/// other one gets one backslash.
pub proof fn only_what_has_a_meaning_is_escaped(s: Seq<char>, c: char)
    ensures
        is_meta(c) ==> escaped(s.push(c)) == escaped(s) + seq!['\\', c],
        !is_meta(c) ==> escaped(s.push(c)) == escaped(s) + seq![c],
        escaped(Seq::empty()) == Seq::<char>::empty(),
        is_meta(c) <==> seq![
            '\\',
            '^',
            '$',
            '.',
            '|',
            '?',
            '*',
            '+',
            '(',
            ')',
            '[',
            ']',
            '{',
            '}',
        ].contains(c),
{
    assert(s.push(c).drop_last() == s);
    let all = seq!['\\', '^', '$', '.', '|', '?', '*', '+', '(', ')', '[', ']', '{', '}'];
    if is_meta(c) {
        assert(all[0] == '\\' && all[1] == '^' && all[2] == '$' && all[3] == '.' && all[4] == '|'
            && all[5] == '?' && all[6] == '*' && all[7] == '+' && all[8] == '(' && all[9] == ')'
            && all[10] == '[' && all[11] == ']' && all[12] == '{' && all[13] == '}');
    }
}

} // verus!
