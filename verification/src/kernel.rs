//! The identity under which one kernel is known to all profilers.

use vstd::prelude::*;

use crate::text;
use crate::text::{
    chars_of, cut, ends_with_chars, find_chars, is_white_char, replace_chars, rfind_chars,
    same_text, string_of, trim_end_chars,
};

verus! {

pub const TYPED_INTEGER: &'static str =
    "\\((?:bool|int|unsigned\\s+long|unsigned\\s+int|long)\\)\\s*(\\d+)";

pub const TRUE_WORD: &'static str = "\\btrue\\b";

pub const FALSE_WORD: &'static str = "\\bfalse\\b";

pub const INTEGER_SUFFIX: &'static str = "(\\d+)(?:ull|ul|ll|u|l)\\b";

pub const OPERATOR_CALL: &'static str = "operator\\s*\\(\\s*\\)";

pub const NSYS_LAMBDA: &'static str = "\\[lambda[^\\]]*\\]";

pub const TORCH_LAMBDA: &'static str = "\\{lambda[^\\}]*\\}";

pub const NAMESPACE: &'static str = "[A-Za-z_][A-Za-z0-9_]*::";

pub const PRESENTATION_TYPE: &'static str = "\\b(?:void|const)\\b";

/// One of the patterns above. Each is a valid regular expression.
pub open spec fn is_kernel_pattern(p: Seq<char>) -> bool {
    ||| p == TYPED_INTEGER@
    ||| p == TRUE_WORD@
    ||| p == FALSE_WORD@
    ||| p == INTEGER_SUFFIX@
    ||| p == OPERATOR_CALL@
    ||| p == NSYS_LAMBDA@
    ||| p == TORCH_LAMBDA@
    ||| p == NAMESPACE@
    ||| p == PRESENTATION_TYPE@
}

/// A compiled regular expression.
#[verifier::external_type_specification]
#[verifier::external_body]
pub struct ExRegex(regex::Regex);

/// The pattern that a regular expression was compiled from.
pub uninterp spec fn pattern_of(re: regex::Regex) -> Seq<char>;

/// What stands in place of `haystack` when every match of `pattern` has given
/// way to `replacement`, in which `$1` is the match's first group.
pub uninterp spec fn all_replaced(
    pattern: Seq<char>,
    haystack: Seq<char>,
    replacement: Seq<char>,
) -> Seq<char>;

/// `regex::Regex::new`, on a pattern that is known to be valid: the expression
/// that it returns keeps the pattern.
#[verifier::external_body]
fn compile(pattern: &str) -> (re: regex::Regex)
    requires
        is_kernel_pattern(pattern@),
    ensures
        pattern_of(re) == pattern@,
{
    regex::Regex::new(pattern).unwrap()
}

/// `regex::Regex::replace_all` with a string as the replacement. The result
/// depends on the pattern, the haystack and the replacement alone. With an
/// empty replacement the matches are cut out, so the result is the haystack
/// itself or is shorter.
#[verifier::external_body]
fn replace_all(re: &regex::Regex, haystack: &str, replacement: &str) -> (r: String)
    ensures
        r@ == all_replaced(pattern_of(*re), haystack@, replacement@),
        replacement@.len() == 0 ==> r@ == haystack@ || r@.len() < haystack@.len(),
{
    re.replace_all(haystack, replacement).into_owned()
}

/// The expressions that a kernel's name is rewritten by.
#[derive(Debug)]
pub struct KernelPatterns {
    typed_integer: regex::Regex,
    true_word: regex::Regex,
    false_word: regex::Regex,
    integer_suffix: regex::Regex,
    operator_call: regex::Regex,
    nsys_lambda: regex::Regex,
    torch_lambda: regex::Regex,
    namespace: regex::Regex,
    presentation_type: regex::Regex,
}

/// A raw name with the spellings of the anonymous namespace taken out.
pub open spec fn prepared_name(raw: Seq<char>) -> Seq<char> {
    let a = text::replace(raw, "::<unnamed>::"@, "::"@);
    let b = text::replace(a, " <unnamed>::"@, " "@);
    let c = text::replace(b, "(anonymous namespace)::"@, ""@);
    let d = text::replace(c, "<unnamed>::"@, "<"@);
    text::replace(d, "unnamed>::"@, ""@)
}

pub fn prepare_kernel_name(raw: &str) -> (r: String)
    ensures
        r@ == prepared_name(raw@),
{
    proof {
        reveal_strlit("::<unnamed>::");
        reveal_strlit(" <unnamed>::");
        reveal_strlit("(anonymous namespace)::");
        reveal_strlit("<unnamed>::");
        reveal_strlit("unnamed>::");
    }
    let a = replace_chars(&chars_of(raw), &chars_of("::<unnamed>::"), &chars_of("::"));
    let b = replace_chars(&a, &chars_of(" <unnamed>::"), &chars_of(" "));
    let c = replace_chars(&b, &chars_of("(anonymous namespace)::"), &chars_of(""));
    let d = replace_chars(&c, &chars_of("<unnamed>::"), &chars_of("<"));
    let e = replace_chars(&d, &chars_of("unnamed>::"), &chars_of(""));
    string_of(&e)
}

/// What follows the last ` [` of a name.
pub open spec fn display_suffix(name: Seq<char>) -> Option<Seq<char>> {
    match text::rfind(name, " ["@) {
        Some(i) => Some(name.skip(i + 2)),
        None => None,
    }
}

/// A suffix in brackets begins with an ASCII character: its first byte is a
/// character of its own, and is not the closing bracket.
pub open spec fn suffix_is_readable(name: Seq<char>) -> bool {
    match display_suffix(name) {
        Some(s) => text::ends_with(s, "]"@) ==> s.len() > 1 && (s[0] as u32) < 128,
        None => true,
    }
}

/// A name without a closing ` [n]`, where `n` is a number.
pub open spec fn without_suffix(name: Seq<char>) -> Seq<char> {
    match display_suffix(name) {
        Some(s) => if text::ends_with(s, "]"@) && forall|k: int|
            0 <= k < s.len() - 1 ==> text::is_digit(#[trigger] s[k]) {
            text::trim_end(name.take(text::rfind(name, " ["@)->0))
        } else {
            name
        },
        None => name,
    }
}

/// Tells whether `normalize_kernel_name` accepts a name.
pub fn has_readable_suffix(name: &str) -> (r: bool)
    ensures
        r == suffix_is_readable(name@),
{
    let s = chars_of(name);
    proof {
        reveal_strlit(" [");
        reveal_strlit("]");
    }
    match rfind_chars(&s, &chars_of(" [")) {
        Some(i) => {
            let n: usize = s.len();
            let suffix = cut(&s, i + 2, n);
            assert(suffix@ =~= name@.skip(i + 2));
            if ends_with_chars(&suffix, &chars_of("]")) {
                suffix.len() > 1 && (suffix[0] as u32) < 128
            } else {
                true
            }
        },
        None => true,
    }
}

fn drop_suffix(name: &str) -> (r: String)
    requires
        suffix_is_readable(name@),
    ensures
        r@ == without_suffix(name@),
{
    let s = chars_of(name);
    proof {
        reveal_strlit(" [");
        reveal_strlit("]");
    }
    match rfind_chars(&s, &chars_of(" [")) {
        Some(i) => {
            let n: usize = s.len();
            let suffix = cut(&s, i + 2, n);
            assert(suffix@ =~= name@.skip(i + 2));
            if !ends_with_chars(&suffix, &chars_of("]")) {
                return string_of(&s);
            }
            let m: usize = suffix.len();
            let mut k: usize = 0;
            while k < m - 1
                invariant
                    1 < m,
                    k <= m - 1,
                    m == suffix@.len(),
                    s@ == name@,
                    text::rfind(name@, " ["@) == Some(i as int),
                    suffix@ == name@.skip(i + 2),
                    forall|j: int| 0 <= j < k ==> text::is_digit(#[trigger] suffix@[j]),
                decreases m - k,
            {
                if !('0' <= suffix[k] && suffix[k] <= '9') {
                    assert(!text::is_digit(name@.skip(i + 2)[k as int]));
                    return string_of(&s);
                }
                k = k + 1;
            }
            let base = cut(&s, 0, i);
            assert(base@ =~= name@.take(i as int));
            string_of(&trim_end_chars(&base))
        },
        None => string_of(&s),
    }
}

/// `s` without its groups in round brackets, read with `depth` brackets open.
/// A closing bracket that closes nothing stays.
pub open spec fn outside_groups(s: Seq<char>, depth: u32) -> Seq<char>
    decreases s.len(),
{
    if s.len() == 0 {
        Seq::empty()
    } else {
        let rest = s.skip(1);
        if s[0] == '(' {
            outside_groups(rest, if depth < u32::MAX {
                (depth + 1) as u32
            } else {
                depth
            })
        } else if s[0] == ')' && depth > 0 {
            outside_groups(rest, (depth - 1) as u32)
        } else if depth == 0 {
            seq![s[0]] + outside_groups(rest, depth)
        } else {
            outside_groups(rest, depth)
        }
    }
}

pub fn strip_parenthesized_groups(name: &str) -> (r: String)
    ensures
        r@ == outside_groups(name@, 0),
{
    let s = chars_of(name);
    let mut out: Vec<char> = Vec::new();
    let mut depth: u32 = 0;
    let mut i: usize = 0;
    assert(s@.skip(0) =~= s@);
    assert(out@ + outside_groups(s@, 0) =~= outside_groups(s@, 0));
    while i < s.len()
        invariant
            i <= s@.len(),
            out@ + outside_groups(s@.skip(i as int), depth) == outside_groups(s@, 0),
        decreases s@.len() - i,
    {
        let c = s[i];
        assert(s@.skip(i as int).skip(1) =~= s@.skip(i + 1));
        if c == '(' {
            if depth < u32::MAX {
                depth = depth + 1;
            }
        } else if c == ')' && depth > 0 {
            depth = depth - 1;
        } else if depth == 0 {
            let ghost before = out@;
            out.push(c);
            assert(out@ + outside_groups(s@.skip(i + 1), depth) =~= before + (seq![c]
                + outside_groups(s@.skip(i + 1), depth)));
        }
        i = i + 1;
    }
    assert(out@ + outside_groups(s@.skip(i as int), depth) =~= out@);
    string_of(&out)
}

/// `s` with every namespace cut out, as often as one is found.
pub open spec fn without_namespaces(s: Seq<char>) -> Seq<char>
    decreases s.len(),
{
    let t = all_replaced(NAMESPACE@, s, ""@);
    if t.len() < s.len() {
        without_namespaces(t)
    } else {
        s
    }
}

/// `s` without white space and without `&`.
pub open spec fn compact(s: Seq<char>) -> Seq<char>
    decreases s.len(),
{
    if s.len() == 0 {
        s
    } else {
        let front = compact(s.drop_last());
        if text::is_white(s.last()) || s.last() == '&' {
            front
        } else {
            front.push(s.last())
        }
    }
}

fn drop_blanks(name: &str) -> (r: String)
    ensures
        r@ == compact(name@),
{
    let s = chars_of(name);
    let mut out: Vec<char> = Vec::new();
    let mut i: usize = 0;
    while i < s.len()
        invariant
            i <= s@.len(),
            out@ == compact(s@.take(i as int)),
        decreases s@.len() - i,
    {
        assert(s@.take(i + 1).drop_last() =~= s@.take(i as int));
        if !is_white_char(s[i]) && s[i] != '&' {
            out.push(s[i]);
        }
        i = i + 1;
    }
    assert(s@.take(i as int) =~= s@);
    string_of(&out)
}

/// A name with literals, call operators and lambdas spelled in one way.
pub open spec fn one_spelling(name: Seq<char>) -> Seq<char> {
    let a = all_replaced(TYPED_INTEGER@, name, "$1"@);
    let b = all_replaced(TRUE_WORD@, a, "1"@);
    let c = all_replaced(FALSE_WORD@, b, "0"@);
    let d = all_replaced(INTEGER_SUFFIX@, c, "$1"@);
    let e = all_replaced(OPERATOR_CALL@, d, "operator_call"@);
    let f = all_replaced(NSYS_LAMBDA@, e, "lambda"@);
    all_replaced(TORCH_LAMBDA@, f, "lambda"@)
}

/// A name with the namespaces that some profiler leaves out taken out.
pub open spec fn shared_qualifiers(name: Seq<char>) -> Seq<char> {
    if text::contains(name, "multi_tensor_apply_kernel"@) {
        without_namespaces(name)
    } else {
        text::replace(name, "cutlass::Kernel2<"@, "Kernel2<"@)
    }
}

/// The identity of the kernel whose canonical name is `fqn`.
pub open spec fn kernel_identity(fqn: Seq<char>) -> Seq<char> {
    let spelled = outside_groups(one_spelling(without_suffix(fqn)), 0);
    compact(all_replaced(PRESENTATION_TYPE@, shared_qualifiers(spelled), ""@))
}

impl KernelPatterns {
    /// Each expression is compiled from its own pattern.
    pub closed spec fn ready(self) -> bool {
        &&& pattern_of(self.typed_integer) == TYPED_INTEGER@
        &&& pattern_of(self.true_word) == TRUE_WORD@
        &&& pattern_of(self.false_word) == FALSE_WORD@
        &&& pattern_of(self.integer_suffix) == INTEGER_SUFFIX@
        &&& pattern_of(self.operator_call) == OPERATOR_CALL@
        &&& pattern_of(self.nsys_lambda) == NSYS_LAMBDA@
        &&& pattern_of(self.torch_lambda) == TORCH_LAMBDA@
        &&& pattern_of(self.namespace) == NAMESPACE@
        &&& pattern_of(self.presentation_type) == PRESENTATION_TYPE@
    }

    pub fn new() -> (r: KernelPatterns)
        ensures
            r.ready(),
    {
        KernelPatterns {
            typed_integer: compile(TYPED_INTEGER),
            true_word: compile(TRUE_WORD),
            false_word: compile(FALSE_WORD),
            integer_suffix: compile(INTEGER_SUFFIX),
            operator_call: compile(OPERATOR_CALL),
            nsys_lambda: compile(NSYS_LAMBDA),
            torch_lambda: compile(TORCH_LAMBDA),
            namespace: compile(NAMESPACE),
            presentation_type: compile(PRESENTATION_TYPE),
        }
    }

    fn strip_namespaces(&self, name: &str) -> (r: String)
        requires
            self.ready(),
        ensures
            r@ == without_namespaces(name@),
    {
        proof {
            reveal_strlit("");
        }
        let mut name = string_of(&chars_of(name));
        let ghost start = name@;
        loop
            invariant
                self.ready(),
                ""@.len() == 0,
                without_namespaces(name@) == without_namespaces(start),
            ensures
                name@ == without_namespaces(start),
            decreases name@.len(),
        {
            let reduced = replace_all(&self.namespace, name.as_str(), "");
            if same_text(reduced.as_str(), name.as_str()) {
                break;
            }
            name = reduced;
        }
        name
    }

    /// The stable identity by which one kernel is found again in the records
    /// of different profilers. Return type, arguments and the spelling of
    /// literals, lambdas and anonymous namespaces do not count.
    pub fn normalize_kernel_name(&self, fqn: &str) -> (r: String)
        requires
            self.ready(),
            suffix_is_readable(fqn@),
        ensures
            r@ == kernel_identity(fqn@),
    {
        let name = drop_suffix(fqn);
        let name = replace_all(&self.typed_integer, name.as_str(), "$1");
        let name = replace_all(&self.true_word, name.as_str(), "1");
        let name = replace_all(&self.false_word, name.as_str(), "0");
        let name = replace_all(&self.integer_suffix, name.as_str(), "$1");
        let name = replace_all(&self.operator_call, name.as_str(), "operator_call");
        let name = replace_all(&self.nsys_lambda, name.as_str(), "lambda");
        let name = replace_all(&self.torch_lambda, name.as_str(), "lambda");
        let name = strip_parenthesized_groups(name.as_str());
        let name = if find_chars(
            &chars_of(name.as_str()),
            &chars_of("multi_tensor_apply_kernel"),
            0,
        ).is_some() {
            self.strip_namespaces(name.as_str())
        } else {
            proof {
                reveal_strlit("cutlass::Kernel2<");
            }
            string_of(
                &replace_chars(
                    &chars_of(name.as_str()),
                    &chars_of("cutlass::Kernel2<"),
                    &chars_of("Kernel2<"),
                ),
            )
        };
        let name = replace_all(&self.presentation_type, name.as_str(), "");
        drop_blanks(name.as_str())
    }
}

/// Compacting a text changes nothing the second time.
proof fn compact_twice(s: Seq<char>)
    ensures
        compact(compact(s)) == compact(s),
        forall|i: int|
            0 <= i < compact(s).len() ==> !text::is_white(#[trigger] compact(s)[i]) && compact(
                s,
            )[i] != '&',
    decreases s.len(),
{
    if s.len() > 0 {
        compact_twice(s.drop_last());
        let front = compact(s.drop_last());
        assert(front.push(s.last()).drop_last() =~= front);
    }
}

/// No identity of a kernel holds white space or a reference mark, however the
/// name was spaced.
pub proof fn identities_are_compact(fqn: Seq<char>)
    ensures
        forall|i: int|
            0 <= i < kernel_identity(fqn).len() ==> !text::is_white(
                #[trigger] kernel_identity(fqn)[i],
            ) && kernel_identity(fqn)[i] != '&',
{
    let spelled = outside_groups(one_spelling(without_suffix(fqn)), 0);
    compact_twice(all_replaced(PRESENTATION_TYPE@, shared_qualifiers(spelled), ""@));
}

/// Names that differ in a closing ` [n]` only have one identity.
pub proof fn numbered_names_are_one_kernel(base: Seq<char>, number: Seq<char>)
    requires
        text::all_digits(number),
        !text::contains(base, " ["@),
        text::trim_end(base) == base,
    ensures
        kernel_identity(base + " ["@ + number + "]"@) == kernel_identity(base),
{
    reveal_strlit(" [");
    reveal_strlit("]");
    let p = " ["@;
    let s = base + p + number + "]"@;
    let i = base.len() as int;
    assert(text::occurs_at(s, p, i)) by {
        assert(s.subrange(i, i + 2) =~= p);
    }
    assert forall|j: int| i < j <= s.len() - 2 implies !text::occurs_at(s, p, j) by {
        if text::occurs_at(s, p, j) {
            assert(s.subrange(j, j + 2)[0] == ' ');
            assert(s[j] == ' ');
        }
    }
    text::rfind_from_is_last(s, p, s.len() - 2);
    assert(text::rfind(s, p) == Some(i));
    assert(s.skip(i + 2) =~= number + "]"@);
    assert(s.take(i) =~= base);
    let t = number + "]"@;
    assert(t.subrange(t.len() - 1, t.len() as int) =~= "]"@);
    assert(without_suffix(s) == base);
    assert(without_suffix(base) == base) by {
        if text::rfind(base, p) is Some {
            text::rfind_from_is_last(base, p, base.len() - 2);
            text::find_from_is_first(base, p, 0);
        }
    }
}

/// Nothing in `s` is rewritten: it has no literal, call operator, lambda,
/// `void` or `const` in a spelling that some profiler leaves out.
pub open spec fn has_nothing_to_rewrite(s: Seq<char>) -> bool {
    &&& all_replaced(TYPED_INTEGER@, s, "$1"@) == s
    &&& all_replaced(TRUE_WORD@, s, "1"@) == s
    &&& all_replaced(FALSE_WORD@, s, "0"@) == s
    &&& all_replaced(INTEGER_SUFFIX@, s, "$1"@) == s
    &&& all_replaced(OPERATOR_CALL@, s, "operator_call"@) == s
    &&& all_replaced(NSYS_LAMBDA@, s, "lambda"@) == s
    &&& all_replaced(TORCH_LAMBDA@, s, "lambda"@) == s
    &&& all_replaced(PRESENTATION_TYPE@, s, ""@) == s
}

/// A text without opening brackets has no groups.
proof fn nothing_to_strip(s: Seq<char>)
    requires
        !s.contains('('),
    ensures
        outside_groups(s, 0) == s,
    decreases s.len(),
{
    if s.len() > 0 {
        assert(s.contains(s[0]));
        let rest = s.skip(1);
        assert(!rest.contains('(')) by {
            if rest.contains('(') {
                let i = choose|i: int| 0 <= i < rest.len() && rest[i] == '(';
                assert(s[i + 1] == '(');
            }
        }
        nothing_to_strip(rest);
        assert(seq![s[0]] + rest =~= s);
    } else {
        assert(s =~= Seq::empty());
    }
}

/// The namespaces of a kernel belong to its identity: a plain qualified name is
/// its own identity, but for white space and `&`. Only the kernels around
/// `multi_tensor_apply_kernel` are known without namespaces.
pub proof fn a_qualified_name_is_kept(name: Seq<char>)
    requires
        has_nothing_to_rewrite(name),
        !name.contains('('),
        !text::contains(name, " ["@),
        !text::contains(name, "multi_tensor_apply_kernel"@),
        !text::contains(name, "cutlass::Kernel2<"@),
    ensures
        kernel_identity(name) == compact(name),
        (forall|i: int| 0 <= i < name.len() ==> !text::is_white(#[trigger] name[i]) && name[i]
            != '&') ==> kernel_identity(name) == name,
{
    reveal_strlit(" [");
    text::rfind_from_is_last(name, " ["@, name.len() - 2);
    text::find_from_is_first(name, " ["@, 0);
    assert(without_suffix(name) == name);
    nothing_to_strip(name);
    text::replacing_nothing(name, "cutlass::Kernel2<"@, "Kernel2<"@);
    if forall|i: int| 0 <= i < name.len() ==> !text::is_white(#[trigger] name[i]) && name[i] != '&' {
        compact_keeps(name);
    }
}

/// Two plain names are one kernel only if they are one name: kernels of two
/// namespaces are told apart.
pub proof fn different_names_are_different_kernels(a: Seq<char>, b: Seq<char>)
    requires
        a != b,
        forall|i: int| 0 <= i < a.len() ==> !text::is_white(#[trigger] a[i]) && a[i] != '&',
        forall|i: int| 0 <= i < b.len() ==> !text::is_white(#[trigger] b[i]) && b[i] != '&',
        has_nothing_to_rewrite(a),
        has_nothing_to_rewrite(b),
        !a.contains('('),
        !b.contains('('),
        !text::contains(a, "multi_tensor_apply_kernel"@),
        !text::contains(b, "multi_tensor_apply_kernel"@),
        !text::contains(a, "cutlass::Kernel2<"@),
        !text::contains(b, "cutlass::Kernel2<"@),
    ensures
        kernel_identity(a) != kernel_identity(b),
{
    reveal_strlit(" [");
    text::find_from_is_first(a, " ["@, 0);
    text::find_from_is_first(b, " ["@, 0);
    if text::contains(a, " ["@) {
        let i = text::find(a, " ["@)->0;
        assert(a.subrange(i, i + 2)[0] == ' ');
        assert(text::is_white(a[i]));
    }
    if text::contains(b, " ["@) {
        let i = text::find(b, " ["@)->0;
        assert(b.subrange(i, i + 2)[0] == ' ');
        assert(text::is_white(b[i]));
    }
    a_qualified_name_is_kept(a);
    a_qualified_name_is_kept(b);
}

proof fn compact_keeps(s: Seq<char>)
    requires
        forall|i: int| 0 <= i < s.len() ==> !text::is_white(#[trigger] s[i]) && s[i] != '&',
    ensures
        compact(s) == s,
    decreases s.len(),
{
    if s.len() > 0 {
        assert forall|i: int| 0 <= i < s.drop_last().len() implies !text::is_white(
            #[trigger] s.drop_last()[i],
        ) && s.drop_last()[i] != '&' by {
            assert(!text::is_white(s[i]));
        }
        compact_keeps(s.drop_last());
        assert(s.drop_last().push(s.last()) =~= s);
    }
}

proof fn stripping_joins(a: Seq<char>, b: Seq<char>)
    requires
        !a.contains('('),
    ensures
        outside_groups(a + b, 0) == a + outside_groups(b, 0),
    decreases a.len(),
{
    if a.len() > 0 {
        assert(a.contains(a[0]));
        let rest = a.skip(1);
        assert(!rest.contains('(')) by {
            if rest.contains('(') {
                let i = choose|i: int| 0 <= i < rest.len() && rest[i] == '(';
                assert(a[i + 1] == '(');
            }
        }
        stripping_joins(rest, b);
        assert((a + b).skip(1) =~= rest + b);
        assert(seq![a[0]] + (rest + outside_groups(b, 0)) =~= a + outside_groups(b, 0));
    } else {
        assert(a + b =~= b);
        assert(a + outside_groups(b, 0) =~= outside_groups(b, 0));
    }
}

proof fn inside_is_dropped(inner: Seq<char>, rest: Seq<char>)
    requires
        !inner.contains('('),
        !inner.contains(')'),
    ensures
        outside_groups(inner + (seq![')'] + rest), 1) == outside_groups(rest, 0),
    decreases inner.len(),
{
    let s = inner + (seq![')'] + rest);
    if inner.len() > 0 {
        assert(inner.contains(inner[0]));
        let less = inner.skip(1);
        assert(forall|c: char| less.contains(c) ==> inner.contains(c)) by {
            assert forall|c: char| less.contains(c) implies inner.contains(c) by {
                let i = choose|i: int| 0 <= i < less.len() && less[i] == c;
                assert(inner[i + 1] == c);
            }
        }
        inside_is_dropped(less, rest);
        assert(s.skip(1) =~= less + (seq![')'] + rest));
    } else {
        assert(s =~= seq![')'] + rest);
        assert(s.skip(1) =~= rest);
    }
}

/// The arguments of a kernel do not count: a group in brackets falls out, and
/// what stands before and after it stays.
pub proof fn arguments_fall_out(before: Seq<char>, inner: Seq<char>, after: Seq<char>)
    requires
        !before.contains('('),
        !inner.contains('('),
        !inner.contains(')'),
        !after.contains('('),
    ensures
        outside_groups(before + seq!['('] + inner + seq![')'] + after, 0) == before + after,
{
    let tail = inner + (seq![')'] + after);
    let s = seq!['('] + tail;
    assert(before + seq!['('] + inner + seq![')'] + after =~= before + s);
    stripping_joins(before, s);
    assert(s.skip(1) =~= tail);
    inside_is_dropped(inner, after);
    nothing_to_strip(after);
}

/// Nothing is left of what is cut out as a namespace.
pub proof fn no_namespace_is_left(s: Seq<char>)
    ensures
        ({
            let t = without_namespaces(s);
            all_replaced(NAMESPACE@, t, ""@).len() >= t.len()
        }),
    decreases s.len(),
{
    let t = all_replaced(NAMESPACE@, s, ""@);
    if t.len() < s.len() {
        no_namespace_is_left(t);
    }
}

/// A name that no profiler marks is read as it stands: only the spellings of
/// the anonymous namespace are taken out of a raw name.
pub proof fn a_named_namespace_is_kept(raw: Seq<char>)
    requires
        !text::contains(raw, "unnamed>::"@),
        !text::contains(raw, "(anonymous namespace)::"@),
    ensures
        prepared_name(raw) == raw,
{
    reveal_strlit("::<unnamed>::");
    reveal_strlit(" <unnamed>::");
    reveal_strlit("<unnamed>::");
    reveal_strlit("unnamed>::");
    text::find_from_is_first(raw, "unnamed>::"@, 0);
    assert("::<unnamed>::"@.skip(3) =~= "unnamed>::"@);
    assert(" <unnamed>::"@.skip(2) =~= "unnamed>::"@);
    assert("<unnamed>::"@.skip(1) =~= "unnamed>::"@);
    marked_only_once(raw, "::<unnamed>::"@, 3);
    marked_only_once(raw, " <unnamed>::"@, 2);
    marked_only_once(raw, "<unnamed>::"@, 1);
    text::replacing_nothing(raw, "::<unnamed>::"@, "::"@);
    text::replacing_nothing(raw, " <unnamed>::"@, " "@);
    text::replacing_nothing(raw, "(anonymous namespace)::"@, ""@);
    text::replacing_nothing(raw, "<unnamed>::"@, "<"@);
    text::replacing_nothing(raw, "unnamed>::"@, ""@);
}

proof fn marked_only_once(raw: Seq<char>, mark: Seq<char>, n: int)
    requires
        !text::contains(raw, "unnamed>::"@),
        0 <= n <= mark.len(),
        mark.skip(n) == "unnamed>::"@,
    ensures
        !text::contains(raw, mark),
{
    let core = "unnamed>::"@;
    text::find_from_is_first(raw, core, 0);
    text::find_from_is_first(raw, mark, 0);
    if text::contains(raw, mark) {
        let i = text::find(raw, mark)->0;
        assert(raw.subrange(i + n, i + n + core.len()) =~= raw.subrange(i, i + mark.len()).skip(
            n,
        ));
        assert(text::occurs_at(raw, core, i + n));
    }
}

/// How many more brackets the first `i` characters open than they close.
pub open spec fn opened(s: Seq<char>, i: int) -> int
    decreases i,
{
    if i <= 0 {
        0
    } else {
        opened(s, i - 1) + (if s[i - 1] == '(' {
            1int
        } else if s[i - 1] == ')' {
            -1
        } else {
            0
        })
    }
}

/// One group: the bracket that opens it is closed by its last character, and
/// not before.
pub open spec fn is_group(s: Seq<char>) -> bool {
    &&& s.len() > 0
    &&& opened(s, s.len() as int) == 0
    &&& forall|i: int| 0 < i < s.len() ==> #[trigger] opened(s, i) > 0
}

proof fn opened_is_bounded(s: Seq<char>, i: int)
    requires
        0 <= i,
    ensures
        opened(s, i) <= i,
    decreases i,
{
    if i > 0 {
        opened_is_bounded(s, i - 1);
    }
}

proof fn a_group_falls_out_from(s: Seq<char>, after: Seq<char>, i: int)
    requires
        is_group(s),
        s.len() <= u32::MAX,
        0 < i <= s.len(),
    ensures
        outside_groups(s.skip(i) + after, opened(s, i) as u32) == outside_groups(after, 0),
    decreases s.len() - i,
{
    let t = s.skip(i) + after;
    if i == s.len() {
        assert(t == after);
    } else {
        a_group_falls_out_from(s, after, i + 1);
        opened_is_bounded(s, i);
        opened_is_bounded(s, i + 1);
        assert(opened(s, i) > 0);
        assert(t[0] == s[i]);
        assert(t.skip(1) == s.skip(i + 1) + after);
        assert(opened(s, i + 1) >= 0) by {
            if i + 1 < s.len() {
                assert(opened(s, i + 1) > 0);
            }
        }
    }
}

/// A group falls out whole, whatever groups stand in it; what stands before it
/// stays, and what follows is read on its own.
pub proof fn a_group_falls_out_whole(before: Seq<char>, group: Seq<char>, after: Seq<char>)
    requires
        !before.contains('('),
        is_group(group),
        group[0] == '(',
        group.len() <= u32::MAX,
    ensures
        outside_groups(before + group + after, 0) == before + outside_groups(after, 0),
{
    let s = group + after;
    assert(before + group + after == before + s);
    stripping_joins(before, s);
    assert(s[0] == '(');
    assert(s.skip(1) == group.skip(1) + after);
    assert(opened(group, 0) == 0);
    assert(opened(group, 1) == 1);
    a_group_falls_out_from(group, after, 1);
}

/// Kernels around `multi_tensor_apply_kernel` that differ in their namespaces
/// only are one kernel.
pub proof fn namespaces_do_not_part_multi_tensor_kernels(a: Seq<char>, b: Seq<char>)
    requires
        has_nothing_to_rewrite(a),
        has_nothing_to_rewrite(b),
        !a.contains('('),
        !b.contains('('),
        !text::contains(a, " ["@),
        !text::contains(b, " ["@),
        text::contains(a, "multi_tensor_apply_kernel"@),
        text::contains(b, "multi_tensor_apply_kernel"@),
        without_namespaces(a) == without_namespaces(b),
    ensures
        kernel_identity(a) == kernel_identity(b),
        kernel_identity(a) == compact(
            all_replaced(PRESENTATION_TYPE@, without_namespaces(a), ""@),
        ),
{
    reveal_strlit(" [");
    text::rfind_from_is_last(a, " ["@, a.len() - 2);
    text::find_from_is_first(a, " ["@, 0);
    text::rfind_from_is_last(b, " ["@, b.len() - 2);
    text::find_from_is_first(b, " ["@, 0);
    assert(without_suffix(a) == a);
    assert(without_suffix(b) == b);
    nothing_to_strip(a);
    nothing_to_strip(b);
}

/// The two spellings of the template that wraps a library's kernels are one.
pub proof fn wrapped_kernels_are_one(before: Seq<char>, after: Seq<char>)
    requires
        text::find(before + "cutlass::Kernel2<"@ + after, "cutlass::Kernel2<"@) == Some(
            before.len() as int,
        ),
        !text::contains(after, "cutlass::Kernel2<"@),
        !text::contains(before + "Kernel2<"@ + after, "cutlass::Kernel2<"@),
        !text::contains(before + "cutlass::Kernel2<"@ + after, "multi_tensor_apply_kernel"@),
        !text::contains(before + "Kernel2<"@ + after, "multi_tensor_apply_kernel"@),
    ensures
        shared_qualifiers(before + "cutlass::Kernel2<"@ + after) == before + "Kernel2<"@ + after,
        shared_qualifiers(before + "Kernel2<"@ + after) == before + "Kernel2<"@ + after,
{
    reveal_strlit("cutlass::Kernel2<");
    text::each_place_is_replaced(before, "cutlass::Kernel2<"@, "Kernel2<"@, after);
    text::replacing_nothing(after, "cutlass::Kernel2<"@, "Kernel2<"@);
    text::replacing_nothing(before + "Kernel2<"@ + after, "cutlass::Kernel2<"@, "Kernel2<"@);
}

/// White space and reference marks fall out, and nothing else does.
pub proof fn only_blanks_fall_out(s: Seq<char>, c: char)
    ensures
        text::is_white(c) || c == '&' ==> compact(s.push(c)) == compact(s),
        !text::is_white(c) && c != '&' ==> compact(s.push(c)) == compact(s).push(c),
        compact(Seq::empty()).len() == 0,
{
    assert(s.push(c).drop_last() == s);
}

/// The anonymous namespace falls away in the spelling of the framework.
pub proof fn the_anonymous_namespace_falls_away(a: Seq<char>, b: Seq<char>)
    requires
        text::find(a + "(anonymous namespace)::"@ + b, "(anonymous namespace)::"@) == Some(
            a.len() as int,
        ),
        !text::contains(b, "(anonymous namespace)::"@),
        !text::contains(a + "(anonymous namespace)::"@ + b, "unnamed>::"@),
        !text::contains(a + b, "unnamed>::"@),
    ensures
        prepared_name(a + "(anonymous namespace)::"@ + b) == a + b,
{
    reveal_strlit("::<unnamed>::");
    reveal_strlit(" <unnamed>::");
    reveal_strlit("<unnamed>::");
    reveal_strlit("unnamed>::");
    reveal_strlit("(anonymous namespace)::");
    reveal_strlit("");
    let raw = a + "(anonymous namespace)::"@ + b;
    assert("::<unnamed>::"@.skip(3) =~= "unnamed>::"@);
    assert(" <unnamed>::"@.skip(2) =~= "unnamed>::"@);
    assert("<unnamed>::"@.skip(1) =~= "unnamed>::"@);
    marked_only_once(raw, "::<unnamed>::"@, 3);
    marked_only_once(raw, " <unnamed>::"@, 2);
    text::replacing_nothing(raw, "::<unnamed>::"@, "::"@);
    text::replacing_nothing(raw, " <unnamed>::"@, " "@);
    text::each_place_is_replaced(a, "(anonymous namespace)::"@, ""@, b);
    text::replacing_nothing(b, "(anonymous namespace)::"@, ""@);
    assert(a + ""@ + b == a + b);
    marked_only_once(a + b, "<unnamed>::"@, 1);
    text::replacing_nothing(a + b, "<unnamed>::"@, "<"@);
    text::replacing_nothing(a + b, "unnamed>::"@, ""@);
}

/// It falls away in the spelling of the system profiler too, and what stands
/// round it stays qualified.
pub proof fn the_unnamed_namespace_falls_away(a: Seq<char>, b: Seq<char>)
    requires
        text::find(a + "::<unnamed>::"@ + b, "::<unnamed>::"@) == Some(a.len() as int),
        !text::contains(b, "unnamed>::"@),
        !text::contains(a + "::"@ + b, "unnamed>::"@),
        !text::contains(a + "::"@ + b, "(anonymous namespace)::"@),
    ensures
        prepared_name(a + "::<unnamed>::"@ + b) == a + "::"@ + b,
{
    reveal_strlit("::<unnamed>::");
    reveal_strlit(" <unnamed>::");
    reveal_strlit("<unnamed>::");
    reveal_strlit("unnamed>::");
    assert("::<unnamed>::"@.skip(3) =~= "unnamed>::"@);
    assert(" <unnamed>::"@.skip(2) =~= "unnamed>::"@);
    assert("<unnamed>::"@.skip(1) =~= "unnamed>::"@);
    let out = a + "::"@ + b;
    marked_only_once(b, "::<unnamed>::"@, 3);
    text::each_place_is_replaced(a, "::<unnamed>::"@, "::"@, b);
    text::replacing_nothing(b, "::<unnamed>::"@, "::"@);
    marked_only_once(out, " <unnamed>::"@, 2);
    marked_only_once(out, "<unnamed>::"@, 1);
    text::replacing_nothing(out, " <unnamed>::"@, " "@);
    text::replacing_nothing(out, "(anonymous namespace)::"@, ""@);
    text::replacing_nothing(out, "<unnamed>::"@, "<"@);
    text::replacing_nothing(out, "unnamed>::"@, ""@);
}

} // verus!
