//! What the commands of a debug session promise: how a line is read, and what
//! the answers show.

use vstd::prelude::*;

use crate::breakpoints;
use crate::course;
use crate::course::{StepV, TaskV};
use crate::debug_command;
use crate::debug_command::{CommandV, Execution, ListError};
use crate::json;
use crate::json::JsonV;
use crate::session;
use crate::text;

verus! {

// ---------------------------------------------------------------------------
// Laws
// ---------------------------------------------------------------------------

/// How the words of the grammar are spelled, as far as it tells them apart.
proof fn words_are_spelled()
    ensures
        "cont"@.len() == 4,
        "cont"@[0] == 'c',
        "cont"@[1] == 'o',
        "cont"@[2] == 'n',
        "c"@.len() == 1,
        "c"@[0] == 'c',
        "continue"@.len() == 8,
        "continue"@[0] == 'c',
        "continue"@[1] == 'o',
        "continue"@[2] == 'n',
        "continue"@[4] == 'i',
        "continue"@[5] == 'n',
        "continue"@[6] == 'u',
        "continue"@[7] == 'e',
        "step"@.len() == 4,
        "step"@[0] == 's',
        "step"@[1] == 't',
        "step"@[2] == 'e',
        "s"@.len() == 1,
        "s"@[0] == 's',
        "stepi"@.len() == 5,
        "stepi"@[0] == 's',
        "stepi"@[1] == 't',
        "stepi"@[2] == 'e',
        "stepi"@[4] == 'i',
        "next"@.len() == 4,
        "next"@[0] == 'n',
        "next"@[1] == 'e',
        "next"@[2] == 'x',
        "n"@.len() == 1,
        "n"@[0] == 'n',
        "out"@.len() == 3,
        "out"@[0] == 'o',
        "out"@[1] == 'u',
        "out"@[2] == 't',
        "finish"@.len() == 6,
        "finish"@[0] == 'f',
        "finish"@[1] == 'i',
        "finish"@[2] == 'n',
        "finish"@[4] == 's',
        "finish"@[5] == 'h',
        "pause"@.len() == 5,
        "pause"@[0] == 'p',
        "pause"@[1] == 'a',
        "pause"@[2] == 'u',
        "pause"@[4] == 'e',
        "restart"@.len() == 7,
        "restart"@[0] == 'r',
        "restart"@[1] == 'e',
        "restart"@[2] == 's',
        "restart"@[4] == 'a',
        "restart"@[5] == 'r',
        "restart"@[6] == 't',
        "catch"@.len() == 5,
        "catch"@[0] == 'c',
        "catch"@[1] == 'a',
        "catch"@[2] == 't',
        "catch"@[4] == 'h',
        "catch off"@.len() == 9,
        "catch off"@[0] == 'c',
        "catch off"@[1] == 'a',
        "catch off"@[2] == 't',
        "catch off"@[4] == 'h',
        "catch off"@[5] == ' ',
        "catch off"@[6] == 'o',
        "catch off"@[7] == 'f',
        "catch "@.len() == 6,
        "catch "@[0] == 'c',
        "catch "@[1] == 'a',
        "catch "@[2] == 't',
        "catch "@[4] == 'h',
        "catch "@[5] == ' ',
        "backtrace"@.len() == 9,
        "backtrace"@[0] == 'b',
        "backtrace"@[1] == 'a',
        "backtrace"@[2] == 'c',
        "backtrace"@[4] == 't',
        "backtrace"@[5] == 'r',
        "backtrace"@[6] == 'a',
        "backtrace"@[7] == 'c',
        "bt"@.len() == 2,
        "bt"@[0] == 'b',
        "bt"@[1] == 't',
        "where"@.len() == 5,
        "where"@[0] == 'w',
        "where"@[1] == 'h',
        "where"@[2] == 'e',
        "where"@[4] == 'e',
        "breakpoints"@.len() == 11,
        "breakpoints"@[0] == 'b',
        "breakpoints"@[1] == 'r',
        "breakpoints"@[2] == 'e',
        "breakpoints"@[4] == 'k',
        "breakpoints"@[5] == 'p',
        "breakpoints"@[6] == 'o',
        "breakpoints"@[7] == 'i',
        "breakpoints"@[10] == 's',
        "breakpoint delete "@.len() == 18,
        "breakpoint delete "@[0] == 'b',
        "breakpoint delete "@[1] == 'r',
        "breakpoint delete "@[2] == 'e',
        "breakpoint delete "@[4] == 'k',
        "breakpoint delete "@[5] == 'p',
        "breakpoint delete "@[6] == 'o',
        "breakpoint delete "@[7] == 'i',
        "breakpoint delete "@[10] == ' ',
        "delete "@.len() == 7,
        "delete "@[0] == 'd',
        "delete "@[1] == 'e',
        "delete "@[2] == 'l',
        "delete "@[4] == 't',
        "delete "@[5] == 'e',
        "delete "@[6] == ' ',
        "locals"@.len() == 6,
        "locals"@[0] == 'l',
        "locals"@[1] == 'o',
        "locals"@[2] == 'c',
        "locals"@[4] == 'l',
        "locals"@[5] == 's',
        "threads"@.len() == 7,
        "threads"@[0] == 't',
        "threads"@[1] == 'h',
        "threads"@[2] == 'r',
        "threads"@[4] == 'a',
        "threads"@[5] == 'd',
        "threads"@[6] == 's',
        "thread list"@.len() == 11,
        "thread list"@[0] == 't',
        "thread list"@[1] == 'h',
        "thread list"@[2] == 'r',
        "thread list"@[4] == 'a',
        "thread list"@[5] == 'd',
        "thread list"@[6] == ' ',
        "thread list"@[7] == 'l',
        "thread list"@[10] == 't',
        "thread "@.len() == 7,
        "thread "@[0] == 't',
        "thread "@[1] == 'h',
        "thread "@[2] == 'r',
        "thread "@[4] == 'a',
        "thread "@[5] == 'd',
        "thread "@[6] == ' ',
        "list"@.len() == 4,
        "list"@[0] == 'l',
        "list"@[1] == 'i',
        "list"@[2] == 's',
        "list "@.len() == 5,
        "list "@[0] == 'l',
        "list "@[1] == 'i',
        "list "@[2] == 's',
        "list "@[4] == ' ',
        "bfn "@.len() == 4,
        "bfn "@[0] == 'b',
        "bfn "@[1] == 'f',
        "bfn "@[2] == 'n',
        "print "@.len() == 6,
        "print "@[0] == 'p',
        "print "@[1] == 'r',
        "print "@[2] == 'i',
        "print "@[4] == 't',
        "print "@[5] == ' ',
        "p "@.len() == 2,
        "p "@[0] == 'p',
        "p "@[1] == ' ',
        "set "@.len() == 4,
        "set "@[0] == 's',
        "set "@[1] == 'e',
        "set "@[2] == 't',
        ".exit"@.len() == 5,
        ".exit"@[0] == '.',
        ".exit"@[1] == 'e',
        ".exit"@[2] == 'x',
        ".exit"@[4] == 't',
        "quit"@.len() == 4,
        "quit"@[0] == 'q',
        "quit"@[1] == 'u',
        "quit"@[2] == 'i',
        "break "@.len() == 6,
        "break "@[0] == 'b',
        "break "@[1] == 'r',
        "break "@[2] == 'e',
        "break "@[4] == 'k',
        "break "@[5] == ' ',
        "b "@.len() == 2,
        "b "@[0] == 'b',
        "b "@[1] == ' ',
{
    reveal_strlit("cont");
    reveal_strlit("c");
    reveal_strlit("continue");
    reveal_strlit("step");
    reveal_strlit("s");
    reveal_strlit("stepi");
    reveal_strlit("next");
    reveal_strlit("n");
    reveal_strlit("out");
    reveal_strlit("finish");
    reveal_strlit("pause");
    reveal_strlit("restart");
    reveal_strlit("catch");
    reveal_strlit("catch off");
    reveal_strlit("catch ");
    reveal_strlit("backtrace");
    reveal_strlit("bt");
    reveal_strlit("where");
    reveal_strlit("breakpoints");
    reveal_strlit("breakpoint delete ");
    reveal_strlit("delete ");
    reveal_strlit("locals");
    reveal_strlit("threads");
    reveal_strlit("thread list");
    reveal_strlit("thread ");
    reveal_strlit("list");
    reveal_strlit("list ");
    reveal_strlit("bfn ");
    reveal_strlit("print ");
    reveal_strlit("p ");
    reveal_strlit("set ");
    reveal_strlit(".exit");
    reveal_strlit("quit");
    reveal_strlit("break ");
    reveal_strlit("b ");
}

proof fn not_begun_with(s: Seq<char>, word: Seq<char>, i: int)
    requires
        0 <= i < word.len(),
        i >= s.len() || s[i] != word[i],
    ensures
        !text::starts_with(s, word),
        s != word,
{
    if text::starts_with(s, word) {
        assert(s.subrange(0, word.len() as int)[i] == word[i]);
    }
}

proof fn begun_with(word: Seq<char>, rest: Seq<char>)
    ensures
        text::starts_with(word + rest, word),
        (word + rest).skip(word.len() as int) == rest,
{
    assert((word + rest).subrange(0, word.len() as int) =~= word);
    assert((word + rest).skip(word.len() as int) =~= rest);
}

/// Only the text of a line counts, not the white space around it.
pub proof fn white_space_around_a_command_does_not_count(line: Seq<char>)
    ensures
        debug_command::parsed_command(text::trim(line)) == debug_command::parsed_command(line),
{
    text::trimming_takes_only_white_space(line);
}

/// What follows `print` is the expression, all of it and as it stands.
pub proof fn print_shows_its_expression(expression: Seq<char>)
    ensures
        debug_command::command_in("print "@ + expression) == CommandV::Print(expression),
        debug_command::command_in("p "@ + expression) == CommandV::Print(expression),
{
    words_are_spelled();
    let s = "print "@ + expression;
    let t = "p "@ + expression;
    begun_with("print "@, expression);
    begun_with("p "@, expression);
    assert(s[0] == 'p' && s[1] == 'r');
    assert(t[0] == 'p' && t[1] == ' ');
    not_begun_with(s, "catch "@, 0);
    not_begun_with(s, "breakpoint delete "@, 0);
    not_begun_with(s, "delete "@, 0);
    not_begun_with(s, "thread "@, 0);
    not_begun_with(s, "list "@, 0);
    not_begun_with(s, "bfn "@, 0);
    not_begun_with(s, "set "@, 0);
    not_begun_with(s, "break "@, 0);
    not_begun_with(s, "b "@, 0);
    not_begun_with(t, "catch "@, 0);
    not_begun_with(t, "breakpoint delete "@, 0);
    not_begun_with(t, "delete "@, 0);
    not_begun_with(t, "thread "@, 0);
    not_begun_with(t, "list "@, 0);
    not_begun_with(t, "bfn "@, 0);
    not_begun_with(t, "set "@, 0);
    not_begun_with(t, "break "@, 0);
    not_begun_with(t, "b "@, 0);
    not_begun_with(t, "print "@, 1);
}

/// What follows `set` is the assignment.
pub proof fn set_takes_its_assignment(rest: Seq<char>)
    ensures
        debug_command::command_in("set "@ + rest) == CommandV::Assign(rest),
{
    words_are_spelled();
    let s = "set "@ + rest;
    begun_with("set "@, rest);
    assert(s[0] == 's' && s[1] == 'e');
    assert("s"@.len() == 1 && s.len() > 1);
    not_begun_with(s, "catch "@, 0);
    not_begun_with(s, "breakpoint delete "@, 0);
    not_begun_with(s, "delete "@, 0);
    not_begun_with(s, "thread "@, 0);
    not_begun_with(s, "list "@, 0);
    not_begun_with(s, "bfn "@, 0);
    not_begun_with(s, "print "@, 0);
    not_begun_with(s, "p "@, 0);
    not_begun_with(s, "break "@, 0);
    not_begun_with(s, "b "@, 0);
}

/// `delete` names a breakpoint by its id.
pub proof fn delete_takes_an_id(id: u32)
    ensures
        debug_command::command_in("delete "@ + text::decimal(id as nat)) == CommandV::DeleteBreakpoint(id),
        debug_command::command_in("breakpoint delete "@ + text::decimal(id as nat)) == CommandV::DeleteBreakpoint(
            id,
        ),
{
    words_are_spelled();
    let d = text::decimal(id as nat);
    text::number_of_decimal(id as nat);
    text::parse_of_decimal(id as nat, u32::MAX as int);
    text::digits_are_trimmed(d);
    let s = "delete "@ + d;
    let t = "breakpoint delete "@ + d;
    begun_with("delete "@, d);
    begun_with("breakpoint delete "@, d);
    assert(s[0] == 'd');
    assert(t[0] == 'b' && t[1] == 'r' && t[10] == ' ');
    not_begun_with(s, "catch "@, 0);
    not_begun_with(s, "breakpoint delete "@, 0);
    not_begun_with(s, "thread "@, 0);
    not_begun_with(s, "list "@, 0);
    not_begun_with(s, "bfn "@, 0);
    not_begun_with(s, "print "@, 0);
    not_begun_with(s, "p "@, 0);
    not_begun_with(s, "set "@, 0);
    not_begun_with(s, "break "@, 0);
    not_begun_with(s, "b "@, 0);
    not_begun_with(t, "catch "@, 0);
    not_begun_with(t, "delete "@, 0);
    not_begun_with(t, "thread "@, 0);
    not_begun_with(t, "list "@, 0);
    not_begun_with(t, "bfn "@, 1);
    not_begun_with(t, "print "@, 0);
    not_begun_with(t, "p "@, 0);
    not_begun_with(t, "set "@, 0);
    not_begun_with(t, "b "@, 1);
}

/// `thread` names a thread by its number, whatever its sign.
pub proof fn thread_takes_a_number(id: i64)
    ensures
        debug_command::command_in("thread "@ + text::signed_decimal(id as int)) == CommandV::SelectThread(id),
{
    words_are_spelled();
    let d = text::signed_decimal(id as int);
    text::parse_of_signed_decimal(id as int);
    text::trimming_takes_only_white_space(d);
    let s = "thread "@ + d;
    begun_with("thread "@, d);
    assert(s[0] == 't' && s[6] == ' ' && s[7] == d[0]);
    if id >= 0 {
        text::number_of_decimal(id as nat);
        assert(text::is_digit(d[0]));
    } else {
        assert(d[0] == '-');
    }
    not_begun_with(s, "catch "@, 0);
    not_begun_with(s, "breakpoint delete "@, 0);
    not_begun_with(s, "delete "@, 0);
    not_begun_with(s, "list "@, 0);
    not_begun_with(s, "bfn "@, 0);
    not_begun_with(s, "print "@, 0);
    not_begun_with(s, "p "@, 0);
    not_begun_with(s, "set "@, 0);
    not_begun_with(s, "break "@, 0);
    not_begun_with(s, "b "@, 0);
}

/// `break` and `b` set the breakpoint that is read from them.
pub proof fn break_sets_what_is_read(s: Seq<char>)
    requires
        breakpoints::parsed_break(s) is Some,
    ensures
        debug_command::command_in(s) == CommandV::Break(breakpoints::parsed_break(s)->0),
{
    words_are_spelled();
    if text::starts_with(s, "break "@) {
        assert(s.subrange(0, 6)[0] == 'b' && s.subrange(0, 6)[1] == 'r' && s.subrange(0, 6)[5]
            == ' ');
        assert(s[0] == 'b' && s[1] == 'r' && s[5] == ' ');
        assert("backtrace"@[1] == 'a' && "bt"@[1] == 't' && "breakpoints"@[5] == 'p');
        assert("breakpoint delete "@[5] == 'p' && "bfn "@[1] == 'f');
        not_begun_with(s, "breakpoint delete "@, 5);
        not_begun_with(s, "bfn "@, 1);
    } else {
        assert(text::starts_with(s, "b "@));
        assert(s.subrange(0, 2)[0] == 'b' && s.subrange(0, 2)[1] == ' ');
        assert(s[0] == 'b' && s[1] == ' ');
        assert("backtrace"@[1] == 'a' && "bt"@[1] == 't' && "breakpoints"@[1] == 'r');
        not_begun_with(s, "breakpoint delete "@, 1);
        not_begun_with(s, "bfn "@, 1);
    }
    not_begun_with(s, "catch "@, 0);
    not_begun_with(s, "delete "@, 0);
    not_begun_with(s, "thread "@, 0);
    not_begun_with(s, "list "@, 0);
    not_begun_with(s, "print "@, 0);
    not_begun_with(s, "p "@, 0);
    not_begun_with(s, "set "@, 0);
}

/// `bfn` names a function, with a condition after ` if `.
pub proof fn bfn_names_a_function(name: Seq<char>, condition: Seq<char>)
    requires
        text::trim(name) == name,
        text::trim(condition) == condition,
        forall|j: int| 0 <= j < name.len() ==> !text::occurs_at(
            name + " if "@ + condition,
            " if "@,
            j,
        ),
        !text::contains(name, " if "@),
    ensures
        debug_command::command_in("bfn "@ + (name + " if "@ + condition)) == (CommandV::BreakFunction {
            name,
            condition: Some(condition),
        }),
        debug_command::command_in("bfn "@ + name) == (CommandV::BreakFunction { name, condition: None }),
{
    words_are_spelled();
    reveal_strlit(" if ");
    let r = name + " if "@ + condition;
    let s = "bfn "@ + r;
    let t = "bfn "@ + name;
    begun_with("bfn "@, r);
    begun_with("bfn "@, name);
    let i = name.len() as int;
    assert(r.subrange(i, i + 4) =~= " if "@);
    text::first_is_find_from(r, " if "@, 0, i);
    assert(r.take(i) =~= name);
    assert(r.skip(i + 4) =~= condition);
    assert(s[0] == 'b' && s[1] == 'f' && t[0] == 'b' && t[1] == 'f');
    not_begun_with(s, "catch "@, 0);
    not_begun_with(s, "breakpoint delete "@, 1);
    not_begun_with(s, "delete "@, 0);
    not_begun_with(s, "thread "@, 0);
    not_begun_with(s, "list "@, 0);
    not_begun_with(s, "print "@, 0);
    not_begun_with(s, "p "@, 0);
    not_begun_with(s, "set "@, 0);
    not_begun_with(s, "break "@, 1);
    not_begun_with(s, "b "@, 1);
    not_begun_with(t, "catch "@, 0);
    not_begun_with(t, "breakpoint delete "@, 1);
    not_begun_with(t, "delete "@, 0);
    not_begun_with(t, "thread "@, 0);
    not_begun_with(t, "list "@, 0);
    not_begun_with(t, "print "@, 0);
    not_begun_with(t, "p "@, 0);
    not_begun_with(t, "set "@, 0);
    not_begun_with(t, "break "@, 1);
    not_begun_with(t, "b "@, 1);
}

/// `list` takes a place to show.
pub proof fn list_takes_a_place(place: Seq<char>)
    requires
        text::trim(place) == place,
    ensures
        debug_command::command_in("list "@ + place) == CommandV::ListSource(Some(place)),
        debug_command::command_in("list"@) == CommandV::ListSource(None),
{
    words_are_spelled();
    let s = "list "@ + place;
    begun_with("list "@, place);
    assert(s[0] == 'l' && s[1] == 'i' && s[4] == ' ' && s.len() > 4);
    let t = "list"@;
    assert(t[0] == 'l' && t[1] == 'i');
    not_begun_with(s, "catch "@, 0);
    not_begun_with(s, "breakpoint delete "@, 0);
    not_begun_with(s, "delete "@, 0);
    not_begun_with(s, "thread "@, 0);
    not_begun_with(s, "bfn "@, 0);
    not_begun_with(s, "print "@, 0);
    not_begun_with(s, "p "@, 0);
    not_begun_with(s, "set "@, 0);
    not_begun_with(s, "break "@, 0);
    not_begun_with(s, "b "@, 0);
    not_begun_with(t, "catch "@, 0);
    not_begun_with(t, "breakpoint delete "@, 0);
    not_begun_with(t, "delete "@, 0);
    not_begun_with(t, "thread "@, 0);
    not_begun_with(t, "bfn "@, 0);
    not_begun_with(t, "print "@, 0);
    not_begun_with(t, "p "@, 0);
    not_begun_with(t, "set "@, 0);
    not_begun_with(t, "break "@, 0);
    not_begun_with(t, "b "@, 0);
    assert(debug_command::thread_number(t) is None);
}

/// The spellings of one command are one command, and they resume the program as
/// they say.
pub proof fn words_resume_the_program()
    ensures
        debug_command::command_in("cont"@) == CommandV::Execute(Execution::Continue),
        debug_command::command_in("c"@) == CommandV::Execute(Execution::Continue),
        debug_command::command_in("continue"@) == CommandV::Execute(Execution::Continue),
        debug_command::command_in("step"@) == CommandV::Execute(Execution::StepIn),
        debug_command::command_in("s"@) == CommandV::Execute(Execution::StepIn),
        debug_command::command_in("stepi"@) == CommandV::Execute(Execution::StepIn),
        debug_command::command_in("next"@) == CommandV::Execute(Execution::Next),
        debug_command::command_in("n"@) == CommandV::Execute(Execution::Next),
        debug_command::command_in("out"@) == CommandV::Execute(Execution::StepOut),
        debug_command::command_in("finish"@) == CommandV::Execute(Execution::StepOut),
        debug_command::command_in("pause"@) is Pause,
        debug_command::command_in("restart"@) is Restart,
        debug_command::execution_command(Execution::Continue) == "continue"@,
        debug_command::execution_command(Execution::StepIn) == "stepIn"@,
        debug_command::execution_command(Execution::Next) == "next"@,
        debug_command::execution_command(Execution::StepOut) == "stepOut"@,
{
    words_are_spelled();
}

/// An assignment is parted at its first `=`, and the white space around the two
/// sides does not count.
pub proof fn an_assignment_is_parted_at_its_first_sign(lhs: Seq<char>, rhs: Seq<char>)
    requires
        !lhs.contains('='),
        text::trim(lhs).len() > 0,
        text::trim(rhs).len() > 0,
    ensures
        debug_command::assignment(lhs + "="@ + rhs) == Some((text::trim(lhs), text::trim(rhs))),
{
    reveal_strlit("=");
    let s = lhs + "="@ + rhs;
    let i = lhs.len() as int;
    assert(s.subrange(i, i + 1) =~= "="@);
    assert forall|j: int| 0 <= j < i implies !text::occurs_at(s, "="@, j) by {
        if text::occurs_at(s, "="@, j) {
            assert(s.subrange(j, j + 1)[0] == '=');
            assert(lhs[j] == '=');
        }
    }
    text::first_is_find_from(s, "="@, 0, i);
    assert(s.take(i) =~= lhs);
    assert(s.skip(i + 1) =~= rhs);
}

/// `list` shows the place that it is given, or the innermost frame's.
pub proof fn list_shows_the_place_or_the_frame(
    file: Seq<char>,
    line: u32,
    frame: Map<Seq<char>, JsonV>,
    source: Map<Seq<char>, JsonV>,
    frames: Seq<JsonV>,
)
    requires
        text::trim(file) == file,
        frames.len() > 0,
        frames[0] == JsonV::Object(frame),
        frame.contains_pair("line"@, JsonV::Int(line as int)),
        frame.contains_pair("source"@, JsonV::Object(source)),
        source.contains_pair("path"@, JsonV::Str(file)),
    ensures
        debug_command::list_location(Some(file + ":"@ + text::decimal(line as nat)), frames) == Ok::<
            (Seq<char>, u32),
            ListError,
        >((file, line)),
        debug_command::list_location(None, frames) == Ok::<(Seq<char>, u32), ListError>((file, line)),
{
    reveal_strlit(":");
    let digits = text::decimal(line as nat);
    let s = file + ":"@ + digits;
    let i = file.len() as int;
    text::number_of_decimal(line as nat);
    text::parse_of_decimal(line as nat, u32::MAX as int);
    text::digits_are_trimmed(digits);
    assert(s.subrange(i, i + 1) =~= ":"@);
    assert(text::occurs_at(s, ":"@, i));
    text::rfind_from_is_last(s, ":"@, s.len() - 1);
    assert forall|j: int| i < j <= s.len() - 1 implies !text::occurs_at(s, ":"@, j) by {
        assert(text::is_digit(digits[j - i - 1]));
        if text::occurs_at(s, ":"@, j) {
            assert(s.subrange(j, j + 1)[0] == ':');
        }
    }
    assert(s.take(i) =~= file);
    assert(s.skip(i + 1) =~= digits);
}

/// The listing shows the lines up to ten before and ten after the one that is
/// asked for, as far as there are lines, each with its own number; only the one
/// that is asked for is marked.
pub proof fn a_listing_reaches_ten_lines_both_ways(source: Seq<char>, center: int)
    requires
        0 < center <= text::lines(source).len(),
    ensures
        exists|from: int, to: int|
            {
                &&& 1 <= from <= center <= to <= text::lines(source).len()
                &&& center - from <= 10 && (from == 1 || center - from == 10)
                &&& to - center <= 10 && (to == text::lines(source).len() || to - center == 10)
                &&& debug_command::source_window(source, center) == #[trigger] debug_command::source_lines(
                    text::lines(source),
                    from,
                    to,
                    center,
                )
            },
{
    let lines = text::lines(source);
    let from = if center > 11 {
        center - 10
    } else {
        1
    };
    let to = if center + 10 < lines.len() {
        center + 10
    } else {
        lines.len() as int
    };
    assert(debug_command::source_window(source, center) == debug_command::source_lines(lines, from, to, center));
}

/// A listing is made of its lines: the line that is asked for is marked with an
/// arrow, and any other is not; a number stands before each.
pub proof fn a_listing_is_made_of_its_lines(
    lines: Seq<Seq<char>>,
    from: int,
    mid: int,
    to: int,
    center: int,
)
    requires
        from <= mid <= to + 1,
    ensures
        debug_command::source_lines(lines, from, to, center) == debug_command::source_lines(lines, from, mid - 1, center)
            + debug_command::source_lines(lines, mid, to, center),
        debug_command::source_lines(lines, center, center, center) == "->"@ + " "@ + text::pad_left(
            text::decimal(center as nat),
            5,
        ) + "  "@ + lines[center - 1] + "\n"@,
        mid != center ==> debug_command::source_lines(lines, mid, mid, center) == "  "@ + " "@ + text::pad_left(
            text::decimal(mid as nat),
            5,
        ) + "  "@ + lines[mid - 1] + "\n"@,
    decreases to - mid + 1,
{
    reveal_with_fuel(debug_command::source_lines, 2);
    assert(Seq::<char>::empty() + debug_command::source_line(lines[center - 1], center, center) =~= debug_command::source_line(
        lines[center - 1],
        center,
        center,
    ));
    assert(Seq::<char>::empty() + debug_command::source_line(lines[mid - 1], mid, center) =~= debug_command::source_line(
        lines[mid - 1],
        mid,
        center,
    ));
    if mid <= to {
        a_listing_is_made_of_its_lines(lines, from, mid, to - 1, center);
        assert(debug_command::source_lines(lines, from, mid - 1, center) + (debug_command::source_lines(
            lines,
            mid,
            to - 1,
            center,
        ) + debug_command::source_line(lines[to - 1], to, center)) =~= debug_command::source_lines(lines, from, mid - 1, center)
            + debug_command::source_lines(lines, mid, to - 1, center) + debug_command::source_line(lines[to - 1], to, center));
    } else {
        assert(debug_command::source_lines(lines, from, to, center) + Seq::<char>::empty() =~= debug_command::source_lines(
            lines,
            from,
            to,
            center,
        ));
    }
}

/// A frame has its line in the backtrace, under its number: its name, its file
/// and its line.
pub proof fn every_frame_is_in_the_backtrace(
    frames: Seq<JsonV>,
    i: int,
    frame: Map<Seq<char>, JsonV>,
    source: Map<Seq<char>, JsonV>,
    name: Seq<char>,
    path: Seq<char>,
    line: u32,
)
    requires
        0 <= i < frames.len(),
        frames[i] == JsonV::Object(frame),
        frame.contains_pair("name"@, JsonV::Str(name)),
        frame.contains_pair("line"@, JsonV::Int(line as int)),
        frame.contains_pair("source"@, JsonV::Object(source)),
        source.contains_pair("path"@, JsonV::Str(path)),
    ensures
        text::contains(
            debug_command::backtrace(frames),
            "#"@ + text::decimal(i as nat) + " "@ + name + " at "@ + path + ":"@ + text::decimal(
                line as nat,
            ),
        ),
{
    let want = "#"@ + text::decimal(i as nat) + " "@ + name + " at "@ + path + ":"@ + text::decimal(
        line as nat,
    );
    reveal_strlit("\n");
    assert(debug_command::frame_line(i, frames[i]) =~= want + "\n"@);
    let at = line_in_frames(frames, i);
    let all = debug_command::frame_lines(frames);
    frames_end_with_a_number(frames);
    let shown = all.drop_last();
    assert(text::is_white('\n'));
    assert(text::trim_end(all) == text::trim_end(shown));
    assert(text::trim_end(shown) == shown);
    let l = debug_command::frame_line(i, frames[i]);
    assert(l.len() == want.len() + 1);
    assert(all.subrange(at, at + l.len()) == want + "\n"@);
    assert(shown.subrange(at, at + want.len()) =~= (want + "\n"@).take(want.len() as int));
    assert((want + "\n"@).take(want.len() as int) =~= want);
    assert(text::occurs_at(shown, want, at));
    text::found_where_it_stands(shown, want, at);
}

proof fn line_in_frames(frames: Seq<JsonV>, i: int) -> (at: int)
    requires
        0 <= i < frames.len(),
    ensures
        0 <= at,
        at + debug_command::frame_line(i, frames[i]).len() <= debug_command::frame_lines(frames).len(),
        debug_command::frame_lines(frames).subrange(at, at + debug_command::frame_line(i, frames[i]).len()) == debug_command::frame_line(
            i,
            frames[i],
        ),
    decreases frames.len(),
{
    let front = debug_command::frame_lines(frames.drop_last());
    let last = debug_command::frame_line(frames.len() - 1, frames.last());
    let all = front + last;
    if i == frames.len() - 1 {
        assert(all.subrange(front.len() as int, (front.len() + last.len()) as int) =~= last);
        front.len() as int
    } else {
        let at = line_in_frames(frames.drop_last(), i);
        let l = debug_command::frame_line(i, frames[i]);
        assert(all.subrange(at, at + l.len()) =~= front.subrange(at, at + l.len()));
        at
    }
}

proof fn frames_end_with_a_number(frames: Seq<JsonV>)
    requires
        frames.len() > 0,
    ensures
        ({
            let all = debug_command::frame_lines(frames);
            &&& all.len() > 1
            &&& all.last() == '\n'
            &&& !text::is_white(all.drop_last().last())
        }),
{
    let frame = frames.last();
    let n: nat = match json::u64_of(json::field(frame, "line"@)) {
        Some(n) => n as nat,
        None => 0,
    };
    let d = text::decimal(n);
    text::number_of_decimal(n);
    reveal_strlit("\n");
    let all = debug_command::frame_lines(frames);
    assert(all.last() == '\n');
    assert(all.drop_last().last() == d.last());
    assert(text::is_digit(d[d.len() - 1]));
}

proof fn filters_after(a: Seq<char>, s: Seq<char>, i: int)
    requires
        0 <= i <= s.len(),
    ensures
        debug_command::skip_separators(a + s, a.len() + i) == a.len() + debug_command::skip_separators(s, i),
        debug_command::skip_filter(a + s, a.len() + i) == a.len() + debug_command::skip_filter(s, i),
        i <= debug_command::skip_separators(s, i) <= s.len(),
        i <= debug_command::skip_filter(s, i) <= s.len(),
    decreases s.len() - i,
{
    if i < s.len() {
        filters_after(a, s, i + 1);
        assert((a + s)[a.len() + i] == s[i]);
    }
}

proof fn filter_lists_after(a: Seq<char>, s: Seq<char>, i: int)
    requires
        0 <= i <= s.len(),
    ensures
        debug_command::filters_from(a + s, a.len() + i) == debug_command::filters_from(s, i),
    decreases s.len() - i,
{
    let n = a.len() as int;
    filters_after(a, s, i);
    let x = debug_command::skip_separators(s, i);
    filters_after(a, s, x);
    let y = debug_command::skip_filter(s, x);
    if i <= x < y <= s.len() {
        assert((a + s).subrange(n + x, n + y) =~= s.subrange(x, y));
        filter_lists_after(a, s, y);
    }
}

proof fn filter_ends(s: Seq<char>, i: int, k: int)
    requires
        0 <= i <= k <= s.len(),
        forall|j: int| i <= j < k ==> !debug_command::is_separator(#[trigger] s[j]),
        k < s.len() ==> debug_command::is_separator(s[k]),
    ensures
        debug_command::skip_filter(s, i) == k,
    decreases k - i,
{
    if i < k {
        filter_ends(s, i + 1, k);
    }
}

/// Exception filters are parted by blanks and commas: a filter that is followed
/// by one is the first, and the rest is read on.
pub proof fn filters_are_parted_by_blanks_and_commas(
    filter: Seq<char>,
    separator: char,
    rest: Seq<char>,
)
    requires
        filter.len() > 0,
        forall|i: int| 0 <= i < filter.len() ==> !debug_command::is_separator(#[trigger] filter[i]),
        separator == ' ' || separator == ',',
    ensures
        debug_command::filters_from(filter + seq![separator] + rest, 0) == seq![filter] + debug_command::filters_from(rest, 0),
        debug_command::filters_from(filter, 0) == seq![filter],
        debug_command::filters_from(seq![separator] + rest, 0) == debug_command::filters_from(rest, 0),
{
    let s = filter + seq![separator] + rest;
    let n = filter.len() as int;
    assert(s[0] == filter[0]);
    assert forall|j: int| 0 <= j < n implies !debug_command::is_separator(#[trigger] s[j]) by {
        assert(s[j] == filter[j]);
    }
    assert(s[n] == separator);
    filter_ends(s, 0, n);
    assert(debug_command::skip_separators(s, 0) == 0);
    assert(s.subrange(0, n) =~= filter);
    let tail = seq![separator] + rest;
    assert(s =~= filter + tail);
    filter_lists_after(filter, tail, 0);
    assert(tail[0] == separator);
    filter_lists_after(seq![separator], rest, 0);
    filters_after(seq![separator], rest, 0);
    assert(debug_command::skip_separators(tail, 0) == debug_command::skip_separators(tail, 1));
    filters_after(Seq::empty(), tail, 1);
    filters_after(Seq::empty(), tail, debug_command::skip_separators(tail, 1));
    assert(debug_command::filters_from(tail, 0) == debug_command::filters_from(tail, 1));
    filter_ends(filter, 0, n);
    assert(filter[0] == filter[0]);
    assert(debug_command::skip_separators(filter, 0) == 0);
    assert(filter.subrange(0, n) =~= filter);
    assert(debug_command::filters_from(filter, n) =~= Seq::empty());
    assert(seq![filter] + Seq::<Seq<char>>::empty() =~= seq![filter]);
}

/// Scopes add up in their order: one with variables counts by its reference, and
/// one without any does not; where only locals are wanted the globals do not
/// count.
pub proof fn scopes_count_by_their_references(
    before: Seq<JsonV>,
    scope: Map<Seq<char>, JsonV>,
    reference: i64,
    locals_only: bool,
)
    requires
        scope.contains_pair("variablesReference"@, JsonV::Int(reference as int)),
    ensures
        reference == 0 ==> debug_command::references(before.push(JsonV::Object(scope)), locals_only) == debug_command::references(
            before,
            locals_only,
        ),
        reference != 0 && !locals_only ==> debug_command::references(
            before.push(JsonV::Object(scope)),
            locals_only,
        ) == debug_command::references(before, locals_only).push(reference as int),
        locals_only && scope.contains_pair("name"@, JsonV::Str("Globals"@)) ==> debug_command::references(
            before.push(JsonV::Object(scope)),
            locals_only,
        ) == debug_command::references(before, locals_only),
        locals_only && scope.contains_pair("presentationHint"@, JsonV::Str("registers"@))
            ==> debug_command::references(before.push(JsonV::Object(scope)), locals_only) == debug_command::references(
            before,
            locals_only,
        ),
        reference != 0 && locals_only && scope.contains_pair("name"@, JsonV::Str("Locals"@))
            && !scope.dom().contains("presentationHint"@) && !text::contains(
            debug_command::lowercase_text("Locals"@),
            "register"@,
        ) ==> debug_command::references(before.push(JsonV::Object(scope)), locals_only) == debug_command::references(
            before,
            locals_only,
        ).push(reference as int),
{
    let all = before.push(JsonV::Object(scope));
    assert(all.drop_last() =~= before);
    assert(all.last() == JsonV::Object(scope));
    reveal_strlit("Globals");
    reveal_strlit("globals");
    reveal_strlit("global");
    reveal_strlit("Locals");
    reveal_strlit("registers");
    assert(text::lowered("Globals"@) =~= "globals"@);
    assert(text::lowered("registers"@) =~= "registers"@);
    let locals = text::lowered("Locals"@);
    assert(locals[0] == 'l');
    let none = text::lowered(Seq::<char>::empty());
    assert(none.len() == 0 && "registers"@.len() == 9);
}

/// A variable is shown with its value, under its name; the first of a name
/// counts, and what was known before stays.
pub proof fn a_local_is_shown_with_its_value(
    m: Map<Seq<char>, JsonV>,
    before: Seq<JsonV>,
    variable: Map<Seq<char>, JsonV>,
    name: Seq<char>,
    value: Seq<char>,
)
    requires
        variable.contains_pair("name"@, JsonV::Str(name)),
        variable.contains_pair("value"@, JsonV::Str(value)),
        name.len() > 0,
    ensures
        ({
            let known = debug_command::with_locals(m, before);
            let after = debug_command::with_locals(m, before.push(JsonV::Object(variable)));
            &&& !known.dom().contains(name) ==> after == known.insert(name, JsonV::Str(value))
            &&& known.dom().contains(name) ==> after == known
        }),
        debug_command::with_locals(m, Seq::empty()) == m,
{
    let all = before.push(JsonV::Object(variable));
    assert(all.drop_last() =~= before);
    assert(all.last() == JsonV::Object(variable));
}

/// The threads of a reply are those that it numbers, in its order.
pub proof fn threads_are_those_of_the_reply(
    before: Seq<JsonV>,
    thread: Map<Seq<char>, JsonV>,
    id: i64,
    name: Seq<char>,
    current: Option<i64>,
)
    requires
        thread.contains_pair("id"@, JsonV::Int(id as int)),
        thread.contains_pair("name"@, JsonV::Str(name)),
    ensures
        debug_command::thread_ids(before.push(JsonV::Object(thread))) == debug_command::thread_ids(before).push(id as int),
        debug_command::thread_lines(before.push(JsonV::Object(thread)), current) == debug_command::thread_lines(before, current)
            + (if current == Some(id) {
            "*"@
        } else {
            " "@
        }) + " "@ + text::signed_decimal(id as int) + "  "@ + name + "\n"@,
        debug_command::thread_ids(Seq::empty()).len() == 0,
{
    let all = before.push(JsonV::Object(thread));
    assert(all.drop_last() =~= before);
    assert(all.last() == JsonV::Object(thread));
    let l = debug_command::thread_line(JsonV::Object(thread), current);
    assert(debug_command::thread_lines(before, current) + l =~= debug_command::thread_lines(before, current) + (if current
        == Some(id) {
        "*"@
    } else {
        " "@
    }) + " "@ + text::signed_decimal(id as int) + "  "@ + name + "\n"@);
}

/// An expression is evaluated in the innermost frame.
pub proof fn expressions_belong_to_the_innermost_frame(
    s: session::StateV,
    frame: Map<Seq<char>, JsonV>,
    id: i64,
    m: Map<Seq<char>, JsonV>,
)
    requires
        s.top_frame == Some(JsonV::Object(frame)),
        frame.contains_pair("id"@, JsonV::Int(id as int)),
    ensures
        debug_command::frame_id_of(s) == Some(id as int),
        debug_command::with_frame(m, debug_command::frame_id_of(s)) == m.insert("frameId"@, JsonV::Int(id as int)),
{
}

/// An execution request goes to the current thread, or to the first one where
/// there is none, and begins a new execution that no earlier stop belongs to.
pub proof fn execution_goes_to_the_current_thread(s: session::StateV, e: Execution)
    ensures
        ({
            let (after, step) = course::begun(s, CommandV::Execute(e));
            let thread = match s.current_thread {
                Some(t) => t as int,
                None => 1,
            };
            &&& step == (StepV::Execute {
                command: debug_command::execution_command(e),
                arguments: JsonV::Object(map!["threadId"@ => JsonV::Int(thread)]),
            })
            &&& after.action_generation != s.action_generation
            &&& after.current_thread == s.current_thread
            &&& after.breakpoints == s.breakpoints
            &&& after.call_frames == s.call_frames
        }),
{
}

/// A printed expression is evaluated in the innermost frame, and the answer is
/// the result that the adapter gives.
pub proof fn printing_answers_with_the_result(
    s: session::StateV,
    expression: Seq<char>,
    frame: Map<Seq<char>, JsonV>,
    id: i64,
    reply: Map<Seq<char>, JsonV>,
    result: Seq<char>,
)
    requires
        s.top_frame == Some(JsonV::Object(frame)),
        frame.contains_pair("id"@, JsonV::Int(id as int)),
        reply.contains_pair("result"@, JsonV::Str(result)),
    ensures
        ({
            let (after, step) = course::begun(s, CommandV::Print(expression));
            &&& after == s
            &&& step is Call
            &&& step->Call_command == "evaluate"@
            &&& step->Call_arguments == JsonV::Object(
                map![
                    "expression"@ => JsonV::Str(expression),
                    "context"@ => JsonV::Str("repl"@),
                    "frameId"@ => JsonV::Int(id as int),
                ],
            )
            &&& course::resumed(after, step->Call_next, Ok(JsonV::Object(reply))) == (
                s,
                StepV::Done(result),
            )
        }),
{
}

/// An assignment is made in the innermost frame, and the answer is the value
/// that the adapter gives back.
pub proof fn assigning_answers_with_the_value(
    s: session::StateV,
    lhs: Seq<char>,
    rhs: Seq<char>,
    reply: Map<Seq<char>, JsonV>,
    value: Seq<char>,
)
    requires
        s.top_frame is None,
        !lhs.contains('='),
        text::trim(lhs) == lhs,
        text::trim(rhs) == rhs,
        lhs.len() > 0,
        rhs.len() > 0,
        reply.contains_pair("value"@, JsonV::Str(value)),
    ensures
        ({
            let (after, step) = course::begun(s, CommandV::Assign(lhs + "="@ + rhs));
            &&& after == s
            &&& step is Call
            &&& step->Call_command == "setExpression"@
            &&& step->Call_arguments == JsonV::Object(
                map!["expression"@ => JsonV::Str(lhs), "value"@ => JsonV::Str(rhs)],
            )
            &&& course::resumed(after, step->Call_next, Ok(JsonV::Object(reply))) == (
                s,
                StepV::Done(value),
            )
        }),
{
    an_assignment_is_parted_at_its_first_sign(lhs, rhs);
}

/// Selecting a thread makes it the current one and asks for its frames, which
/// are then the ones that are shown.
pub proof fn selecting_a_thread_shows_its_frames(
    s: session::StateV,
    id: i64,
    reply: Map<Seq<char>, JsonV>,
    frames: Seq<JsonV>,
)
    requires
        reply.contains_pair("stackFrames"@, JsonV::Array(frames)),
        frames.len() > 0,
    ensures
        ({
            let (after, step) = course::begun(s, CommandV::SelectThread(id));
            let (end, last) = course::resumed(after, step->Call_next, Ok(JsonV::Object(reply)));
            &&& step is Call
            &&& step->Call_command == "stackTrace"@
            &&& step->Call_arguments->Object_0.contains_pair("threadId"@, JsonV::Int(id as int))
            &&& end.current_thread == Some(id)
            &&& end.call_frames == frames
            &&& end.top_frame == Some(frames[0])
            &&& last is Done
        }),
{
    reveal_strlit("threadId");
    reveal_strlit("startFrame");
    reveal_strlit("levels");
    assert("threadId"@.len() == 8 && "startFrame"@.len() == 10 && "levels"@.len() == 6);
}

/// A pause stops the current thread, or every thread that the adapter knows
/// where none is current.
pub proof fn a_pause_stops_the_current_thread_or_all(
    s: session::StateV,
    reply: Map<Seq<char>, JsonV>,
    threads: Seq<JsonV>,
)
    requires
        reply.contains_pair("threads"@, JsonV::Array(threads)),
        debug_command::thread_ids(threads).len() > 0,
    ensures
        s.current_thread matches Some(t) ==> course::begun(s, CommandV::Pause).1 == StepV::Pause(
            seq![t as int],
        ),
        s.current_thread is None ==> {
            let (after, step) = course::begun(s, CommandV::Pause);
            &&& after == s
            &&& step is Call
            &&& step->Call_command == "threads"@
            &&& course::resumed(after, step->Call_next, Ok(JsonV::Object(reply))).1
                == StepV::Pause(debug_command::thread_ids(threads))
        },
{
}

/// The adapter is told the filters that a `catch` names, in their order, and
/// none where it is switched off.
pub proof fn catching_tells_the_filters(s: session::StateV, filters: Seq<Seq<char>>)
    ensures
        ({
            let step = course::begun(s, CommandV::Catch(filters)).1;
            let told = step->Call_arguments->Object_0["filters"@]->Array_0;
            &&& step is Call
            &&& step->Call_command == "setExceptionBreakpoints"@
            &&& told.len() == filters.len()
            &&& forall|i: int|
                0 <= i < filters.len() ==> #[trigger] told[i] == JsonV::Str(filters[i])
        }),
        ({
            let step = course::begun(s, CommandV::CatchNothing).1;
            &&& step is Call
            &&& step->Call_command == "setExceptionBreakpoints"@
            &&& step->Call_arguments->Object_0["filters"@]->Array_0.len() == 0
        }),
{
}

/// The locals are those of the innermost frame's own scopes; without a frame
/// there are none to show.
pub proof fn locals_are_asked_of_the_innermost_frame(
    s: session::StateV,
    frame: Map<Seq<char>, JsonV>,
    id: i64,
    reply: Map<Seq<char>, JsonV>,
    scopes: Seq<JsonV>,
)
    requires
        s.top_frame == Some(JsonV::Object(frame)),
        frame.contains_pair("id"@, JsonV::Int(id as int)),
        reply.contains_pair("scopes"@, JsonV::Array(scopes)),
        debug_command::references(scopes, true).len() > 0,
    ensures
        ({
            let (after, step) = course::begun(s, CommandV::Locals);
            let (end, next) = course::resumed(after, step->Call_next, Ok(JsonV::Object(reply)));
            &&& after == s
            &&& step is Call
            &&& step->Call_command == "scopes"@
            &&& step->Call_arguments == JsonV::Object(map!["frameId"@ => JsonV::Int(id as int)])
            &&& end == s
            &&& next is Call
            &&& next->Call_command == "variables"@
            &&& next->Call_arguments == JsonV::Object(
                map![
                    "variablesReference"@ => JsonV::Int(
                        debug_command::references(scopes, true)[0],
                    ),
                ],
            )
        }),
        course::begun(session::StateV { top_frame: None, ..s }, CommandV::Locals).1 is Failed,
{
}

/// A pause that timed out names the threads that were asked; any other failure
/// is told as it is; and a stop is told as one.
pub proof fn a_pause_tells_how_it_ended(
    ids: Seq<i64>,
    debuggee: Option<u32>,
    error: Seq<char>,
)
    ensures
        course::paused(Ok(()), ids, debuggee) == Ok::<Seq<char>, Seq<char>>("paused"@),
        !text::contains(error, "timeout waiting for stopped event"@) ==> course::paused(
            Err(error),
            ids,
            debuggee,
        ) == Err::<Seq<char>, Seq<char>>(error),
        text::contains(error, "timeout waiting for stopped event"@) ==> course::paused(
            Err(error),
            ids,
            debuggee,
        ) == Err::<Seq<char>, Seq<char>>(debug_command::pause_timeout_text(ids, debuggee)),
{
}

/// An adapter that does not know how to set an expression is asked for the
/// scopes of the innermost frame instead; any other error ends the command.
pub proof fn an_unknown_request_leads_to_the_scopes(
    s: session::StateV,
    lhs: Seq<char>,
    rhs: Seq<char>,
    error: Seq<char>,
    frame: Map<Seq<char>, JsonV>,
    id: i64,
)
    requires
        s.top_frame == Some(JsonV::Object(frame)),
        frame.contains_pair("id"@, JsonV::Int(id as int)),
    ensures
        ({
            let (after, step) = course::resumed(s, TaskV::Assign { lhs, rhs }, Err(error));
            let lower = debug_command::lowercase_text(error);
            &&& after == s
            &&& text::contains(lower, "not yet implemented"@) || text::contains(
                lower,
                "unsupported"@,
            ) || text::contains(lower, "not supported"@) || text::contains(
                lower,
                "unknown command"@,
            ) || text::contains(lower, "request failed"@) ==> step == (StepV::Call {
                command: "scopes"@,
                arguments: JsonV::Object(map!["frameId"@ => JsonV::Int(id as int)]),
                next: TaskV::Scopes { lhs, rhs },
            })
            &&& !(text::contains(lower, "not yet implemented"@) || text::contains(
                lower,
                "unsupported"@,
            ) || text::contains(lower, "not supported"@) || text::contains(
                lower,
                "unknown command"@,
            ) || text::contains(lower, "request failed"@)) ==> step == StepV::Failed(error)
        }),
{
}

/// The variable is set in the first scope that holds it, by its name and with
/// the new value; a scope without it is passed over, and the command fails
/// where no scope is left.
pub proof fn a_variable_is_set_in_the_scope_that_holds_it(
    s: session::StateV,
    lhs: Seq<char>,
    rhs: Seq<char>,
    reference: int,
    left: Seq<int>,
    reply: Map<Seq<char>, JsonV>,
    variables: Seq<JsonV>,
    i: int,
)
    requires
        reply.contains_pair("variables"@, JsonV::Array(variables)),
    ensures
        ({
            let (after, step) = course::resumed(
                s,
                TaskV::Variables { lhs, rhs, reference, left },
                Ok(JsonV::Object(reply)),
            );
            &&& after == s
            &&& 0 <= i < variables.len() && variables[i] is Object
                && variables[i]->Object_0.contains_pair("name"@, JsonV::Str(lhs)) ==> {
                &&& step is Call
                &&& step->Call_command == "setVariable"@
                &&& step->Call_arguments == JsonV::Object(
                    map![
                        "variablesReference"@ => JsonV::Int(reference),
                        "name"@ => JsonV::Str(lhs),
                        "value"@ => JsonV::Str(rhs),
                    ],
                )
            }
            &&& variables.len() == 0 && left.len() > 0 ==> step == (StepV::Call {
                command: "variables"@,
                arguments: JsonV::Object(map!["variablesReference"@ => JsonV::Int(left[0])]),
                next: TaskV::Variables { lhs, rhs, reference: left[0], left: left.skip(1) },
            })
            &&& variables.len() == 0 && left.len() == 0 ==> step == StepV::Failed(
                "variable `"@ + lhs + "` not found in any frame scope"@,
            )
        }),
{
    let body = JsonV::Object(reply);
    assert(debug_command::list_in(body, "variables"@) == variables);
    if 0 <= i < variables.len() && variables[i] is Object && variables[i]->Object_0.contains_pair(
        "name"@,
        JsonV::Str(lhs),
    ) {
        assert(json::str_of(
            json::field(debug_command::list_in(body, "variables"@)[i], "name"@),
        ) == Some(lhs));
    }
}

/// A breakpoint that does not exist is not deleted, and there is none of id
/// zero: the table stays as it was, and the answer says why.
pub proof fn nothing_is_deleted_without_its_id(
    s: session::StateV,
    after: session::StateV,
    id: u32,
    cwd: Option<Seq<char>>,
    r: StepV,
)
    requires
        course::change_begins(s, after, CommandV::DeleteBreakpoint(id), cwd, r),
        id == 0 || !breakpoints::id_used(s.breakpoints, id as int),
    ensures
        after == s,
        id == 0 ==> r == StepV::Failed("delete: breakpoint ids start at 1"@),
        id != 0 ==> r == StepV::Failed(
            "delete: no breakpoint id "@ + text::decimal(id as nat)
                + "; run `dbg breaks` to list ids"@,
        ),
{
}

/// The threads of the adapter are listed alone, unless the operating system
/// shows more of them: then a note tells both numbers.
pub proof fn more_threads_of_the_system_are_noted(
    threads: Seq<JsonV>,
    os_threads: Seq<i64>,
    current: Option<i64>,
    pid: u32,
)
    requires
        threads.len() > 0,
    ensures
        debug_command::thread_listing(threads, os_threads, current, None) == text::trim_end(
            debug_command::thread_lines(threads, current),
        ),
        os_threads.len() <= threads.len() ==> debug_command::thread_listing(
            threads,
            os_threads,
            current,
            Some(pid),
        ) == text::trim_end(debug_command::thread_lines(threads, current)),
        os_threads.len() > threads.len() ==> debug_command::thread_listing(
            threads,
            os_threads,
            current,
            Some(pid),
        ) == text::trim_end(
            debug_command::thread_lines(threads, current) + "(note: adapter exposed "@
                + text::decimal(threads.len()) + " DAP thread(s), but /proc/"@ + text::decimal(
                pid as nat,
            ) + "/task has "@ + text::decimal(os_threads.len())
                + " OS thread(s); only DAP ids are switchable)\n"@,
        ),
        debug_command::thread_listing(Seq::empty(), Seq::empty(), current, Some(pid))
            == "(no threads)"@,
{
}

/// Every thread that only the system shows has its line.
pub proof fn every_thread_of_the_system_has_a_line(ids: Seq<i64>, id: i64)
    ensures
        debug_command::os_thread_lines(ids.push(id)) == debug_command::os_thread_lines(ids) + "  "@
            + text::signed_decimal(id as int) + "  <os thread>\n"@,
        debug_command::os_thread_lines(Seq::empty()).len() == 0,
{
    assert(ids.push(id).drop_last() == ids);
}

/// Where there is nothing to stop, a pause says so and nothing is numbered;
/// without frames a backtrace says that the program is not paused.
pub proof fn nothing_to_pause_is_told(s: session::StateV)
    ensures
        course::pausing(s, Seq::empty()) == (
            s,
            StepV::Failed("pause: adapter reported no DAP threads to pause"@),
        ),
        debug_command::backtrace(Seq::empty()) == "(no frames — program not paused)"@,
{
}

} // verus!
