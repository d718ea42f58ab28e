//! What holds of the call that is open at the end of every line.

use vstd::prelude::*;

use crate::chars::trim_end_of;
use crate::utils::{
    angle_excess, call_at_end, called_name, closing_depth, generics_begin, innermost_call,
    is_name_char, name_at_end, opens_call, separates, separators, skip_colons, strip_generics,
    strip_path_separator,
};

verus! {

/// Whether a character is none of the brackets.
pub open spec fn is_no_bracket(c: char) -> bool {
    c != '(' && c != ')' && c != '[' && c != ']' && c != '<' && c != '>'
}

/// Whether two characters are an opening bracket and the one that closes it.
pub open spec fn is_pair(open_char: char, close: char) -> bool {
    ||| open_char == '(' && close == ')'
    ||| open_char == '[' && close == ']'
    ||| open_char == '<' && close == '>'
}

/// Whether no bracket of a text waits for one before the text.
spec fn closes_nothing(text: Seq<char>) -> bool {
    &&& closing_depth(text, 0, '(', ')') == 0
    &&& closing_depth(text, 0, '[', ']') == 0
    &&& closing_depth(text, 0, '<', '>') == 0
}

proof fn lemma_depth_behind(
    line: Seq<char>,
    more: Seq<char>,
    at: int,
    open_char: char,
    close: char,
)
    requires
        0 <= at <= more.len(),
    ensures
        closing_depth(line + more, line.len() + at, open_char, close) == closing_depth(
            more,
            at,
            open_char,
            close,
        ),
    decreases more.len() - at,
{
    if at < more.len() {
        lemma_depth_behind(line, more, at + 1, open_char, close);
        assert((line + more)[line.len() + at] == more[at]);
    }
}

proof fn lemma_depth_before(
    line: Seq<char>,
    more: Seq<char>,
    at: int,
    open_char: char,
    close: char,
)
    requires
        0 <= at <= line.len(),
        closing_depth(more, 0, open_char, close) == 0,
    ensures
        closing_depth(line + more, at, open_char, close) == closing_depth(
            line,
            at,
            open_char,
            close,
        ),
    decreases line.len() - at,
{
    if at < line.len() {
        lemma_depth_before(line, more, at + 1, open_char, close);
        assert((line + more)[at] == line[at]);
    } else {
        lemma_depth_behind(line, more, 0, open_char, close);
    }
}

proof fn lemma_separators_behind(line: Seq<char>, more: Seq<char>, at: int)
    requires
        0 <= at <= more.len(),
    ensures
        separators(line + more, line.len() + at) == separators(more, at),
    decreases more.len() - at,
{
    if at < more.len() {
        lemma_separators_behind(line, more, at + 1);
        assert((line + more)[line.len() + at] == more[at]);
        lemma_depth_behind(line, more, at + 1, '(', ')');
        lemma_depth_behind(line, more, at + 1, '[', ']');
        lemma_depth_behind(line, more, at + 1, '<', '>');
        assert(separates(line + more, line.len() + at) == separates(more, at));
    }
}

proof fn lemma_separators_before(line: Seq<char>, more: Seq<char>, at: int)
    requires
        0 <= at <= line.len(),
        closes_nothing(more),
    ensures
        separators(line + more, at) == separators(line, at) + separators(more, 0),
    decreases line.len() - at,
{
    if at < line.len() {
        lemma_separators_before(line, more, at + 1);
        assert((line + more)[at] == line[at]);
        lemma_depth_before(line, more, at + 1, '(', ')');
        lemma_depth_before(line, more, at + 1, '[', ']');
        lemma_depth_before(line, more, at + 1, '<', '>');
        assert(separates(line + more, at) == separates(line, at));
    } else {
        lemma_separators_behind(line, more, 0);
    }
}

/// A text that leaves no call open, and closes none, adds its own separators.
proof fn lemma_call_goes_on(line: Seq<char>, more: Seq<char>)
    requires
        closes_nothing(more),
        forall|k: int| !#[trigger] opens_call(more, k),
    ensures
        call_at_end(line + more) == (match call_at_end(line) {
            Some((name, index)) => Some((name, index + separators(more, 0))),
            None => None,
        }),
{
    let whole = line + more;
    assert forall|k: int| 0 <= k < line.len() implies #[trigger] opens_call(whole, k) == opens_call(
        line,
        k,
    ) by {
        lemma_depth_before(line, more, k + 1, '(', ')');
    }
    assert forall|k: int| line.len() <= k < whole.len() implies !#[trigger] opens_call(whole, k) by {
        lemma_depth_behind(line, more, k - line.len() + 1, '(', ')');
        assert(!opens_call(more, k - line.len()));
    }
    assert forall|at: int| #[trigger] innermost_call(whole, at) implies innermost_call(line, at) by {
        assert(opens_call(line, at));
        assert forall|k: int| at < k < line.len() implies !#[trigger] opens_call(line, k) by {
            assert(!opens_call(whole, k));
        }
    }
    assert forall|at: int| #[trigger] innermost_call(line, at) implies innermost_call(whole, at) by {
        assert(opens_call(whole, at));
    }
    if exists|at: int| #[trigger] innermost_call(line, at) {
        let at = choose|at: int| #[trigger] innermost_call(line, at);
        assert(innermost_call(whole, at));
        let other = choose|other: int| #[trigger] innermost_call(whole, other);
        assert(innermost_call(line, other));
        if at < other {
            assert(!opens_call(line, other));
        } else if other < at {
            assert(!opens_call(line, at));
        }
        assert(whole.take(at) =~= line.take(at));
        lemma_separators_before(line, more, at + 1);
    }
}

/// Writing on without brackets and commas changes neither the call nor its argument, and a comma
/// goes on to the next argument.
pub proof fn law_comma_goes_on_to_next_argument(line: Seq<char>, c: char)
    requires
        is_no_bracket(c),
    ensures
        c != ',' ==> call_at_end(line.push(c)) == call_at_end(line),
        c == ',' ==> call_at_end(line.push(c)) == (match call_at_end(line) {
            Some((name, index)) => Some((name, index + 1)),
            None => None,
        }),
{
    let more = seq![c];
    assert(line.push(c) =~= line + more);
    assert(closing_depth(more, 1, '(', ')') == 0);
    assert(closing_depth(more, 1, '[', ']') == 0);
    assert(closing_depth(more, 1, '<', '>') == 0);
    assert(closes_nothing(more));
    assert(separators(more, 1) == 0);
    assert forall|k: int| !#[trigger] opens_call(more, k) by {}
    lemma_call_goes_on(line, more);
}

/// An opening parenthesis opens the call of the name before it, at its first argument.
pub proof fn law_parenthesis_opens_a_call(line: Seq<char>)
    ensures
        call_at_end(line.push('(')) == (if called_name(line).len() > 0 {
            Some((called_name(line), 0nat))
        } else {
            None
        }),
{
    let whole = line.push('(');
    let n = line.len() as int;
    assert(closing_depth(whole, n + 1, '(', ')') == 0);
    assert(opens_call(whole, n));
    assert(innermost_call(whole, n));
    let at = choose|at: int| #[trigger] innermost_call(whole, at);
    if at < n {
        assert(!opens_call(whole, n));
    }
    assert(whole.take(n) =~= line);
    assert(separators(whole, n + 1) == 0);
}

/// Brackets that are closed again change nothing, whatever stands in them but further brackets: the
/// commas inside of them separate no arguments of the call around.
pub proof fn law_closed_brackets_change_nothing(
    line: Seq<char>,
    open_char: char,
    inner: Seq<char>,
    close: char,
)
    requires
        is_pair(open_char, close),
        forall|k: int| 0 <= k < inner.len() ==> is_no_bracket(#[trigger] inner[k]),
    ensures
        call_at_end(line + seq![open_char] + inner + seq![close]) == call_at_end(line),
{
    let more = seq![open_char] + inner + seq![close];
    let n = inner.len() as int;
    assert(line + seq![open_char] + inner + seq![close] =~= line + more);
    assert(more[n + 1] == close);
    assert(more[0] == open_char);
    assert forall|k: int| 0 < k <= n implies is_no_bracket(#[trigger] more[k]) by {
        assert(more[k] == inner[k - 1]);
    }
    lemma_inside_brackets(more, open_char, close, '(', ')', 1);
    lemma_inside_brackets(more, open_char, close, '[', ']', 1);
    lemma_inside_brackets(more, open_char, close, '<', '>', 1);
    assert(closes_nothing(more));
    assert forall|k: int| !#[trigger] opens_call(more, k) by {
        if 0 <= k < more.len() && more[k] == '(' {
            assert(k == 0);
        }
    }
    lemma_no_separator_inside(more, open_char, close, 0);
    lemma_call_goes_on(line, more);
}

/// Inside of brackets only their own depth counts.
proof fn lemma_inside_brackets(
    more: Seq<char>,
    open_char: char,
    close: char,
    first: char,
    second: char,
    at: int,
)
    requires
        is_pair(open_char, close),
        is_pair(first, second),
        1 <= at < more.len(),
        more[more.len() - 1] == close,
        forall|k: int| 0 < k < more.len() - 1 ==> is_no_bracket(#[trigger] more[k]),
    ensures
        closing_depth(more, at, first, second) == (if first == open_char {
            1nat
        } else {
            0nat
        }),
    decreases more.len() - at,
{
    if at < more.len() - 1 {
        lemma_inside_brackets(more, open_char, close, first, second, at + 1);
        assert(is_no_bracket(more[at]));
    } else {
        assert(closing_depth(more, at + 1, first, second) == 0);
    }
}

proof fn lemma_no_separator_inside(more: Seq<char>, open_char: char, close: char, at: int)
    requires
        is_pair(open_char, close),
        0 <= at <= more.len(),
        more.len() >= 2,
        more[0] == open_char,
        more[more.len() - 1] == close,
        forall|k: int| 0 < k < more.len() - 1 ==> is_no_bracket(#[trigger] more[k]),
    ensures
        separators(more, at) == 0,
    decreases more.len() - at,
{
    if at < more.len() {
        lemma_no_separator_inside(more, open_char, close, at + 1);
        if 0 < at < more.len() - 1 {
            lemma_inside_brackets(more, open_char, close, open_char, close, at + 1);
        }
        assert(!separates(more, at));
    }
}

/// Whether a character can stand in a name, among those of ASCII.
pub open spec fn is_word_char(c: char) -> bool {
    'a' <= c <= 'z' || 'A' <= c <= 'Z' || '0' <= c <= '9' || c == '_'
}

/// Whether a text is a name, or several with colons between them.
pub open spec fn is_qualified(name: Seq<char>) -> bool {
    &&& name.len() > 0
    &&& is_word_char(name[0])
    &&& is_word_char(name.last())
    &&& forall|k: int| 0 <= k < name.len() ==> is_word_char(#[trigger] name[k]) || name[k] == ':'
}

/// Whether a text is empty or ends in a character of ASCII that stands in no name.
pub open spec fn ends_outside(head: Seq<char>) -> bool {
    head.len() == 0 || ((head.last() as u32) < 0x80 && !is_word_char(head.last()) && head.last()
        != ':')
}

/// The name that is called is the whole of the last name before the parenthesis. Generic arguments
/// behind it, and white space, are no part of it.
pub proof fn law_called_name_is_the_last(head: Seq<char>, name: Seq<char>, generics: Seq<char>)
    requires
        is_qualified(name),
        ends_outside(head),
        !generics.contains('<'),
        !generics.contains('>'),
    ensures
        called_name(head + name) == name,
        called_name(head + name + "::<"@ + generics + ">"@) == name,
        called_name((head + name).push(' ')) == name,
{
    let plain = head + name;
    assert(plain.last() == name.last());
    assert(trim_end_of(plain) == plain);
    assert(strip_generics(plain) == plain) by {
        assert forall|at: int| !#[trigger] generics_begin(plain, at) by {}
    }
    lemma_name_at_end(head, name, name.len() as int);
    assert(name.take(name.len() as int) =~= name);
    assert(skip_colons(name) == name);
    assert(called_name(plain) == name);
    let spaced = plain.push(' ');
    assert(spaced.drop_last() =~= plain);
    assert(trim_end_of(spaced) == trim_end_of(plain));
    reveal_strlit("::<");
    reveal_strlit(">");
    let open = plain.len() as int + 2;
    let whole = plain + "::<"@ + generics + ">"@;
    assert(whole.last() == '>');
    assert(trim_end_of(whole) == whole);
    assert(whole[open] == '<');
    lemma_excess_inside(whole, open, whole.len() - 1);
    assert(generics_begin(whole, open)) by {
        assert(angle_excess(whole, open) == angle_excess(whole, open + 1) - 1);
        lemma_excess_inside(whole, open, open + 1);
        assert forall|k: int| open < k < whole.len() implies #[trigger] angle_excess(whole, k)
            != 0 by {
            lemma_excess_inside(whole, open, k);
        }
    }
    let chosen = choose|at: int| #[trigger] generics_begin(whole, at);
    if chosen < open {
        assert(angle_excess(whole, open) != 0);
    } else if open < chosen {
        assert(angle_excess(whole, chosen) != 0);
    }
    let cut = whole.take(open);
    assert(cut[open - 1] == ':' && cut[open - 2] == ':');
    assert(cut.take(open - 2) =~= plain);
    assert(strip_generics(whole) == strip_path_separator(cut));
    assert(strip_generics(whole) == plain);
}

proof fn lemma_excess_inside(whole: Seq<char>, open: int, at: int)
    requires
        0 <= open < at < whole.len(),
        whole.last() == '>',
        forall|k: int|
            open < k < whole.len() - 1 ==> #[trigger] whole[k] != '<' && whole[k] != '>',
    ensures
        angle_excess(whole, at) == 1,
    decreases whole.len() - at,
{
    if at < whole.len() - 1 {
        lemma_excess_inside(whole, open, at + 1);
    } else {
        assert(angle_excess(whole, at + 1) == 0);
    }
}

proof fn lemma_name_at_end(head: Seq<char>, name: Seq<char>, n: int)
    requires
        0 <= n <= name.len(),
        ends_outside(head),
        forall|k: int| 0 <= k < name.len() ==> is_word_char(#[trigger] name[k]) || name[k] == ':',
    ensures
        name_at_end(head + name.take(n)) == name.take(n),
    decreases n,
{
    let text = head + name.take(n);
    if n > 0 {
        lemma_name_at_end(head, name, n - 1);
        assert(text.drop_last() =~= head + name.take(n - 1));
        assert(text.last() == name[n - 1]);
        assert(is_name_char(name[n - 1]));
        assert(name.take(n) =~= name.take(n - 1).push(name[n - 1]));
    } else {
        assert(text =~= head);
        assert(name.take(0) =~= Seq::<char>::empty());
    }
}

} // verus!
