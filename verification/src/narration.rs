//! Removes terminal escapes and tool-call narration from agent output.

use vstd::prelude::*;
use vstd::slice::slice_subrange;

use crate::text;
use crate::text::{extend, line_end, to_chars, to_text, trim};

verus! {

/// The character that opens a terminal escape sequence.
pub const ESCAPE: char = '\u{1b}';

/// The character that can end a control string.
pub const BELL: char = '\u{7}';

/// The bullet that opens a line about a tool call.
pub const TOOL_BULLET: char = '\u{23fa}';

/// The mark that stands alone on a line when a tool call has ended.
pub const TOOL_DONE: char = '\u{2713}';

/// How many parameter and intermediate characters of a control sequence `s` starts with.
pub open spec fn parameter_len(s: Seq<char>) -> nat
    decreases s.len(),
{
    if s.len() > 0 && ' ' <= s[0] <= '?' {
        1 + parameter_len(s.skip(1))
    } else {
        0
    }
}

/// How many intermediate characters of an escape sequence `s` starts with.
pub open spec fn intermediate_len(s: Seq<char>) -> nat
    decreases s.len(),
{
    if s.len() > 0 && ' ' <= s[0] <= '/' {
        1 + intermediate_len(s.skip(1))
    } else {
        0
    }
}

/// The characters that open a control string behind the escape character: an
/// operating system command, a device control string, a start of string, a
/// privacy message or an application program command.
pub open spec fn opens_string(c: char) -> bool {
    c == ']' || c == 'P' || c == 'X' || c == '^' || c == '_'
}

/// How many characters the control string at the start of `s` has, with the bell
/// or the escape and backslash that end it; without them it has all of `s`.
pub open spec fn string_len(s: Seq<char>) -> nat
    decreases s.len(),
{
    if s.len() == 0 {
        0
    } else if s[0] == BELL {
        1
    } else if s.len() >= 2 && s[0] == ESCAPE && s[1] == '\\' {
        2
    } else {
        1 + string_len(s.skip(1))
    }
}

/// How many characters the escape sequence at the start of `s` has. Where `[`
/// follows the escape character it is a control sequence: its parameters and the
/// character that closes it, where such a one is next. Where a character follows
/// that opens a string, it goes on to the end of the string. Else it has its
/// intermediate characters and the character that closes it, where such a one is
/// next.
pub open spec fn escape_len(s: Seq<char>) -> nat {
    if s.len() >= 2 && s[1] == '[' {
        let close = 2 + parameter_len(s.skip(2));
        if close < s.len() && '@' <= s[close as int] <= '~' {
            close + 1
        } else {
            close
        }
    } else if s.len() >= 2 && opens_string(s[1]) {
        2 + string_len(s.skip(2))
    } else {
        let close = 1 + intermediate_len(s.skip(1));
        if close < s.len() && '0' <= s[close as int] <= '~' {
            close + 1
        } else {
            close
        }
    }
}

/// `s` without its escape sequences.
pub open spec fn without_escapes(s: Seq<char>) -> Seq<char>
    decreases s.len(),
{
    if s.len() == 0 {
        s
    } else if s[0] == ESCAPE {
        proof {
            lemma_escape_len(s);
        }
        without_escapes(s.skip(escape_len(s) as int))
    } else {
        seq![s[0]] + without_escapes(s.skip(1))
    }
}

/// `line` reports on a tool call: but for the white space around it, it starts
/// with the tool bullet, is a bracketed tool note or is the done mark.
pub open spec fn is_narration(line: Seq<char>) -> bool {
    let line = text::trimmed(line);
    ||| line.len() > 0 && line[0] == TOOL_BULLET
    ||| line == seq![TOOL_DONE]
    ||| line.len() > 6 && line.take(6) == seq!['[', 't', 'o', 'o', 'l', ':'] && line.last() == ']'
}

/// `s` without the lines that report on tool calls.
pub open spec fn without_narration(s: Seq<char>) -> Seq<char>
    decreases s.len(),
{
    if s.len() == 0 {
        s
    } else {
        let n = text::first_line_len(s) as int;
        proof {
            text::lemma_first_line(s);
        }
        let rest = without_narration(s.skip(n));
        if is_narration(s.take(n)) {
            rest
        } else {
            s.take(n) + rest
        }
    }
}

/// `s` without escape sequences, then without the lines that report on tool calls.
pub open spec fn cleaned(s: Seq<char>) -> Seq<char> {
    without_narration(without_escapes(s))
}

proof fn lemma_parameter_len(s: Seq<char>)
    ensures
        parameter_len(s) <= s.len(),
    decreases s.len(),
{
    if s.len() > 0 && ' ' <= s[0] <= '?' {
        lemma_parameter_len(s.skip(1));
    }
}

proof fn lemma_intermediate_len(s: Seq<char>)
    ensures
        intermediate_len(s) <= s.len(),
    decreases s.len(),
{
    if s.len() > 0 && ' ' <= s[0] <= '/' {
        lemma_intermediate_len(s.skip(1));
    }
}

proof fn lemma_string_len(s: Seq<char>)
    ensures
        string_len(s) <= s.len(),
    decreases s.len(),
{
    if s.len() > 0 {
        lemma_string_len(s.skip(1));
    }
}

/// An escape sequence has a character and ends with the text at the latest.
pub proof fn lemma_escape_len(s: Seq<char>)
    requires
        s.len() > 0,
    ensures
        1 <= escape_len(s) <= s.len(),
{
    lemma_intermediate_len(s.skip(1));
    if s.len() >= 2 {
        lemma_parameter_len(s.skip(2));
        lemma_string_len(s.skip(2));
    }
}

/// The position behind the control string of `chars` that starts at `from`.
fn string_end(chars: &[char], from: usize) -> (to: usize)
    requires
        from <= chars@.len(),
    ensures
        from <= to <= chars@.len(),
        to - from == string_len(chars@.skip(from as int)),
{
    let len: usize = chars.len();
    let mut to: usize = from;
    while to < len
        invariant
            from <= to <= len == chars@.len(),
            to - from + string_len(chars@.skip(to as int)) == string_len(chars@.skip(from as int)),
        decreases len - to,
    {
        if chars[to] == BELL {
            return to + 1;
        }
        if len - to >= 2 && chars[to] == ESCAPE && chars[to + 1] == '\\' {
            return to + 2;
        }
        assert(chars@.skip(to as int).skip(1) =~= chars@.skip(to + 1));
        to = to + 1;
    }
    to
}

/// The position behind the control sequence of `chars` whose parameters start at `from`.
fn control_end(chars: &[char], from: usize) -> (to: usize)
    requires
        2 <= from <= chars@.len(),
        chars@[from - 1] == '[',
    ensures
        from <= to <= chars@.len(),
        to - from + 2 == escape_len(chars@.skip(from - 2)),
{
    let len: usize = chars.len();
    let ghost tail = chars@.skip(from - 2);
    let mut to: usize = from;
    assert(tail.skip(2) =~= chars@.skip(to as int));
    while to < len && ' ' <= chars[to] && chars[to] <= '?'
        invariant
            2 <= from <= to <= len == chars@.len(),
            tail == chars@.skip(from - 2),
            to - from + parameter_len(chars@.skip(to as int)) == parameter_len(tail.skip(2)),
        decreases len - to,
    {
        assert(chars@.skip(to as int).skip(1) =~= chars@.skip(to + 1));
        to = to + 1;
    }
    if to < len && '@' <= chars[to] && chars[to] <= '~' {
        to = to + 1;
    }
    to
}

/// The position behind the escape sequence of `chars` that starts at `from`.
fn escape_end(chars: &[char], from: usize) -> (to: usize)
    requires
        from < chars@.len(),
    ensures
        from < to <= chars@.len(),
        to - from == escape_len(chars@.skip(from as int)),
{
    let len: usize = chars.len();
    let ghost tail = chars@.skip(from as int);
    if len - from >= 2 {
        let c = chars[from + 1];
        if c == '[' {
            return control_end(chars, from + 2);
        }
        if c == ']' || c == 'P' || c == 'X' || c == '^' || c == '_' {
            assert(tail.skip(2) =~= chars@.skip(from + 2));
            return string_end(chars, from + 2);
        }
    }
    let mut to: usize = from + 1;
    assert(tail.skip(1) =~= chars@.skip(to as int));
    while to < len && ' ' <= chars[to] && chars[to] <= '/'
        invariant
            from + 1 <= to <= len == chars@.len(),
            tail == chars@.skip(from as int),
            to - from - 1 + intermediate_len(chars@.skip(to as int)) == intermediate_len(
                tail.skip(1),
            ),
        decreases len - to,
    {
        assert(chars@.skip(to as int).skip(1) =~= chars@.skip(to + 1));
        to = to + 1;
    }
    if to < len && '0' <= chars[to] && chars[to] <= '~' {
        to = to + 1;
    }
    to
}

/// `chars` without its escape sequences.
fn strip_escapes(chars: &[char]) -> (kept: Vec<char>)
    ensures
        kept@ == without_escapes(chars@),
{
    let mut kept: Vec<char> = Vec::new();
    let mut at: usize = 0;
    assert(chars@.skip(0) =~= chars@);
    while at < chars.len()
        invariant
            at <= chars@.len(),
            without_escapes(chars@) =~= kept@ + without_escapes(chars@.skip(at as int)),
        decreases chars@.len() - at,
    {
        let ghost tail = chars@.skip(at as int);
        if chars[at] == ESCAPE {
            let next = escape_end(chars, at);
            assert(tail.skip(next - at) =~= chars@.skip(next as int));
            at = next;
        } else {
            kept.push(chars[at]);
            assert(tail.skip(1) =~= chars@.skip(at + 1));
            at = at + 1;
        }
    }
    kept
}

/// Whether `line` reports on a tool call.
fn narrates(line: &[char]) -> (narration: bool)
    ensures
        narration == is_narration(line@),
{
    let line = trim(line);
    let len: usize = line.len();
    if len == 0 {
        return false;
    }
    if line[0] == TOOL_BULLET {
        return true;
    }
    if len == 1 {
        assert(line[0] == TOOL_DONE ==> line@ =~= seq![TOOL_DONE]);
        return line[0] == TOOL_DONE;
    }
    let noted = len > 6 && line[0] == '[' && line[1] == 't' && line[2] == 'o' && line[3] == 'o'
        && line[4] == 'l' && line[5] == ':' && line[len - 1] == ']';
    proof {
        let opening = seq!['[', 't', 'o', 'o', 'l', ':'];
        if noted {
            assert(line@.take(6) =~= opening);
        } else if len > 6 && line@.take(6) == opening {
            assert(forall|i: int| 0 <= i < 6 ==> line@[i] == line@.take(6)[i]);
        }
    }
    noted
}

/// `chars` without the lines that report on tool calls.
fn strip_narration(chars: &[char]) -> (kept: Vec<char>)
    ensures
        kept@ == without_narration(chars@),
{
    let mut kept: Vec<char> = Vec::new();
    let mut at: usize = 0;
    assert(chars@.skip(0) =~= chars@);
    while at < chars.len()
        invariant
            at <= chars@.len(),
            without_narration(chars@) =~= kept@ + without_narration(chars@.skip(at as int)),
        decreases chars@.len() - at,
    {
        let next = line_end(chars, at);
        let line = slice_subrange(chars, at, next);
        proof {
            let tail = chars@.skip(at as int);
            assert(tail.take(next - at) =~= line@);
            assert(tail.skip(next - at) =~= chars@.skip(next as int));
        }
        if !narrates(line) {
            extend(&mut kept, line);
        }
        at = next;
    }
    kept
}

/// `text` as a person should read it: without terminal escapes and without the
/// lines that report on tool calls.
pub fn clean_for_stream(text: &str) -> (clean: String)
    ensures
        clean@ == cleaned(text@),
{
    let chars = to_chars(text);
    let plain = strip_escapes(chars.as_slice());
    let kept = strip_narration(plain.as_slice());
    to_text(kept.as_slice())
}

/// No escape character is left in cleaned text.
pub proof fn law_cleaned_holds_no_escape(s: Seq<char>)
    ensures
        !cleaned(s).contains(ESCAPE),
{
    lemma_no_escape(s);
    lemma_narration_keeps_out(without_escapes(s), ESCAPE);
}

/// Cleaning cleaned text changes nothing.
pub proof fn law_cleaning_is_idempotent(s: Seq<char>)
    ensures
        cleaned(cleaned(s)) == cleaned(s),
{
    law_cleaned_holds_no_escape(s);
    lemma_nothing_to_strip(cleaned(s));
    lemma_narration_once(without_escapes(s));
}

proof fn lemma_no_escape(s: Seq<char>)
    ensures
        !without_escapes(s).contains(ESCAPE),
    decreases s.len(),
{
    if s.len() == 0 {
    } else if s[0] == ESCAPE {
        lemma_escape_len(s);
        lemma_no_escape(s.skip(escape_len(s) as int));
    } else {
        let rest = without_escapes(s.skip(1));
        lemma_no_escape(s.skip(1));
        assert forall|i: int| 0 <= i < rest.len() + 1 implies (seq![s[0]] + rest)[i] != ESCAPE by {
            if i > 0 {
                assert((seq![s[0]] + rest)[i] == rest[i - 1]);
                assert(rest.contains(rest[i - 1]));
            }
        }
    }
}

/// Text up to the first escape character is kept as it is, and what follows is
/// stripped of its sequences.
pub proof fn law_text_before_an_escape_is_kept(before: Seq<char>, rest: Seq<char>)
    requires
        !before.contains(ESCAPE),
    ensures
        without_escapes(before + rest) == before + without_escapes(rest),
    decreases before.len(),
{
    if before.len() == 0 {
        assert(before + rest =~= rest);
        assert(before + without_escapes(rest) =~= without_escapes(rest));
    } else {
        assert(before.contains(before[0]));
        let tail = before.skip(1);
        assert forall|i: int| 0 <= i < tail.len() implies tail[i] != ESCAPE by {
            assert(tail[i] == before[i + 1]);
            assert(before.contains(before[i + 1]));
        }
        law_text_before_an_escape_is_kept(tail, rest);
        assert((before + rest).skip(1) =~= tail + rest);
        assert(seq![before[0]] + (tail + without_escapes(rest)) =~= before + without_escapes(
            rest,
        ));
    }
}

proof fn lemma_nothing_to_strip(s: Seq<char>)
    requires
        !s.contains(ESCAPE),
    ensures
        without_escapes(s) == s,
{
    law_text_before_an_escape_is_kept(s, Seq::empty());
    assert(s + Seq::<char>::empty() =~= s);
    assert(s + without_escapes(Seq::<char>::empty()) =~= s);
}

proof fn lemma_narration_keeps_out(s: Seq<char>, c: char)
    requires
        !s.contains(c),
    ensures
        !without_narration(s).contains(c),
    decreases s.len(),
{
    if s.len() > 0 {
        text::lemma_first_line(s);
        let n = text::first_line_len(s) as int;
        let tail = s.skip(n);
        assert forall|i: int| 0 <= i < tail.len() implies tail[i] != c by {
            assert(tail[i] == s[i + n]);
            assert(s.contains(s[i + n]));
        }
        lemma_narration_keeps_out(tail, c);
        let rest = without_narration(tail);
        assert forall|i: int| 0 <= i < n + rest.len() implies (s.take(n) + rest)[i] != c by {
            if i < n {
                assert((s.take(n) + rest)[i] == s[i]);
                assert(s.contains(s[i]));
            } else {
                assert((s.take(n) + rest)[i] == rest[i - n]);
                assert(rest.contains(rest[i - n]));
            }
        }
    }
}

/// A line that ends in a line feed is the first line of what starts with it.
proof fn lemma_first_line_of(line: Seq<char>, rest: Seq<char>)
    requires
        line.len() > 0,
        text::first_line_len(line) == line.len(),
        rest.len() == 0 || line.last() == '\n',
    ensures
        text::first_line_len(line + rest) == line.len(),
    decreases line.len(),
{
    let all = line + rest;
    if line[0] == '\n' {
        assert(all[0] == '\n');
    } else if line.len() == 1 {
        assert(all =~= line);
    } else {
        assert(all[0] == line[0]);
        assert(all.skip(1) =~= line.skip(1) + rest);
        lemma_first_line_of(line.skip(1), rest);
    }
}

proof fn lemma_narration_once(s: Seq<char>)
    ensures
        without_narration(without_narration(s)) == without_narration(s),
    decreases s.len(),
{
    if s.len() > 0 {
        text::lemma_first_line(s);
        let n = text::first_line_len(s) as int;
        let line = s.take(n);
        let rest = without_narration(s.skip(n));
        lemma_narration_once(s.skip(n));
        if !is_narration(line) {
            let kept = line + rest;
            lemma_first_line_prefix(s);
            if n < s.len() {
                assert(line.last() == '\n');
            } else {
                assert(s.skip(n).len() == 0);
            }
            lemma_first_line_of(line, rest);
            assert(kept.take(n) =~= line);
            assert(kept.skip(n) =~= rest);
        }
    }
}

proof fn lemma_first_line_prefix(s: Seq<char>)
    requires
        s.len() > 0,
    ensures
        text::first_line_len(s.take(text::first_line_len(s) as int)) == text::first_line_len(s),
    decreases s.len(),
{
    text::lemma_first_line(s);
    let n = text::first_line_len(s) as int;
    let line = s.take(n);
    text::lemma_first_line(line);
    if text::first_line_len(line) < n {
        assert(line[text::first_line_len(line) - 1] == s[text::first_line_len(line) - 1]);
    }
}

/// Lines are judged one by one: what becomes of some lines does not depend on what
/// stands before or behind them.
pub proof fn law_lines_are_judged_one_by_one(a: Seq<char>, b: Seq<char>)
    requires
        a.len() > 0 ==> a.last() == '\n',
    ensures
        without_narration(a + b) == without_narration(a) + without_narration(b),
    decreases a.len(),
{
    let all = a + b;
    if a.len() == 0 {
        assert(all =~= b);
        assert(without_narration(a) + without_narration(b) =~= without_narration(b));
    } else {
        text::lemma_first_line(a);
        let n = text::first_line_len(a) as int;
        let line = a.take(n);
        let rest = a.skip(n);
        lemma_first_line_prefix(a);
        assert(line.last() == '\n');
        lemma_first_line_of(line, rest + b);
        assert(all =~= line + (rest + b));
        assert(all.take(n) =~= line);
        assert(all.skip(n) =~= rest + b);
        law_lines_are_judged_one_by_one(rest, b);
        assert(line + (without_narration(rest) + without_narration(b)) =~= (line
            + without_narration(rest)) + without_narration(b));
    }
}

/// A line goes whole, where it reports on a tool call, or stays whole.
pub proof fn law_a_line_goes_or_stays_whole(line: Seq<char>)
    requires
        forall|i: int| 0 <= i < line.len() - 1 ==> line[i] != '\n',
    ensures
        is_narration(line) ==> without_narration(line).len() == 0,
        !is_narration(line) ==> without_narration(line) == line,
{
    if line.len() > 0 {
        text::lemma_first_line(line);
        assert(text::first_line_len(line) == line.len());
        assert(line.take(line.len() as int) =~= line);
        assert(line.skip(line.len() as int) =~= Seq::empty());
        assert(without_narration(Seq::<char>::empty()) =~= Seq::empty());
        assert(line + Seq::<char>::empty() =~= line);
    }
}

/// Which lines report on tool calls: whatever white space stands around it, one that
/// starts with the tool bullet, the done mark alone, and a bracketed tool note;
/// no other, and no blank one.
pub proof fn law_reports_on_tool_calls_are_told(
    lead: Seq<char>,
    core: Seq<char>,
    trail: Seq<char>,
)
    requires
        text::is_blank(lead),
        text::is_blank(trail),
        core.len() > 0 ==> !text::is_white_space(core[0]) && !text::is_white_space(core.last()),
    ensures
        is_narration(lead + core + trail) <==> {
            ||| core.len() > 0 && core[0] == TOOL_BULLET
            ||| core.len() == 1 && core[0] == TOOL_DONE
            ||| exists|note: Seq<char>| core == #[trigger] ("[tool:"@ + note + "]"@)
        },
{
    let opening = seq!['[', 't', 'o', 'o', 'l', ':'];
    text::law_trimmed_is_the_core(lead, core, trail);
    reveal_strlit("[tool:");
    reveal_strlit("]");
    assert("[tool:"@ =~= opening);
    if core.len() == 1 && core[0] == TOOL_DONE {
        assert(core =~= seq![TOOL_DONE]);
    }
    if core.len() > 6 && core.take(6) == opening && core.last() == ']' {
        let note = core.subrange(6, core.len() - 1);
        assert(core =~= core.take(6) + note + "]"@);
        assert(core == "[tool:"@ + note + "]"@);
    }
    if exists|note: Seq<char>| core == #[trigger] ("[tool:"@ + note + "]"@) {
        let note = choose|note: Seq<char>| core == #[trigger] ("[tool:"@ + note + "]"@);
        assert(core.take(6) =~= opening);
        assert(core.last() == ']');
    }
}

/// Text without an escape character, the marks of a tool call and a closing bracket
/// is kept as it is.
pub proof fn law_ordinary_text_is_kept(s: Seq<char>)
    requires
        !s.contains(ESCAPE),
        !s.contains(TOOL_BULLET),
        !s.contains(TOOL_DONE),
        !s.contains(']'),
    ensures
        cleaned(s) == s,
{
    lemma_nothing_to_strip(s);
    lemma_ordinary_lines_stay(s);
}

proof fn lemma_ordinary_lines_stay(s: Seq<char>)
    requires
        !s.contains(TOOL_BULLET),
        !s.contains(TOOL_DONE),
        !s.contains(']'),
    ensures
        without_narration(s) == s,
    decreases s.len(),
{
    if s.len() > 0 {
        text::lemma_first_line(s);
        let n = text::first_line_len(s) as int;
        let line = s.take(n);
        let rest = s.skip(n);
        let around = text::law_trimming_loses_only_white_space(line);
        let core = text::trimmed(line);
        assert forall|i: int| 0 <= i < core.len() implies s.contains(#[trigger] core[i]) by {
            assert(core[i] == line[around.0.len() + i]);
            assert(core[i] == s[around.0.len() + i]);
        }
        if core.len() > 0 {
            assert(s.contains(core[0]) && s.contains(core[core.len() - 1]));
            assert(core == seq![TOOL_DONE] ==> core[0] == TOOL_DONE);
        }
        assert(!is_narration(line));
        assert forall|c: char| rest.contains(c) implies s.contains(c) by {
            let j = choose|j: int| 0 <= j < rest.len() && rest[j] == c;
            assert(s[n + j] == c);
        }
        lemma_ordinary_lines_stay(rest);
        assert(line + rest =~= s);
    }
}

/// A control sequence goes, with its parameters and the character that closes it,
/// and what follows it stays to be read.
pub proof fn law_control_sequences_go(parameters: Seq<char>, close: char, rest: Seq<char>)
    requires
        forall|i: int| 0 <= i < parameters.len() ==> ' ' <= #[trigger] parameters[i] <= '?',
        '@' <= close <= '~',
    ensures
        without_escapes(seq![ESCAPE, '['] + parameters + seq![close] + rest) == without_escapes(
            rest,
        ),
{
    let all = seq![ESCAPE, '['] + parameters + seq![close] + rest;
    let tail = seq![close] + rest;
    assert(all.skip(2) =~= parameters + tail);
    lemma_parameters_are_counted(parameters, tail);
    assert(all[2 + parameters.len() as int] == close);
    assert(all.skip(3 + parameters.len() as int) =~= rest);
}

/// A control sequence that is not closed goes as far as its parameters; text that
/// cannot belong to it stays.
pub proof fn law_open_control_sequences_take_no_text(parameters: Seq<char>, rest: Seq<char>)
    requires
        forall|i: int| 0 <= i < parameters.len() ==> ' ' <= #[trigger] parameters[i] <= '?',
        rest.len() > 0 ==> !(' ' <= rest[0] <= '~'),
    ensures
        without_escapes(seq![ESCAPE, '['] + parameters + rest) == without_escapes(rest),
{
    let all = seq![ESCAPE, '['] + parameters + rest;
    assert(all.skip(2) =~= parameters + rest);
    lemma_parameters_are_counted(parameters, rest);
    if rest.len() > 0 {
        assert(all[2 + parameters.len() as int] == rest[0]);
    }
    assert(all.skip(2 + parameters.len() as int) =~= rest);
}

proof fn lemma_parameters_are_counted(parameters: Seq<char>, rest: Seq<char>)
    requires
        forall|i: int| 0 <= i < parameters.len() ==> ' ' <= #[trigger] parameters[i] <= '?',
        rest.len() > 0 ==> !(' ' <= rest[0] <= '?'),
    ensures
        parameter_len(parameters + rest) == parameters.len(),
    decreases parameters.len(),
{
    if parameters.len() == 0 {
        assert(parameters + rest =~= rest);
    } else {
        assert((parameters + rest)[0] == parameters[0]);
        assert((parameters + rest).skip(1) =~= parameters.skip(1) + rest);
        assert(forall|i: int|
            0 <= i < parameters.skip(1).len() ==> parameters.skip(1)[i] == parameters[i + 1]);
        lemma_parameters_are_counted(parameters.skip(1), rest);
    }
}

/// At `i` stands what ends a control string: a bell, or an escape with a backslash.
pub open spec fn ends_string_at(s: Seq<char>, i: int) -> bool {
    s[i] == BELL || (i + 1 < s.len() && s[i] == ESCAPE && s[i + 1] == '\\')
}

/// A control string goes with all that it holds and with what ends it, and what
/// follows it stays to be read. One that nothing ends takes all that follows.
pub proof fn law_control_strings_go(opening: char, content: Seq<char>, rest: Seq<char>)
    requires
        opening == ']' || opening == 'P' || opening == 'X' || opening == '^' || opening == '_',
        forall|i: int| 0 <= i < content.len() ==> !#[trigger] ends_string_at(content, i),
    ensures
        without_escapes(seq![ESCAPE, opening] + content + seq![BELL] + rest) == without_escapes(
            rest,
        ),
        without_escapes(seq![ESCAPE, opening] + content + seq![ESCAPE, '\\'] + rest)
            == without_escapes(rest),
        without_escapes(seq![ESCAPE, opening] + content).len() == 0,
{
    let head = seq![ESCAPE, opening];
    let n = content.len() as int;

    let bell = seq![BELL] + rest;
    let one = head + content + seq![BELL] + rest;
    assert(one.skip(2) =~= content + bell);
    lemma_content_is_counted(content, bell);
    assert(bell[0] == BELL);
    assert(one.skip(3 + n) =~= rest);

    let closing = seq![ESCAPE, '\\'] + rest;
    let two = head + content + seq![ESCAPE, '\\'] + rest;
    assert(two.skip(2) =~= content + closing);
    lemma_content_is_counted(content, closing);
    assert(closing[0] == ESCAPE && closing[1] == '\\');
    assert(two.skip(4 + n) =~= rest);

    let open = head + content;
    assert(open.skip(2) =~= content + Seq::<char>::empty());
    lemma_content_is_counted(content, Seq::empty());
    assert(open.skip(2 + n) =~= Seq::empty());
    assert(without_escapes(Seq::<char>::empty()).len() == 0);
}

proof fn lemma_content_is_counted(content: Seq<char>, rest: Seq<char>)
    requires
        forall|i: int| 0 <= i < content.len() ==> !#[trigger] ends_string_at(content, i),
        rest.len() > 0 ==> rest[0] != '\\',
    ensures
        string_len(content + rest) == content.len() + string_len(rest),
    decreases content.len(),
{
    if content.len() == 0 {
        assert(content + rest =~= rest);
    } else {
        let all = content + rest;
        let tail = content.skip(1);
        assert(!ends_string_at(content, 0));
        assert(all[0] == content[0]);
        if content.len() >= 2 {
            assert(all[1] == content[1]);
        } else if rest.len() > 0 {
            assert(all[1] == rest[0]);
        }
        assert(all.skip(1) =~= tail + rest);
        assert forall|i: int| 0 <= i < tail.len() implies !#[trigger] ends_string_at(tail, i) by {
            assert(!ends_string_at(content, i + 1));
        }
        lemma_content_is_counted(tail, rest);
    }
}

/// Any other escape sequence goes, with its intermediate characters and the
/// character that closes it, and what follows it stays to be read.
pub proof fn law_short_escapes_go(middle: Seq<char>, close: char, rest: Seq<char>)
    requires
        forall|i: int| 0 <= i < middle.len() ==> ' ' <= #[trigger] middle[i] <= '/',
        '0' <= close <= '~',
        middle.len() == 0 ==> close != '[' && close != ']' && close != 'P' && close != 'X' && close
            != '^' && close != '_',
    ensures
        without_escapes(seq![ESCAPE] + middle + seq![close] + rest) == without_escapes(rest),
{
    let all = seq![ESCAPE] + middle + seq![close] + rest;
    let tail = seq![close] + rest;
    assert(all.skip(1) =~= middle + tail);
    lemma_middle_is_counted(middle, tail);
    assert(all[1 + middle.len() as int] == close);
    if middle.len() > 0 {
        assert(all[1] == middle[0]);
    }
    assert(all.skip(2 + middle.len() as int) =~= rest);
}

/// An escape sequence that is not closed goes as far as its intermediate characters;
/// text that cannot belong to it stays.
pub proof fn law_open_escapes_take_no_text(middle: Seq<char>, rest: Seq<char>)
    requires
        forall|i: int| 0 <= i < middle.len() ==> ' ' <= #[trigger] middle[i] <= '/',
        rest.len() > 0 ==> !(' ' <= rest[0] <= '~'),
    ensures
        without_escapes(seq![ESCAPE] + middle + rest) == without_escapes(rest),
{
    let all = seq![ESCAPE] + middle + rest;
    assert(all.skip(1) =~= middle + rest);
    lemma_middle_is_counted(middle, rest);
    if rest.len() > 0 {
        assert(all[1 + middle.len() as int] == rest[0]);
    }
    if middle.len() > 0 {
        assert(all[1] == middle[0]);
    }
    assert(all.skip(1 + middle.len() as int) =~= rest);
}

proof fn lemma_middle_is_counted(middle: Seq<char>, rest: Seq<char>)
    requires
        forall|i: int| 0 <= i < middle.len() ==> ' ' <= #[trigger] middle[i] <= '/',
        rest.len() > 0 ==> !(' ' <= rest[0] <= '/'),
    ensures
        intermediate_len(middle + rest) == middle.len(),
    decreases middle.len(),
{
    if middle.len() == 0 {
        assert(middle + rest =~= rest);
    } else {
        assert((middle + rest)[0] == middle[0]);
        assert((middle + rest).skip(1) =~= middle.skip(1) + rest);
        assert(forall|i: int| 0 <= i < middle.skip(1).len() ==> middle.skip(1)[i] == middle[i + 1]);
        lemma_middle_is_counted(middle.skip(1), rest);
    }
}

/// An escape sequence leaves no trace: text is cleaned as if it had never been there.
pub proof fn law_escapes_leave_no_trace(
    before: Seq<char>,
    sequence: Seq<char>,
    rest: Seq<char>,
)
    requires
        !before.contains(ESCAPE),
        without_escapes(sequence + rest) == without_escapes(rest),
    ensures
        cleaned(before + sequence + rest) == cleaned(before + rest),
{
    assert(before + sequence + rest =~= before + (sequence + rest));
    law_text_before_an_escape_is_kept(before, sequence + rest);
    law_text_before_an_escape_is_kept(before, rest);
}

/// Whole lines without an escape character are cleaned on their own, whatever
/// follows them.
pub proof fn law_cleaning_goes_line_by_line(lines: Seq<char>, rest: Seq<char>)
    requires
        !lines.contains(ESCAPE),
        lines.len() > 0 ==> lines.last() == '\n',
    ensures
        cleaned(lines + rest) == cleaned(lines) + cleaned(rest),
{
    law_text_before_an_escape_is_kept(lines, rest);
    lemma_nothing_to_strip(lines);
    law_lines_are_judged_one_by_one(lines, without_escapes(rest));
}

/// A line without an escape character is left out exactly where it reports on a
/// tool call, and is else kept as it is.
pub proof fn law_cleaning_keeps_or_drops_a_line(line: Seq<char>)
    requires
        !line.contains(ESCAPE),
        forall|i: int| 0 <= i < line.len() - 1 ==> line[i] != '\n',
    ensures
        is_narration(line) ==> cleaned(line).len() == 0,
        !is_narration(line) ==> cleaned(line) == line,
{
    lemma_nothing_to_strip(line);
    law_a_line_goes_or_stays_whole(line);
}

} // verus!
