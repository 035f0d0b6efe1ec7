//! How the HTML of a chunk follows from the fences that it holds.

use vstd::prelude::*;

use crate::filter;
use crate::html;
use crate::text;

verus! {

/// A fence stands in `s` at `i`.
pub open spec fn has_fence_at(s: Seq<char>, i: int) -> bool {
    0 <= i && i + 3 <= s.len() && s[i] == '`' && s[i + 1] == '`' && s[i + 2] == '`'
}

/// No fence stands in `s`.
pub open spec fn holds_no_fence(s: Seq<char>) -> bool {
    forall|i: int| !#[trigger] has_fence_at(s, i)
}

/// A fence behind `s` is the first: none stands in `s`, and `s` does not end in a
/// backtick, which would be taken for the start of the fence.
pub open spec fn leads_to_fence(s: Seq<char>) -> bool {
    holds_no_fence(s) && (s.len() > 0 ==> s.last() != '`')
}

/// Each fence of `s` has its partner.
pub open spec fn is_balanced(s: Seq<char>) -> bool {
    filter::segments(s).len() % 2 == 1
}

/// `s` is empty or may stand behind a fence as the name of a language.
pub open spec fn is_language_name(s: Seq<char>) -> bool {
    forall|i: int|
        0 <= i < s.len() ==> {
            let c = #[trigger] s[i];
            'a' <= c <= 'z' || 'A' <= c <= 'Z' || '0' <= c <= '9' || c == '_' || c == '+' || c
                == '-' || c == '#'
        }
}

proof fn lemma_no_fence_before_the_end(s: Seq<char>)
    requires
        holds_no_fence(s),
    ensures
        filter::before_fence(s) == s.len(),
    decreases s.len(),
{
    if s.len() > 0 {
        assert(!has_fence_at(s, 0));
        assert forall|i: int| !#[trigger] has_fence_at(s.skip(1), i) by {
            assert(!has_fence_at(s, i + 1));
        }
        lemma_no_fence_before_the_end(s.skip(1));
    }
}

proof fn lemma_first_fence(s: Seq<char>, rest: Seq<char>)
    requires
        leads_to_fence(s),
    ensures
        filter::before_fence(s + "```"@ + rest) == s.len(),
    decreases s.len(),
{
    reveal_strlit("```");
    let all = s + "```"@ + rest;
    if s.len() > 0 {
        let tail = s.skip(1);
        assert(!has_fence_at(s, 0));
        assert(all[0] == s[0]);
        if s.len() >= 2 {
            assert(all[1] == s[1]);
        }
        if s.len() >= 3 {
            assert(all[2] == s[2]);
        }
        assert(!filter::starts_with_fence(all));
        assert forall|i: int| !#[trigger] has_fence_at(tail, i) by {
            assert(!has_fence_at(s, i + 1));
        }
        lemma_first_fence(tail, rest);
        assert(all.skip(1) =~= tail + "```"@ + rest);
    }
}

proof fn lemma_segments_of(s: Seq<char>, rest: Seq<char>)
    requires
        leads_to_fence(s),
    ensures
        filter::segments(s + "```"@ + rest) == seq![s] + filter::segments(rest),
{
    reveal_strlit("```");
    let all = s + "```"@ + rest;
    lemma_first_fence(s, rest);
    assert(all.take(s.len() as int) =~= s);
    assert(all.skip(s.len() as int + 3) =~= rest);
}

/// Text without a fence is balanced; each fence turns a balanced text into one that
/// is not, and the other way round.
pub proof fn law_each_fence_asks_for_a_partner(s: Seq<char>, rest: Seq<char>)
    ensures
        holds_no_fence(s) ==> is_balanced(s),
        leads_to_fence(s) ==> is_balanced(s + "```"@ + rest) == !is_balanced(rest),
{
    if holds_no_fence(s) {
        lemma_no_fence_before_the_end(s);
    }
    if leads_to_fence(s) {
        lemma_segments_of(s, rest);
    }
}

/// Text without a fence is escaped, and so is all of a text in which a fence has no
/// partner.
pub proof fn law_text_without_blocks_is_escaped(s: Seq<char>)
    ensures
        holds_no_fence(s) ==> filter::rendered(s) == html::escaped(s),
        !is_balanced(s) ==> filter::rendered(s) == html::escaped(s),
{
    if holds_no_fence(s) {
        lemma_no_fence_before_the_end(s);
        assert(filter::segments(s) =~= seq![s]);
        assert(seq![s].skip(1) =~= Seq::empty());
        assert(filter::rendered_segments(Seq::empty(), true) =~= Seq::empty());
        assert(filter::rendered(s) =~= html::escaped(s));
    }
}

/// What stands between two fences becomes a code block between what stands before
/// and what follows, where the rest is balanced.
proof fn lemma_block_is_rendered(prose: Seq<char>, code: Seq<char>, rest: Seq<char>)
    requires
        leads_to_fence(prose),
        leads_to_fence(code),
        is_balanced(rest),
    ensures
        filter::rendered(prose + "```"@ + code + "```"@ + rest) == html::escaped(prose)
            + filter::code_block(code) + filter::rendered(rest),
{
    let inner = code + "```"@ + rest;
    let all = prose + "```"@ + code + "```"@ + rest;
    assert(all =~= prose + "```"@ + inner);
    lemma_segments_of(prose, inner);
    lemma_segments_of(code, rest);
    let tail = filter::segments(rest);
    let segments = filter::segments(all);
    assert(segments.skip(1) =~= seq![code] + tail);
    assert(segments.skip(1).skip(1) =~= tail);
    reveal_with_fuel(filter::rendered_segments, 3);
    assert(filter::rendered(all) =~= html::escaped(prose) + filter::code_block(code)
        + filter::rendered_segments(tail, false));
}

/// The first line of a code block goes where it is empty or the name of a language,
/// and nothing else of the block does.
pub proof fn law_only_a_language_name_is_dropped(name: Seq<char>, code: Seq<char>)
    requires
        is_language_name(name),
    ensures
        filter::without_language(name + "\n"@ + code) == code,
{
    reveal_strlit("\n");
    let all = name + "\n"@ + code;
    let n = name.len() as int;
    text::lemma_first_line(all);
    assert(all[n] == '\n');
    assert(forall|i: int| 0 <= i < n ==> all[i] == name[i]);
    let found = text::first_line_len(all) as int;
    if found > n + 1 {
        assert(all[n] != '\n');
    } else if found < n + 1 {
        assert(all[found - 1] == name[found - 1]);
    }
    assert(all.skip(n + 1) =~= code);
}

/// A code block without a line feed is kept as it is.
pub proof fn law_code_on_one_line_is_kept(code: Seq<char>)
    requires
        !code.contains('\n'),
    ensures
        filter::without_language(code) == code,
{
    if code.len() > 0 {
        text::lemma_first_line(code);
        let n = text::first_line_len(code) as int;
        assert(code.contains(code[n - 1]));
    }
}

/// A code block whose first line is not the name of a language is kept as it is.
pub proof fn law_code_without_a_language_name_is_kept(line: Seq<char>, rest: Seq<char>)
    requires
        !line.contains('\n'),
        !is_language_name(line),
    ensures
        filter::without_language(line + rest) == line + rest,
{
    let all = line + rest;
    let k = choose|k: int|
        0 <= k < line.len() && !{
            let c = #[trigger] line[k];
            'a' <= c <= 'z' || 'A' <= c <= 'Z' || '0' <= c <= '9' || c == '_' || c == '+' || c
                == '-' || c == '#'
        };
    text::lemma_first_line(all);
    let n = text::first_line_len(all) as int;
    if n > 0 && all[n - 1] == '\n' && n - 1 <= k {
        assert(line.contains(line[n - 1]));
    }
    assert(all[k] == line[k]);
    assert(!filter::is_language_char(all[k]));
}

/// Fenced code with the name of a language, or with nothing, behind the fence
/// becomes a code block that holds the code, all of it and nothing else, between
/// the HTML of what stands before and behind.
pub proof fn law_fenced_code_becomes_a_block(
    prose: Seq<char>,
    name: Seq<char>,
    code: Seq<char>,
    rest: Seq<char>,
)
    requires
        leads_to_fence(prose),
        is_language_name(name),
        leads_to_fence(code),
        is_balanced(rest),
    ensures
        filter::rendered(prose + "```"@ + (name + "\n"@ + code) + "```"@ + rest)
            == html::escaped(prose) + "<pre>"@ + html::escaped(code) + "</pre>"@
            + filter::rendered(rest),
        html::shown(filter::rendered(prose + "```"@ + (name + "\n"@ + code) + "```"@ + rest))
            == prose + code + html::shown(filter::rendered(rest)),
{
    reveal_strlit("\n");
    reveal_strlit("<pre>");
    reveal_strlit("</pre>");
    assert("<pre>"@ =~= html::pre_open());
    assert("</pre>"@ =~= html::pre_close());
    let block = name + "\n"@ + code;
    let n = name.len() as int;
    assert forall|i: int| !#[trigger] has_fence_at(block, i) by {
        if has_fence_at(block, i) {
            if i < n {
                assert(block[i] == name[i]);
            } else if i > n {
                assert(!has_fence_at(code, i - n - 1));
                assert(block[i] == code[i - n - 1]);
                assert(block[i + 1] == code[i - n]);
                assert(block[i + 2] == code[i - n + 1]);
            } else {
                assert(block[i] == '\n');
            }
        }
    }
    if code.len() > 0 {
        assert(block.last() == code.last());
    } else {
        assert(block.last() == '\n');
    }
    law_only_a_language_name_is_dropped(name, code);
    lemma_block_is_rendered(prose, block, rest);
    let all = filter::rendered(prose + "```"@ + block + "```"@ + rest);
    let tail = html::pre_open() + html::escaped(code) + html::pre_close() + filter::rendered(rest);
    assert(all =~= html::escaped(prose) + "<pre>"@ + html::escaped(code) + "</pre>"@
        + filter::rendered(rest));
    assert(all =~= html::escaped(prose) + tail);
    html::lemma_escaped_is_read(prose, tail, false);
    html::lemma_code_block_is_read(code, filter::rendered(rest));
    assert(prose + (code + html::shown(filter::rendered(rest))) =~= prose + code + html::shown(
        filter::rendered(rest),
    ));
}

/// Fenced code whose first line is not the name of a language, or that has no line
/// feed, becomes a code block that holds all of it.
pub proof fn law_fenced_code_without_a_name_is_kept(
    prose: Seq<char>,
    line: Seq<char>,
    more: Seq<char>,
    rest: Seq<char>,
)
    requires
        leads_to_fence(prose),
        leads_to_fence(line + more),
        !line.contains('\n'),
        !is_language_name(line) || more.len() == 0,
        is_balanced(rest),
    ensures
        filter::rendered(prose + "```"@ + (line + more) + "```"@ + rest) == html::escaped(prose)
            + "<pre>"@ + html::escaped(line + more) + "</pre>"@ + filter::rendered(rest),
{
    reveal_strlit("<pre>");
    reveal_strlit("</pre>");
    assert("<pre>"@ =~= html::pre_open());
    assert("</pre>"@ =~= html::pre_close());
    if more.len() == 0 {
        assert(line + more =~= line);
        law_code_on_one_line_is_kept(line);
    } else {
        law_code_without_a_language_name_is_kept(line, more);
    }
    lemma_block_is_rendered(prose, line + more, rest);
    assert(filter::rendered(prose + "```"@ + (line + more) + "```"@ + rest) =~= html::escaped(prose)
        + "<pre>"@ + html::escaped(line + more) + "</pre>"@ + filter::rendered(rest));
}

} // verus!
