//! The HTML that Telegram accepts in a message, as far as messages use it.

use vstd::prelude::*;

verus! {

/// What stands for `&`.
pub open spec fn amp() -> Seq<char> {
    seq!['&', 'a', 'm', 'p', ';']
}

/// What stands for `<`.
pub open spec fn lt() -> Seq<char> {
    seq!['&', 'l', 't', ';']
}

/// What stands for `>`.
pub open spec fn gt() -> Seq<char> {
    seq!['&', 'g', 't', ';']
}

/// The tag that opens a code block.
pub open spec fn pre_open() -> Seq<char> {
    seq!['<', 'p', 'r', 'e', '>']
}

/// The tag that closes a code block.
pub open spec fn pre_close() -> Seq<char> {
    seq!['<', '/', 'p', 'r', 'e', '>']
}

/// The characters that mean something to an HTML parser.
pub open spec fn is_sensitive(c: char) -> bool {
    c == '&' || c == '<' || c == '>'
}

/// `c` as it is written in HTML.
pub open spec fn escaped_char(c: char) -> Seq<char> {
    if c == '&' {
        amp()
    } else if c == '<' {
        lt()
    } else if c == '>' {
        gt()
    } else {
        seq![c]
    }
}

/// `s` as it is written in HTML, character by character.
pub open spec fn escaped(s: Seq<char>) -> Seq<char>
    decreases s.len(),
{
    if s.len() == 0 {
        s
    } else {
        escaped_char(s[0]) + escaped(s.skip(1))
    }
}

/// Telegram's parser accepts `s`, read from inside a code block or from outside
/// one: each sensitive character belongs to an entity or to a tag, code blocks do
/// not nest, and each that opens closes.
pub open spec fn is_accepted(s: Seq<char>, inside: bool) -> bool
    decreases s.len(),
{
    if s.len() == 0 {
        !inside
    } else if pre_open().is_prefix_of(s) {
        !inside && is_accepted(s.skip(5), true)
    } else if pre_close().is_prefix_of(s) {
        inside && is_accepted(s.skip(6), false)
    } else if amp().is_prefix_of(s) {
        is_accepted(s.skip(5), inside)
    } else if lt().is_prefix_of(s) || gt().is_prefix_of(s) {
        is_accepted(s.skip(4), inside)
    } else {
        !is_sensitive(s[0]) && is_accepted(s.skip(1), inside)
    }
}

/// What a reader of the message `s` sees: entities as what they stand for, no tags.
pub open spec fn shown(s: Seq<char>) -> Seq<char>
    decreases s.len(),
{
    if s.len() == 0 {
        s
    } else if pre_open().is_prefix_of(s) {
        shown(s.skip(5))
    } else if pre_close().is_prefix_of(s) {
        shown(s.skip(6))
    } else if amp().is_prefix_of(s) {
        seq!['&'] + shown(s.skip(5))
    } else if lt().is_prefix_of(s) {
        seq!['<'] + shown(s.skip(4))
    } else if gt().is_prefix_of(s) {
        seq!['>'] + shown(s.skip(4))
    } else {
        seq![s[0]] + shown(s.skip(1))
    }
}

/// `s` with `with` in the place of each `c`.
pub open spec fn replaced(s: Seq<char>, c: char, with: Seq<char>) -> Seq<char>
    decreases s.len(),
{
    if s.len() == 0 {
        s
    } else {
        (if s[0] == c {
            with
        } else {
            seq![s[0]]
        }) + replaced(s.skip(1), c, with)
    }
}

proof fn lemma_prefix(prefix: Seq<char>, s: Seq<char>)
    requires
        prefix.is_prefix_of(s),
    ensures
        prefix.len() <= s.len(),
        forall|i: int| 0 <= i < prefix.len() ==> prefix[i] == s[i],
{
    assert forall|i: int| 0 <= i < prefix.len() implies prefix[i] == s[i] by {
        assert(s.subrange(0, prefix.len() as int)[i] == s[i]);
    }
}

/// What an entity or an insensitive character at the start of a text is not mistaken for.
proof fn lemma_char_starts(c: char, rest: Seq<char>)
    ensures
        ({
            let all = escaped_char(c) + rest;
            &&& !pre_open().is_prefix_of(all)
            &&& !pre_close().is_prefix_of(all)
            &&& amp().is_prefix_of(all) == (c == '&')
            &&& lt().is_prefix_of(all) == (c == '<')
            &&& gt().is_prefix_of(all) == (c == '>')
            &&& all.skip(escaped_char(c).len() as int) == rest
            &&& all[0] == escaped_char(c)[0]
        }),
{
    let all = escaped_char(c) + rest;
    assert(all.skip(escaped_char(c).len() as int) =~= rest);
    assert(forall|i: int| 0 <= i < escaped_char(c).len() ==> all[i] == escaped_char(c)[i]);
    if pre_open().is_prefix_of(all) {
        lemma_prefix(pre_open(), all);
        assert(all[0] == '<');
    }
    if pre_close().is_prefix_of(all) {
        lemma_prefix(pre_close(), all);
        assert(all[0] == '<');
    }
    if amp().is_prefix_of(all) {
        lemma_prefix(amp(), all);
        assert(all[0] == '&' && all[1] == 'a');
    }
    if lt().is_prefix_of(all) {
        lemma_prefix(lt(), all);
        assert(all[0] == '&' && all[1] == 'l');
    }
    if gt().is_prefix_of(all) {
        lemma_prefix(gt(), all);
        assert(all[0] == '&' && all[1] == 'g');
    }
    if is_sensitive(c) {
        assert(escaped_char(c) =~= all.subrange(0, escaped_char(c).len() as int));
    }
}

/// Escaped text is read as the text itself, whatever follows it and wherever it
/// stands.
pub proof fn lemma_escaped_is_read(s: Seq<char>, rest: Seq<char>, inside: bool)
    ensures
        is_accepted(escaped(s) + rest, inside) == is_accepted(rest, inside),
        shown(escaped(s) + rest) == s + shown(rest),
    decreases s.len(),
{
    if s.len() == 0 {
        assert(escaped(s) + rest =~= rest);
        assert(s + shown(rest) =~= shown(rest));
    } else {
        let c = s[0];
        let tail = escaped(s.skip(1)) + rest;
        lemma_escaped_is_read(s.skip(1), rest, inside);
        assert(escaped(s) + rest =~= escaped_char(c) + tail);
        lemma_char_starts(c, tail);
        assert(shown(escaped(s) + rest) == seq![c] + shown(tail));
        assert(seq![c] + (s.skip(1) + shown(rest)) =~= s + shown(rest));
    }
}

/// A code block that holds escaped text is read as a block of that text.
pub proof fn lemma_code_block_is_read(s: Seq<char>, rest: Seq<char>)
    ensures
        is_accepted(pre_open() + escaped(s) + pre_close() + rest, false) == is_accepted(
            rest,
            false,
        ),
        shown(pre_open() + escaped(s) + pre_close() + rest) == s + shown(rest),
{
    let closing = pre_close() + rest;
    let inner = escaped(s) + closing;
    let all = pre_open() + escaped(s) + pre_close() + rest;
    assert(all =~= pre_open() + inner);
    assert(pre_open() =~= all.subrange(0, 5));
    assert(all.skip(5) =~= inner);
    lemma_escaped_is_read(s, closing, true);
    assert(is_accepted(inner, true) == is_accepted(closing, true));
    assert(pre_close() =~= closing.subrange(0, 6));
    if pre_open().is_prefix_of(closing) {
        lemma_prefix(pre_open(), closing);
        assert(closing[1] == 'p');
    }
    assert(closing.skip(6) =~= rest);
}

/// Escaped text is accepted, whatever the text.
pub proof fn law_escaped_is_accepted(s: Seq<char>)
    ensures
        is_accepted(escaped(s), false),
{
    lemma_escaped_is_read(s, Seq::empty(), false);
    assert(escaped(s) + Seq::<char>::empty() =~= escaped(s));
}

/// A reader of escaped text sees the text: nothing is lost and nothing is escaped twice.
pub proof fn law_escaped_shows_the_text(s: Seq<char>)
    ensures
        shown(escaped(s)) == s,
{
    lemma_escaped_is_read(s, Seq::empty(), false);
    assert(escaped(s) + Seq::<char>::empty() =~= escaped(s));
    assert(s + shown(Seq::<char>::empty()) =~= s);
}

/// Escaped text holds no angle bracket.
pub proof fn law_escaped_holds_no_bracket(s: Seq<char>)
    ensures
        !escaped(s).contains('<'),
        !escaped(s).contains('>'),
    decreases s.len(),
{
    if s.len() > 0 {
        let head = escaped_char(s[0]);
        let tail = escaped(s.skip(1));
        law_escaped_holds_no_bracket(s.skip(1));
        assert forall|i: int| 0 <= i < head.len() + tail.len() implies (head + tail)[i] != '<' && (
        head + tail)[i] != '>' by {
            if i >= head.len() {
                assert((head + tail)[i] == tail[i - head.len()]);
                assert(tail.contains(tail[i - head.len()]));
            }
        }
    }
}

/// To escape two texts one after the other is to escape them joined.
pub proof fn law_escaping_joins(a: Seq<char>, b: Seq<char>)
    ensures
        escaped(a + b) == escaped(a) + escaped(b),
    decreases a.len(),
{
    if a.len() == 0 {
        assert(a + b =~= b);
        assert(escaped(a) + escaped(b) =~= escaped(b));
    } else {
        law_escaping_joins(a.skip(1), b);
        assert((a + b).skip(1) =~= a.skip(1) + b);
        assert(escaped(a + b) =~= escaped(a) + escaped(b));
    }
}

/// Different texts stay different when they are escaped.
pub proof fn law_escaping_is_injective(a: Seq<char>, b: Seq<char>)
    requires
        escaped(a) == escaped(b),
    ensures
        a == b,
{
    law_escaped_shows_the_text(a);
    law_escaped_shows_the_text(b);
}

/// To escape is to replace `&`, then `<`, then `>`: with `&` first, no entity is
/// itself escaped.
pub proof fn law_escaping_is_replacing_in_order(s: Seq<char>)
    ensures
        replaced(replaced(replaced(s, '&', amp()), '<', lt()), '>', gt()) == escaped(s),
    decreases s.len(),
{
    if s.len() > 0 {
        let c = s[0];
        let tail = s.skip(1);
        law_escaping_is_replacing_in_order(tail);
        let one = if c == '&' {
            amp()
        } else {
            seq![c]
        };
        let two = if c == '<' {
            lt()
        } else {
            one
        };
        let first = replaced(tail, '&', amp());
        let second = replaced(first, '<', lt());
        lemma_replaced_joins(one, first, '<', lt());
        lemma_replaced_joins(two, second, '>', gt());
        if c == '<' {
            lemma_replaced_one(c, '<', lt());
        } else {
            lemma_replaced_absent(one, '<', lt());
        }
        if c == '>' {
            lemma_replaced_one(c, '>', gt());
        } else {
            lemma_replaced_absent(two, '>', gt());
        }
    }
}

proof fn lemma_replaced_joins(a: Seq<char>, b: Seq<char>, c: char, with: Seq<char>)
    ensures
        replaced(a + b, c, with) == replaced(a, c, with) + replaced(b, c, with),
    decreases a.len(),
{
    if a.len() == 0 {
        assert(a + b =~= b);
        assert(replaced(a, c, with) + replaced(b, c, with) =~= replaced(b, c, with));
    } else {
        lemma_replaced_joins(a.skip(1), b, c, with);
        assert((a + b).skip(1) =~= a.skip(1) + b);
        assert(replaced(a + b, c, with) =~= replaced(a, c, with) + replaced(b, c, with));
    }
}

proof fn lemma_replaced_one(c: char, target: char, with: Seq<char>)
    requires
        c == target,
    ensures
        replaced(seq![c], target, with) == with,
{
    reveal_with_fuel(replaced, 2);
    assert(with + replaced(seq![c].skip(1), target, with) =~= with);
}

proof fn lemma_replaced_absent(s: Seq<char>, c: char, with: Seq<char>)
    requires
        forall|i: int| 0 <= i < s.len() ==> s[i] != c,
    ensures
        replaced(s, c, with) == s,
    decreases s.len(),
{
    if s.len() > 0 {
        lemma_replaced_absent(s.skip(1), c, with);
        assert(seq![s[0]] + s.skip(1) =~= s);
    }
}

/// How each character is escaped: the three sensitive ones become their entities,
/// any other stays.
pub proof fn law_characters_are_escaped_one_by_one(c: char, rest: Seq<char>)
    ensures
        escaped(Seq::empty()).len() == 0,
        escaped(seq!['&'] + rest) == "&amp;"@ + escaped(rest),
        escaped(seq!['<'] + rest) == "&lt;"@ + escaped(rest),
        escaped(seq!['>'] + rest) == "&gt;"@ + escaped(rest),
        c != '&' && c != '<' && c != '>' ==> escaped(seq![c] + rest) == seq![c] + escaped(rest),
{
    reveal_strlit("&amp;");
    reveal_strlit("&lt;");
    reveal_strlit("&gt;");
    assert("&amp;"@ =~= amp());
    assert("&lt;"@ =~= lt());
    assert("&gt;"@ =~= gt());
    assert((seq!['&'] + rest).skip(1) =~= rest);
    assert((seq!['<'] + rest).skip(1) =~= rest);
    assert((seq!['>'] + rest).skip(1) =~= rest);
    assert((seq![c] + rest).skip(1) =~= rest);
}

/// How a message is read: an entity shows its character, a tag shows nothing and
/// opens or closes a code block, and any character that is not sensitive shows
/// itself.
pub proof fn law_markup_is_read_piece_by_piece(c: char, rest: Seq<char>, inside: bool)
    ensures
        shown(Seq::empty()).len() == 0,
        is_accepted(Seq::empty(), inside) == !inside,
        shown("&amp;"@ + rest) == seq!['&'] + shown(rest),
        shown("&lt;"@ + rest) == seq!['<'] + shown(rest),
        shown("&gt;"@ + rest) == seq!['>'] + shown(rest),
        is_accepted("&amp;"@ + rest, inside) == is_accepted(rest, inside),
        is_accepted("&lt;"@ + rest, inside) == is_accepted(rest, inside),
        is_accepted("&gt;"@ + rest, inside) == is_accepted(rest, inside),
        shown("<pre>"@ + rest) == shown(rest),
        shown("</pre>"@ + rest) == shown(rest),
        is_accepted("<pre>"@ + rest, inside) == (!inside && is_accepted(rest, true)),
        is_accepted("</pre>"@ + rest, inside) == (inside && is_accepted(rest, false)),
        c != '&' && c != '<' && c != '>' ==> shown(seq![c] + rest) == seq![c] + shown(rest),
        c != '&' && c != '<' && c != '>' ==> is_accepted(seq![c] + rest, inside) == is_accepted(
            rest,
            inside,
        ),
{
    lemma_literals();
    lemma_char_starts('&', rest);
    lemma_char_starts('<', rest);
    lemma_char_starts('>', rest);
    lemma_char_starts(c, rest);
    let opened = pre_open() + rest;
    let closed = pre_close() + rest;
    assert(pre_open() =~= opened.subrange(0, 5));
    assert(opened.skip(5) =~= rest);
    assert(pre_close() =~= closed.subrange(0, 6));
    assert(closed.skip(6) =~= rest);
    if pre_open().is_prefix_of(closed) {
        lemma_prefix(pre_open(), closed);
        assert(closed[1] == 'p');
    }
}

proof fn lemma_literals()
    ensures
        "&amp;"@ == amp(),
        "&lt;"@ == lt(),
        "&gt;"@ == gt(),
        "<pre>"@ == pre_open(),
        "</pre>"@ == pre_close(),
{
    reveal_strlit("&amp;");
    reveal_strlit("&lt;");
    reveal_strlit("&gt;");
    reveal_strlit("<pre>");
    reveal_strlit("</pre>");
    assert("&amp;"@ =~= amp());
    assert("&lt;"@ =~= lt());
    assert("&gt;"@ =~= gt());
    assert("<pre>"@ =~= pre_open());
    assert("</pre>"@ =~= pre_close());
}

/// No accepted text starts with a bare bracket or a bare ampersand.
pub proof fn law_bare_markup_is_refused(s: Seq<char>, inside: bool)
    requires
        s.len() > 0,
        is_accepted(s, inside),
    ensures
        s[0] == '<' ==> "<pre>"@.is_prefix_of(s) || "</pre>"@.is_prefix_of(s),
        s[0] == '&' ==> "&amp;"@.is_prefix_of(s) || "&lt;"@.is_prefix_of(s)
            || "&gt;"@.is_prefix_of(s),
        s[0] != '>',
{
    lemma_literals();
    if pre_open().is_prefix_of(s) {
        lemma_prefix(pre_open(), s);
        assert(pre_open()[0] == s[0]);
    }
    if pre_close().is_prefix_of(s) {
        lemma_prefix(pre_close(), s);
        assert(pre_close()[0] == s[0]);
    }
    if amp().is_prefix_of(s) {
        lemma_prefix(amp(), s);
        assert(amp()[0] == s[0]);
    }
    if lt().is_prefix_of(s) {
        lemma_prefix(lt(), s);
        assert(lt()[0] == s[0]);
    }
    if gt().is_prefix_of(s) {
        lemma_prefix(gt(), s);
        assert(gt()[0] == s[0]);
    }
}

} // verus!
