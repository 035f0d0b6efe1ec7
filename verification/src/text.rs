//! Character-level operations on text.

use vstd::prelude::*;
use vstd::slice::slice_subrange;

verus! {

/// `String::push` of std: the character is appended to the text.
pub assume_specification[ String::push ](string: &mut String, c: char)
    ensures
        final(string)@ == old(string)@.push(c),
;

/// The characters of each of the strings.
pub open spec fn texts(strings: Seq<String>) -> Seq<Seq<char>> {
    strings.map_values(|string: String| string@)
}

/// The characters of an optional string.
pub open spec fn optional_text(string: Option<String>) -> Option<Seq<char>> {
    match string {
        Some(string) => Some(string@),
        None => None,
    }
}

/// The characters that Unicode gives the `White_Space` property.
pub open spec fn is_white_space(c: char) -> bool {
    let code = c as u32;
    ||| 0x9 <= code <= 0xd
    ||| code == 0x20
    ||| code == 0x85
    ||| code == 0xa0
    ||| code == 0x1680
    ||| 0x2000 <= code <= 0x200a
    ||| code == 0x2028
    ||| code == 0x2029
    ||| code == 0x202f
    ||| code == 0x205f
    ||| code == 0x3000
}

/// `s` holds nothing but white space.
pub open spec fn is_blank(s: Seq<char>) -> bool {
    forall|i: int| 0 <= i < s.len() ==> is_white_space(#[trigger] s[i])
}

/// `s` without its leading white space.
pub open spec fn trim_start(s: Seq<char>) -> Seq<char>
    decreases s.len(),
{
    if s.len() > 0 && is_white_space(s[0]) {
        trim_start(s.skip(1))
    } else {
        s
    }
}

/// `s` without its trailing white space.
pub open spec fn trim_end(s: Seq<char>) -> Seq<char>
    decreases s.len(),
{
    if s.len() > 0 && is_white_space(s.last()) {
        trim_end(s.drop_last())
    } else {
        s
    }
}

/// `s` without its leading and trailing white space.
pub open spec fn trimmed(s: Seq<char>) -> Seq<char> {
    trim_end(trim_start(s))
}

/// How many characters the first line of `s` has, its line feed among them.
pub open spec fn first_line_len(s: Seq<char>) -> nat
    decreases s.len(),
{
    if s.len() == 0 {
        0
    } else if s[0] == '\n' {
        1
    } else {
        1 + first_line_len(s.skip(1))
    }
}

/// The characters of `text`, in order.
pub fn to_chars(text: &str) -> (chars: Vec<char>)
    ensures
        chars@ == text@,
{
    let mut chars: Vec<char> = Vec::new();
    for c in it: text.chars()
        invariant
            chars@ == text@.take(it.index() as int),
            it.seq() == text@,
    {
        chars.push(c);
        assert(chars@ =~= text@.take(it.index() + 1));
    }
    assert(text@.take(text@.len() as int) =~= text@);
    chars
}

/// The text made of `chars`.
pub fn to_text(chars: &[char]) -> (text: String)
    ensures
        text@ == chars@,
{
    let mut text = String::new();
    for i in 0..chars.len()
        invariant
            text@ == chars@.take(i as int),
    {
        text.push(chars[i]);
        assert(text@ =~= chars@.take(i + 1));
    }
    assert(chars@.take(chars@.len() as int) =~= chars@);
    text
}

/// Appends all of `more` to `chars`.
pub fn extend(chars: &mut Vec<char>, more: &[char])
    ensures
        final(chars)@ == old(chars)@ + more@,
{
    let ghost before = chars@;
    for i in 0..more.len()
        invariant
            chars@ == before + more@.take(i as int),
    {
        chars.push(more[i]);
        assert(chars@ =~= before + more@.take(i + 1));
    }
    assert(more@.take(more@.len() as int) =~= more@);
}

/// Whether `a` and `b` are the same text.
pub fn same_text(a: &str, b: &str) -> (same: bool)
    ensures
        same == (a@ == b@),
{
    let left = to_chars(a);
    let right = to_chars(b);
    if left.len() != right.len() {
        return false;
    }
    for i in 0..left.len()
        invariant
            left@ == a@,
            right@ == b@,
            left.len() == right.len(),
            forall|j: int| 0 <= j < i ==> left[j] == right[j],
    {
        if left[i] != right[i] {
            return false;
        }
    }
    assert(left@ =~= right@);
    true
}

/// Whether `c` has the `White_Space` property.
pub fn white_space(c: char) -> (white: bool)
    ensures
        white == is_white_space(c),
{
    let code: u32 = c as u32;
    (0x9 <= code && code <= 0xd) || code == 0x20 || code == 0x85 || code == 0xa0 || code == 0x1680
        || (0x2000 <= code && code <= 0x200a) || code == 0x2028 || code == 0x2029 || code == 0x202f
        || code == 0x205f || code == 0x3000
}

/// `chars` without its leading and trailing white space.
pub fn trim(chars: &[char]) -> (rest: &[char])
    ensures
        rest@ == trimmed(chars@),
{
    let len: usize = chars.len();
    let mut from: usize = 0;
    assert(chars@.skip(0) =~= chars@);
    while from < len && white_space(chars[from])
        invariant
            from <= len == chars@.len(),
            trim_start(chars@) == trim_start(chars@.skip(from as int)),
        decreases len - from,
    {
        assert(chars@.skip(from as int).skip(1) =~= chars@.skip(from + 1));
        from = from + 1;
    }
    let mut to: usize = len;
    assert(chars@.skip(from as int) =~= chars@.subrange(from as int, to as int));
    while from < to && white_space(chars[to - 1])
        invariant
            from <= to <= chars@.len(),
            trimmed(chars@) == trim_end(chars@.subrange(from as int, to as int)),
        decreases to - from,
    {
        assert(chars@.subrange(from as int, to as int).drop_last() =~= chars@.subrange(
            from as int,
            to - 1,
        ));
        to = to - 1;
    }
    slice_subrange(chars, from, to)
}

/// The position behind the line of `chars` that starts at `from`.
pub fn line_end(chars: &[char], from: usize) -> (to: usize)
    requires
        from < chars@.len(),
    ensures
        from < to <= chars@.len(),
        to - from == first_line_len(chars@.skip(from as int)),
{
    let mut to: usize = from;
    while to < chars.len() && chars[to] != '\n'
        invariant
            from <= to <= chars@.len(),
            to - from + first_line_len(chars@.skip(to as int)) == first_line_len(
                chars@.skip(from as int),
            ),
        decreases chars@.len() - to,
    {
        assert(chars@.skip(to as int).skip(1) =~= chars@.skip(to + 1));
        to = to + 1;
    }
    if to < chars.len() {
        to = to + 1;
    }
    to
}

/// The first line is all of `s` or ends in the first line feed of `s`.
pub proof fn lemma_first_line(s: Seq<char>)
    requires
        s.len() > 0,
    ensures
        1 <= first_line_len(s) <= s.len(),
        forall|i: int| 0 <= i < first_line_len(s) - 1 ==> s[i] != '\n',
        first_line_len(s) < s.len() ==> s[first_line_len(s) - 1] == '\n',
    decreases s.len(),
{
    reveal_with_fuel(first_line_len, 2);
    if s[0] != '\n' && s.len() > 1 {
        let rest = s.skip(1);
        lemma_first_line(rest);
        assert forall|i: int| 0 <= i < first_line_len(s) - 1 implies s[i] != '\n' by {
            if i > 0 {
                assert(s[i] == rest[i - 1]);
            }
        }
    }
}

/// Trimming leaves nothing exactly where there is nothing but white space.
pub proof fn lemma_trimmed_empty(s: Seq<char>)
    ensures
        trimmed(s).len() == 0 <==> is_blank(s),
{
    lemma_trim_start(s);
    lemma_trim_end(trim_start(s));
}

/// Trimmed text starts and ends with what is no white space, and is part of the text.
pub proof fn lemma_trimmed_edges(s: Seq<char>)
    ensures
        trimmed(s).len() > 0 ==> !is_white_space(trimmed(s)[0]) && !is_white_space(
            trimmed(s).last(),
        ),
        trimmed(s).len() <= s.len(),
{
    lemma_trim_start(s);
    lemma_trim_end(trim_start(s));
}

proof fn lemma_trim_start(s: Seq<char>)
    ensures
        trim_start(s).len() <= s.len(),
        trim_start(s).len() > 0 ==> !is_white_space(trim_start(s)[0]),
        trim_start(s).len() == 0 <==> is_blank(s),
    decreases s.len(),
{
    if s.len() > 0 && is_white_space(s[0]) {
        let rest = s.skip(1);
        lemma_trim_start(rest);
        assert(forall|i: int| 0 <= i < rest.len() ==> rest[i] == s[i + 1]);
        if is_blank(rest) {
            assert forall|i: int| 0 <= i < s.len() implies is_white_space(#[trigger] s[i]) by {
                if i > 0 {
                    assert(is_white_space(rest[i - 1]));
                }
            }
        }
    }
}

proof fn lemma_trim_end(s: Seq<char>)
    ensures
        trim_end(s).len() <= s.len(),
        trim_end(s) == s.take(trim_end(s).len() as int),
        trim_end(s).len() > 0 ==> !is_white_space(trim_end(s).last()),
        trim_end(s).len() == 0 <==> is_blank(s),
    decreases s.len(),
{
    if s.len() > 0 && is_white_space(s.last()) {
        let rest = s.drop_last();
        lemma_trim_end(rest);
        assert(trim_end(s) =~= s.take(trim_end(s).len() as int));
        assert(forall|i: int| 0 <= i < rest.len() ==> rest[i] == s[i]);
        if is_blank(rest) {
            assert forall|i: int| 0 <= i < s.len() implies is_white_space(#[trigger] s[i]) by {
                if i < rest.len() {
                    assert(is_white_space(rest[i]));
                }
            }
        }
    } else {
        assert(s.take(s.len() as int) =~= s);
    }
}

/// Trimming takes off the white space around a text and nothing else: where the
/// white space is known, what is left is what stands between it.
pub proof fn law_trimmed_is_the_core(lead: Seq<char>, core: Seq<char>, trail: Seq<char>)
    requires
        is_blank(lead),
        is_blank(trail),
        core.len() > 0 ==> !is_white_space(core[0]) && !is_white_space(core.last()),
    ensures
        trimmed(lead + core + trail) == core,
{
    let all = lead + core + trail;
    if core.len() == 0 {
        assert forall|i: int| 0 <= i < all.len() implies is_white_space(#[trigger] all[i]) by {
            if i < lead.len() {
                assert(all[i] == lead[i]);
            } else {
                assert(all[i] == trail[i - lead.len()]);
            }
        }
        lemma_trimmed_empty(all);
        assert(trimmed(all) =~= core);
    } else {
        assert(all =~= lead + (core + trail));
        assert((core + trail)[0] == core[0]);
        lemma_trim_start_of(lead, core + trail);
        lemma_trim_end_of(core, trail);
    }
}

proof fn lemma_trim_start_of(lead: Seq<char>, rest: Seq<char>)
    requires
        is_blank(lead),
        rest.len() > 0,
        !is_white_space(rest[0]),
    ensures
        trim_start(lead + rest) == rest,
    decreases lead.len(),
{
    if lead.len() == 0 {
        assert(lead + rest =~= rest);
    } else {
        let tail = lead.skip(1);
        assert((lead + rest)[0] == lead[0]);
        assert((lead + rest).skip(1) =~= tail + rest);
        assert forall|i: int| 0 <= i < tail.len() implies is_white_space(#[trigger] tail[i]) by {
            assert(tail[i] == lead[i + 1]);
        }
        lemma_trim_start_of(tail, rest);
    }
}

proof fn lemma_trim_end_of(core: Seq<char>, trail: Seq<char>)
    requires
        is_blank(trail),
        core.len() > 0,
        !is_white_space(core.last()),
    ensures
        trim_end(core + trail) == core,
    decreases trail.len(),
{
    if trail.len() == 0 {
        assert(core + trail =~= core);
    } else {
        let head = trail.drop_last();
        assert((core + trail).last() == trail.last());
        assert(is_white_space(trail[trail.len() - 1]));
        assert((core + trail).drop_last() =~= core + head);
        assert forall|i: int| 0 <= i < head.len() implies is_white_space(#[trigger] head[i]) by {
            assert(head[i] == trail[i]);
        }
        lemma_trim_end_of(core, head);
    }
}

/// A text is what trimming leaves of it, with white space before and behind that
/// is handed out here.
pub proof fn law_trimming_loses_only_white_space(s: Seq<char>) -> (around: (Seq<char>, Seq<char>))
    ensures
        s == around.0 + trimmed(s) + around.1,
        is_blank(around.0),
        is_blank(around.1),
        trimmed(s).len() > 0 ==> !is_white_space(trimmed(s)[0]) && !is_white_space(
            trimmed(s).last(),
        ),
{
    let lead = lemma_trim_start_splits(s);
    let trail = lemma_trim_end_splits(trim_start(s));
    lemma_trimmed_edges(s);
    assert(s =~= lead + trimmed(s) + trail);
    (lead, trail)
}

proof fn lemma_trim_start_splits(s: Seq<char>) -> (lead: Seq<char>)
    ensures
        s == lead + trim_start(s),
        is_blank(lead),
    decreases s.len(),
{
    if s.len() > 0 && is_white_space(s[0]) {
        let rest = lemma_trim_start_splits(s.skip(1));
        let lead = seq![s[0]] + rest;
        assert(s =~= lead + trim_start(s)) by {
            assert(s =~= seq![s[0]] + s.skip(1));
        }
        assert forall|i: int| 0 <= i < lead.len() implies is_white_space(#[trigger] lead[i]) by {
            if i > 0 {
                assert(lead[i] == rest[i - 1]);
            }
        }
        lead
    } else {
        assert(s =~= Seq::<char>::empty() + s);
        Seq::empty()
    }
}

proof fn lemma_trim_end_splits(s: Seq<char>) -> (trail: Seq<char>)
    ensures
        s == trim_end(s) + trail,
        is_blank(trail),
    decreases s.len(),
{
    if s.len() > 0 && is_white_space(s.last()) {
        let rest = lemma_trim_end_splits(s.drop_last());
        let trail = rest.push(s.last());
        assert(s =~= trim_end(s) + trail) by {
            assert(s =~= s.drop_last().push(s.last()));
        }
        assert forall|i: int| 0 <= i < trail.len() implies is_white_space(#[trigger] trail[i]) by {
            if i < rest.len() {
                assert(trail[i] == rest[i]);
            }
        }
        trail
    } else {
        assert(s =~= s + Seq::<char>::empty());
        Seq::empty()
    }
}

/// Strings stand for their characters, one text for each, and an optional string
/// for its characters where there is one.
pub proof fn law_strings_stand_for_their_characters(strings: Seq<String>, string: String)
    ensures
        texts(strings).len() == strings.len(),
        forall|i: int| 0 <= i < strings.len() ==> #[trigger] texts(strings)[i] == strings[i]@,
        optional_text(Some(string)) == Some(string@),
        optional_text(None) is None,
{
}

} // verus!
