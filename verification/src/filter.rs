//! Turns agent output into messages in Telegram's HTML.
//!
//! Text is cut into chunks first and escaped afterwards, chunk by chunk: no
//! entity is cut in two, and a code block that a cut leaves without its closing
//! fence is escaped as ordinary text, so that no tag is left open.

use vstd::prelude::*;
use vstd::slice::slice_subrange;

use crate::html;
use crate::narration;
use crate::narration::clean_for_stream;
use crate::text;
use crate::text::{extend, line_end, to_chars, to_text, trim, white_space};

verus! {

/// How many characters Telegram accepts in one message.
pub const TELEGRAM_MAX_CHARS: usize = 4096;

/// What stands for the part that a preview leaves out.
pub const ELLIPSIS: char = '\u{2026}';

/// The largest line boundary of `s` that is not behind `limit`, or 0.
pub open spec fn last_line_boundary(s: Seq<char>, limit: nat) -> nat
    decreases limit,
{
    if limit == 0 || s[limit - 1] == '\n' {
        limit
    } else {
        last_line_boundary(s, (limit - 1) as nat)
    }
}

/// How many characters of `s` go into its first chunk: all where they fit, else
/// as many whole lines as fit, else as much of the first line as fits.
pub open spec fn first_chunk_len(s: Seq<char>, ceiling: nat) -> nat {
    if s.len() <= ceiling {
        s.len()
    } else if last_line_boundary(s, ceiling) > 0 {
        last_line_boundary(s, ceiling)
    } else {
        ceiling
    }
}

/// `s` cut into chunks of at most `ceiling` characters.
pub open spec fn chunks(s: Seq<char>, ceiling: nat) -> Seq<Seq<char>>
    decreases s.len(),
{
    if s.len() == 0 || ceiling == 0 {
        Seq::empty()
    } else {
        let n = first_chunk_len(s, ceiling) as int;
        proof {
            lemma_first_chunk(s, ceiling);
        }
        seq![s.take(n)] + chunks(s.skip(n), ceiling)
    }
}

/// The boundary has a line feed before it and none between it and the limit.
pub proof fn lemma_last_line_boundary(s: Seq<char>, limit: nat)
    requires
        limit <= s.len(),
    ensures
        last_line_boundary(s, limit) <= limit,
        last_line_boundary(s, limit) > 0 ==> s[last_line_boundary(s, limit) - 1] == '\n',
        forall|i: int| last_line_boundary(s, limit) <= i < limit ==> s[i] != '\n',
    decreases limit,
{
    if limit > 0 && s[limit - 1] != '\n' {
        lemma_last_line_boundary(s, (limit - 1) as nat);
    }
}

/// The first chunk has a character and fits; unless it is all of the text, it
/// ends in a line feed or is as long as it may be and holds none.
pub proof fn lemma_first_chunk(s: Seq<char>, ceiling: nat)
    requires
        s.len() > 0,
        ceiling > 0,
    ensures
        1 <= first_chunk_len(s, ceiling) <= s.len(),
        first_chunk_len(s, ceiling) <= ceiling,
        first_chunk_len(s, ceiling) == s.len() || s[first_chunk_len(s, ceiling) - 1] == '\n' || (
        first_chunk_len(s, ceiling) == ceiling && forall|i: int|
            0 <= i < ceiling ==> s[i] != '\n'),
{
    if s.len() > ceiling {
        lemma_last_line_boundary(s, ceiling);
    }
}

/// Where the text does not fit, a line boundary with no other behind it is where
/// the first chunk ends.
proof fn lemma_cut_at_boundary(s: Seq<char>, ceiling: nat, at: nat)
    requires
        at <= ceiling < s.len(),
        at > 0 ==> s[at - 1] == '\n',
        forall|i: int| at <= i < ceiling ==> s[i] != '\n',
    ensures
        first_chunk_len(s, ceiling) == if at > 0 {
            at
        } else {
            ceiling
        },
{
    lemma_last_line_boundary(s, ceiling);
    let found = last_line_boundary(s, ceiling);
    if found < at {
        assert(s[at - 1] != '\n');
    } else if at < found {
        assert(s[found - 1] != '\n');
    }
}

/// Adds the characters from `from` up to `to` to `done` as one more text.
fn push_range(done: &mut Vec<String>, chars: &[char], from: usize, to: usize)
    requires
        from <= to <= chars@.len(),
    ensures
        text::texts(final(done)@) == text::texts(old(done)@).push(
            chars@.subrange(from as int, to as int),
        ),
{
    let ghost before = done@;
    done.push(to_text(slice_subrange(chars, from, to)));
    assert(text::texts(done@) =~= text::texts(before).push(
        chars@.subrange(from as int, to as int),
    ));
}

/// Cuts `text` into chunks of at most `ceiling` characters, at line boundaries
/// where it can; a line longer than that is cut at the ceiling.
pub fn chunk_plain(text: &str, ceiling: usize) -> (pieces: Vec<String>)
    requires
        ceiling >= 1,
    ensures
        text::texts(pieces@) == chunks(text@, ceiling as nat),
{
    let all = to_chars(text);
    let chars = all.as_slice();
    let len: usize = chars.len();
    let mut done: Vec<String> = Vec::new();
    // The chunk at hand goes from `from` up to `at`.
    let mut from: usize = 0;
    let mut at: usize = 0;
    proof {
        assert(chars@.skip(0) =~= chars@);
        assert(text::texts(done@) + chunks(chars@, ceiling as nat) =~= chunks(
            chars@,
            ceiling as nat,
        ));
    }
    while at < len
        invariant
            ceiling >= 1,
            from <= at <= len == chars@.len(),
            at - from <= ceiling,
            from < at < len ==> chars@[at - 1] == '\n',
            chunks(chars@, ceiling as nat) == text::texts(done@) + chunks(
                chars@.skip(from as int),
                ceiling as nat,
            ),
        decreases len - at,
    {
        let next = line_end(chars, at);
        proof {
            text::lemma_first_line(chars@.skip(at as int));
            assert forall|i: int| at <= i < next - 1 implies chars@[i] != '\n' by {
                assert(chars@.skip(at as int)[i - at] == chars@[i]);
            }
            if next < len {
                assert(chars@.skip(at as int)[next - at - 1] == chars@[next - 1]);
            }
        }
        if next - from > ceiling {
            if from < at {
                proof {
                    lemma_cut_at_boundary(
                        chars@.skip(from as int),
                        ceiling as nat,
                        (at - from) as nat,
                    );
                    lemma_chunk_out(
                        text::texts(done@),
                        chars@,
                        from as int,
                        at as int,
                        ceiling as nat,
                    );
                }
                push_range(&mut done, chars, from, at);
                from = at;
            }
            while next - from > ceiling
                invariant
                    ceiling >= 1,
                    at <= from < next <= len == chars@.len(),
                    forall|i: int| at <= i < next - 1 ==> chars@[i] != '\n',
                    chunks(chars@, ceiling as nat) == text::texts(done@) + chunks(
                        chars@.skip(from as int),
                        ceiling as nat,
                    ),
                decreases next - from,
            {
                let cut: usize = from + ceiling;
                proof {
                    lemma_cut_at_boundary(chars@.skip(from as int), ceiling as nat, 0);
                    lemma_chunk_out(
                        text::texts(done@),
                        chars@,
                        from as int,
                        cut as int,
                        ceiling as nat,
                    );
                }
                push_range(&mut done, chars, from, cut);
                from = cut;
            }
        }
        at = next;
    }
    if from < len {
        proof {
            lemma_chunk_out(text::texts(done@), chars@, from as int, len as int, ceiling as nat);
        }
        push_range(&mut done, chars, from, len);
        from = len;
    }
    assert(text::texts(done@) + chunks(chars@.skip(from as int), ceiling as nat) =~= text::texts(
        done@,
    ));
    done
}

/// Takes the first chunk off what is left of a text.
proof fn lemma_chunk_out(
    done: Seq<Seq<char>>,
    s: Seq<char>,
    from: int,
    to: int,
    ceiling: nat,
)
    requires
        0 <= from < to <= s.len(),
        ceiling > 0,
        first_chunk_len(s.skip(from), ceiling) == to - from,
    ensures
        done + chunks(s.skip(from), ceiling) == done.push(s.subrange(from, to)) + chunks(
            s.skip(to),
            ceiling,
        ),
{
    assert(s.skip(from).take(to - from) =~= s.subrange(from, to));
    assert(s.skip(from).skip(to - from) =~= s.skip(to));
    assert(done + (seq![s.subrange(from, to)] + chunks(s.skip(to), ceiling)) =~= done.push(
        s.subrange(from, to),
    ) + chunks(s.skip(to), ceiling));
}

/// `s` starts with the fence of a code block.
pub open spec fn starts_with_fence(s: Seq<char>) -> bool {
    s.len() >= 3 && s[0] == '`' && s[1] == '`' && s[2] == '`'
}

/// How many characters of `s` stand before its first fence: all where there is none.
pub open spec fn before_fence(s: Seq<char>) -> nat
    decreases s.len(),
{
    if s.len() == 0 || starts_with_fence(s) {
        0
    } else {
        1 + before_fence(s.skip(1))
    }
}

/// The pieces of `s` between its fences.
pub open spec fn segments(s: Seq<char>) -> Seq<Seq<char>>
    decreases s.len(),
{
    let n = before_fence(s) as int;
    proof {
        lemma_before_fence(s);
    }
    if n < s.len() {
        seq![s.take(n)] + segments(s.skip(n + 3))
    } else {
        seq![s]
    }
}

/// Up to its first fence `s` holds no other.
pub proof fn lemma_before_fence(s: Seq<char>)
    ensures
        before_fence(s) <= s.len(),
        before_fence(s) < s.len() ==> before_fence(s) + 3 <= s.len() && starts_with_fence(
            s.skip(before_fence(s) as int),
        ),
    decreases s.len(),
{
    if s.len() == 0 {
    } else if starts_with_fence(s) {
        assert(s.skip(0) =~= s);
    } else {
        lemma_before_fence(s.skip(1));
        assert(s.skip(1).skip(before_fence(s.skip(1)) as int) =~= s.skip(before_fence(s) as int));
    }
}

/// The characters of a language's name behind a fence.
pub open spec fn is_language_char(c: char) -> bool {
    ||| 'a' <= c <= 'z'
    ||| 'A' <= c <= 'Z'
    ||| '0' <= c <= '9'
    ||| c == '_'
    ||| c == '+'
    ||| c == '-'
    ||| c == '#'
}

/// `code` without its first line, where that is empty or a language's name.
pub open spec fn without_language(code: Seq<char>) -> Seq<char> {
    let n = text::first_line_len(code) as int;
    if n > 0 && code[n - 1] == '\n' && forall|i: int|
        0 <= i < n - 1 ==> is_language_char(#[trigger] code[i]) {
        code.skip(n)
    } else {
        code
    }
}

/// `code` as a code block.
pub open spec fn code_block(code: Seq<char>) -> Seq<char> {
    html::pre_open() + html::escaped(without_language(code)) + html::pre_close()
}

/// The HTML of segments that are ordinary text and code in turn, `code` telling
/// what the first one is.
pub open spec fn rendered_segments(segments: Seq<Seq<char>>, code: bool) -> Seq<char>
    decreases segments.len(),
{
    if segments.len() == 0 {
        Seq::empty()
    } else {
        (if code {
            code_block(segments[0])
        } else {
            html::escaped(segments[0])
        }) + rendered_segments(segments.skip(1), !code)
    }
}

/// The HTML of `chunk`: its fenced code as code blocks where each fence has its
/// partner, else all of it as ordinary text.
pub open spec fn rendered(chunk: Seq<char>) -> Seq<char> {
    if segments(chunk).len() % 2 == 0 {
        html::escaped(chunk)
    } else {
        rendered_segments(segments(chunk), false)
    }
}

/// Appends `chars` to `out`, escaped.
fn push_escaped(out: &mut String, chars: &[char])
    ensures
        final(out)@ == old(out)@ + html::escaped(chars@),
{
    let ghost before = out@;
    assert(chars@.skip(0) =~= chars@);
    for i in 0..chars.len()
        invariant
            before + html::escaped(chars@) == out@ + html::escaped(chars@.skip(i as int)),
    {
        let ghost so_far = out@;
        let c = chars[i];
        if c == '&' {
            out.append("&amp;");
        } else if c == '<' {
            out.append("&lt;");
        } else if c == '>' {
            out.append("&gt;");
        } else {
            out.push(c);
        }
        proof {
            reveal_strlit("&amp;");
            reveal_strlit("&lt;");
            reveal_strlit("&gt;");
            assert(out@ =~= so_far + html::escaped_char(c));
            assert(chars@.skip(i as int).skip(1) =~= chars@.skip(i + 1));
            assert(so_far + (html::escaped_char(c) + html::escaped(chars@.skip(i + 1))) =~= out@
                + html::escaped(chars@.skip(i + 1)));
        }
    }
    assert(out@ + html::escaped(chars@.skip(chars@.len() as int)) =~= out@);
}

/// `input` with the three characters that an HTML parser is sensitive to escaped.
pub fn escape_html(input: &str) -> (escaped: String)
    ensures
        escaped@ == html::escaped(input@),
{
    let mut out = String::new();
    push_escaped(&mut out, to_chars(input).as_slice());
    assert(out@ =~= html::escaped(input@));
    out
}

/// The pieces of `chars` between its fences.
fn split_fences<'a>(chars: &'a [char]) -> (pieces: Vec<&'a [char]>)
    ensures
        pieces@.map_values(|piece: &[char]| piece@) == segments(chars@),
{
    let len: usize = chars.len();
    let mut pieces: Vec<&'a [char]> = Vec::new();
    let mut from: usize = 0;
    let mut at: usize = 0;
    proof {
        assert(chars@.skip(0) =~= chars@);
        assert(pieces@.map_values(|piece: &[char]| piece@) + segments(chars@) =~= segments(chars@));
    }
    while at < len
        invariant
            from <= at <= len == chars@.len(),
            before_fence(chars@.skip(from as int)) == at - from + before_fence(
                chars@.skip(at as int),
            ),
            segments(chars@) == pieces@.map_values(|piece: &[char]| piece@) + segments(
                chars@.skip(from as int),
            ),
        decreases len - at,
    {
        if len - at >= 3 && chars[at] == '`' && chars[at + 1] == '`' && chars[at + 2] == '`' {
            let ghost before = pieces@.map_values(|piece: &[char]| piece@);
            let piece = slice_subrange(chars, from, at);
            pieces.push(piece);
            proof {
                let tail = chars@.skip(from as int);
                assert(starts_with_fence(chars@.skip(at as int)));
                assert(tail.take(at - from) =~= piece@);
                assert(tail.skip(at - from + 3) =~= chars@.skip(at + 3));
                assert(pieces@.map_values(|piece: &[char]| piece@) =~= before.push(piece@));
                assert(before + (seq![piece@] + segments(chars@.skip(at + 3))) =~= before.push(
                    piece@,
                ) + segments(chars@.skip(at + 3)));
            }
            at = at + 3;
            from = at;
        } else {
            assert(chars@.skip(at as int).skip(1) =~= chars@.skip(at + 1));
            at = at + 1;
        }
    }
    let ghost before = pieces@.map_values(|piece: &[char]| piece@);
    let piece = slice_subrange(chars, from, len);
    pieces.push(piece);
    proof {
        assert(chars@.skip(from as int) =~= piece@);
        assert(segments(piece@) =~= seq![piece@]);
        assert(pieces@.map_values(|piece: &[char]| piece@) =~= before + seq![piece@]);
    }
    pieces
}

/// Whether `c` can stand in a language's name behind a fence.
fn language_char(c: char) -> (language: bool)
    ensures
        language == is_language_char(c),
{
    ('a' <= c && c <= 'z') || ('A' <= c && c <= 'Z') || ('0' <= c && c <= '9') || c == '_' || c
        == '+' || c == '-' || c == '#'
}

/// `code` without its first line, where that is empty or a language's name.
fn strip_lang_hint<'a>(code: &'a [char]) -> (rest: &'a [char])
    ensures
        rest@ == without_language(code@),
{
    let len: usize = code.len();
    if len == 0 {
        return code;
    }
    let end = line_end(code, 0);
    proof {
        assert(code@.skip(0) =~= code@);
        text::lemma_first_line(code@);
    }
    let feed: usize = end - 1;
    if code[feed] != '\n' {
        return code;
    }
    for i in 0..feed
        invariant
            feed + 1 == end <= len == code@.len(),
            end == text::first_line_len(code@),
            forall|j: int| 0 <= j < i ==> is_language_char(#[trigger] code@[j]),
    {
        if !language_char(code[i]) {
            return code;
        }
    }
    assert(code@.skip(end as int) =~= code@.subrange(end as int, len as int));
    slice_subrange(code, end, len)
}

/// The HTML of one chunk of plain text. Its fenced code becomes code blocks where
/// each fence has its partner; else all of it is escaped as it stands.
pub fn render_html(chunk: &str) -> (message: String)
    ensures
        message@ == rendered(chunk@),
{
    let all = to_chars(chunk);
    let chars = all.as_slice();
    let pieces = split_fences(chars);
    let ghost segs = segments(chunk@);
    let mut out = String::new();
    if pieces.len() % 2 == 0 {
        push_escaped(&mut out, chars);
        assert(out@ =~= html::escaped(chunk@));
        return out;
    }
    assert(segs.skip(0) =~= segs);
    assert(out@ + rendered_segments(segs, false) =~= rendered_segments(segs, false));
    for i in 0..pieces.len()
        invariant
            pieces@.map_values(|piece: &[char]| piece@) == segs,
            rendered_segments(segs, false) == out@ + rendered_segments(
                segs.skip(i as int),
                i % 2 == 1,
            ),
    {
        let ghost so_far = out@;
        assert(segs[i as int] == pieces@[i as int]@);
        if i % 2 == 0 {
            push_escaped(&mut out, pieces[i]);
        } else {
            out.append("<pre>");
            push_escaped(&mut out, strip_lang_hint(pieces[i]));
            out.append("</pre>");
        }
        proof {
            reveal_strlit("<pre>");
            reveal_strlit("</pre>");
            let left = segs.skip(i as int);
            assert(left.skip(1) =~= segs.skip(i + 1));
            let piece = if i % 2 == 1 {
                code_block(left[0])
            } else {
                html::escaped(left[0])
            };
            assert("<pre>"@ =~= html::pre_open());
            assert("</pre>"@ =~= html::pre_close());
            assert(out@ =~= so_far + piece);
            assert(so_far + (piece + rendered_segments(segs.skip(i + 1), (i + 1) % 2 == 1)) =~= out@
                + rendered_segments(segs.skip(i + 1), (i + 1) % 2 == 1));
        }
    }
    assert(out@ + rendered_segments(segs.skip(segs.len() as int), segs.len() % 2 == 1) =~= out@);
    out
}

/// What a person is to read of `body`.
pub open spec fn plain(body: Seq<char>) -> Seq<char> {
    text::trimmed(narration::cleaned(body))
}

/// `ceiling`, held between one character and what Telegram accepts.
pub open spec fn clamped(ceiling: u32) -> nat {
    if ceiling < 1 {
        1
    } else if ceiling > TELEGRAM_MAX_CHARS {
        TELEGRAM_MAX_CHARS as nat
    } else {
        ceiling as nat
    }
}

/// The messages that carry `body`: the HTML of each chunk of what is to be read
/// that is not blank.
pub open spec fn messages(body: Seq<char>, ceiling: u32) -> Seq<Seq<char>> {
    chunks(plain(body), clamped(ceiling)).map_values(|chunk: Seq<char>| rendered(chunk)).filter(
        |message: Seq<char>| !text::is_blank(message),
    )
}

/// What is to be read of `body`, cut to the ceiling with an ellipsis where it is longer.
pub open spec fn preview_text(body: Seq<char>, ceiling: u32) -> Seq<char> {
    if plain(body).len() > clamped(ceiling) {
        plain(body).take(clamped(ceiling) - 1).push(ELLIPSIS)
    } else {
        plain(body)
    }
}

/// The one message that previews `body`.
pub open spec fn preview(body: Seq<char>, ceiling: u32) -> Seq<char> {
    html::escaped(preview_text(body, ceiling))
}

/// `ceiling`, held between one character and what Telegram accepts.
fn clamp_ceiling(ceiling: u32) -> (limit: usize)
    ensures
        limit == clamped(ceiling),
{
    let limit: usize = ceiling as usize;
    if limit < 1 {
        1
    } else if limit > TELEGRAM_MAX_CHARS {
        TELEGRAM_MAX_CHARS
    } else {
        limit
    }
}

/// Whether `text` holds nothing but white space.
fn blank(text: &str) -> (blank: bool)
    ensures
        blank == text::is_blank(text@),
{
    let chars = to_chars(text);
    for i in 0..chars.len()
        invariant
            chars@ == text@,
            forall|j: int| 0 <= j < i ==> text::is_white_space(#[trigger] chars@[j]),
    {
        if !white_space(chars[i]) {
            return false;
        }
    }
    true
}

/// The messages that carry `body`: cleaned, cut into chunks of at most `ceiling`
/// characters and rendered chunk by chunk. Where nothing is left to read there is
/// no message.
pub fn format_for_telegram(body: &str, ceiling: u32) -> (out: Vec<String>)
    ensures
        text::texts(out@) == messages(body@, ceiling),
{
    let cleaned = clean_for_stream(body);
    let all = to_chars(cleaned.as_str());
    let readable = to_text(trim(all.as_slice()));
    let pieces = chunk_plain(readable.as_str(), clamp_ceiling(ceiling));
    let ghost parts = chunks(plain(body@), clamped(ceiling)).map_values(
        |chunk: Seq<char>| rendered(chunk),
    );
    let ghost speaks = |message: Seq<char>| !text::is_blank(message);
    let mut out: Vec<String> = Vec::new();
    proof {
        reveal(Seq::filter);
        assert(text::texts(out@) =~= parts.take(0).filter(speaks));
    }
    for i in 0..pieces.len()
        invariant
            text::texts(pieces@) == chunks(plain(body@), clamped(ceiling)),
            parts == chunks(plain(body@), clamped(ceiling)).map_values(
                |chunk: Seq<char>| rendered(chunk),
            ),
            speaks == (|message: Seq<char>| !text::is_blank(message)),
            text::texts(out@) == parts.take(i as int).filter(speaks),
    {
        let message = render_html(pieces[i].as_str());
        let ghost before = out@;
        proof {
            reveal(Seq::filter);
            assert(text::texts(pieces@)[i as int] == pieces@[i as int]@);
            assert(parts.take(i + 1).drop_last() =~= parts.take(i as int));
            assert(parts.take(i + 1).last() == message@);
        }
        if !blank(message.as_str()) {
            let ghost added = message@;
            out.push(message);
            assert(text::texts(out@) =~= text::texts(before).push(added));
        }
    }
    assert(parts.take(parts.len() as int) =~= parts);
    out
}

/// One message that previews `body` while it is still being written: what does
/// not fit is cut off and marked with an ellipsis. Code is not set apart.
pub fn format_preview(body: &str, ceiling: u32) -> (message: String)
    ensures
        message@ == preview(body@, ceiling),
{
    let cleaned = clean_for_stream(body);
    let all = to_chars(cleaned.as_str());
    let readable = trim(all.as_slice());
    let limit = clamp_ceiling(ceiling);
    let mut out = String::new();
    if readable.len() > limit {
        let mut head: Vec<char> = Vec::new();
        extend(&mut head, slice_subrange(readable, 0, limit - 1));
        head.push(ELLIPSIS);
        push_escaped(&mut out, head.as_slice());
        assert(head@ =~= preview_text(body@, ceiling));
    } else {
        push_escaped(&mut out, readable);
    }
    assert(out@ =~= preview(body@, ceiling));
    out
}

} // verus!
