//! What holds of every message that is made of agent output.

use vstd::prelude::*;

use crate::filter;
use crate::html;
use crate::narration;
use crate::text;

verus! {

/// What a reader sees of segments that are ordinary text and code in turn.
pub open spec fn visible_segments(segments: Seq<Seq<char>>, code: bool) -> Seq<char>
    decreases segments.len(),
{
    if segments.len() == 0 {
        Seq::empty()
    } else {
        (if code {
            filter::without_language(segments[0])
        } else {
            segments[0]
        }) + visible_segments(segments.skip(1), !code)
    }
}

/// What a reader sees of `chunk`: where each fence has its partner, the text
/// without fences and language names, else the chunk as it stands.
pub open spec fn visible(chunk: Seq<char>) -> Seq<char> {
    if filter::segments(chunk).len() % 2 == 0 {
        chunk
    } else {
        visible_segments(filter::segments(chunk), false)
    }
}

/// `message` has the form that Telegram asks for: it is accepted as HTML, it is not
/// blank, and what it shows is short enough. That it shows anything is not
/// part of it: a message may be an empty code block.
pub open spec fn is_well_formed_message(message: Seq<char>) -> bool {
    &&& html::is_accepted(message, false)
    &&& !text::is_blank(message)
    &&& html::shown(message).len() <= filter::TELEGRAM_MAX_CHARS
}

/// The chunks of a text, joined, are the text.
pub proof fn law_chunks_lose_nothing(s: Seq<char>, ceiling: nat)
    requires
        ceiling > 0,
    ensures
        filter::chunks(s, ceiling).flatten() == s,
    decreases s.len(),
{
    if s.len() == 0 {
        assert(filter::chunks(s, ceiling).flatten() =~= s);
    } else {
        filter::lemma_first_chunk(s, ceiling);
        let n = filter::first_chunk_len(s, ceiling) as int;
        law_chunks_lose_nothing(s.skip(n), ceiling);
        let rest = filter::chunks(s.skip(n), ceiling);
        assert(filter::chunks(s, ceiling).drop_first() =~= rest);
        assert(s.take(n) + s.skip(n) =~= s);
    }
}

/// No chunk is empty and none is longer than the ceiling.
pub proof fn law_chunks_fit(s: Seq<char>, ceiling: nat)
    requires
        ceiling > 0,
    ensures
        forall|i: int|
            0 <= i < filter::chunks(s, ceiling).len() ==> 1 <= (#[trigger] filter::chunks(
                s,
                ceiling,
            )[i]).len() <= ceiling,
    decreases s.len(),
{
    if s.len() > 0 {
        filter::lemma_first_chunk(s, ceiling);
        let n = filter::first_chunk_len(s, ceiling) as int;
        let rest = filter::chunks(s.skip(n), ceiling);
        law_chunks_fit(s.skip(n), ceiling);
        assert forall|i: int| 0 <= i < filter::chunks(s, ceiling).len() implies 1 <= (
        #[trigger] filter::chunks(s, ceiling)[i]).len() <= ceiling by {
            if i > 0 {
                assert(filter::chunks(s, ceiling)[i] == rest[i - 1]);
            }
        }
    }
}

/// A chunk with another behind it ends in a line feed, or it is as long as the
/// ceiling and lies within a line: only a line that does not fit is cut.
pub proof fn law_chunks_end_with_lines(s: Seq<char>, ceiling: nat)
    requires
        ceiling > 0,
    ensures
        forall|i: int|
            0 <= i < filter::chunks(s, ceiling).len() - 1 ==> {
                let chunk = #[trigger] filter::chunks(s, ceiling)[i];
                chunk.last() == '\n' || (chunk.len() == ceiling && !chunk.contains('\n'))
            },
    decreases s.len(),
{
    if s.len() > 0 {
        filter::lemma_first_chunk(s, ceiling);
        let n = filter::first_chunk_len(s, ceiling) as int;
        let all = filter::chunks(s, ceiling);
        let rest = filter::chunks(s.skip(n), ceiling);
        law_chunks_end_with_lines(s.skip(n), ceiling);
        assert forall|i: int| 0 <= i < all.len() - 1 implies {
            let chunk = #[trigger] all[i];
            chunk.last() == '\n' || (chunk.len() == ceiling && !chunk.contains('\n'))
        } by {
            if i > 0 {
                assert(all[i] == rest[i - 1]);
            } else {
                assert(rest.len() > 0);
                assert(n < s.len());
                assert(all[0] == s.take(n));
                assert(s.take(n).last() == s[n - 1]);
            }
        }
    }
}

/// A chunk is filled as far as lines allow: with the first line of the next chunk,
/// or as much of that line as the next chunk holds, it would be longer than the ceiling.
pub proof fn law_chunks_are_filled(s: Seq<char>, ceiling: nat)
    requires
        ceiling > 0,
    ensures
        forall|i: int|
            0 <= i < filter::chunks(s, ceiling).len() - 1 ==> (#[trigger] filter::chunks(
                s,
                ceiling,
            )[i]).len() + text::first_line_len(filter::chunks(s, ceiling)[i + 1]) > ceiling,
    decreases s.len(),
{
    if s.len() > 0 {
        filter::lemma_first_chunk(s, ceiling);
        let n = filter::first_chunk_len(s, ceiling) as int;
        let all = filter::chunks(s, ceiling);
        let rest = filter::chunks(s.skip(n), ceiling);
        law_chunks_are_filled(s.skip(n), ceiling);
        assert forall|i: int| 0 <= i < all.len() - 1 implies (#[trigger] all[i]).len()
            + text::first_line_len(all[i + 1]) > ceiling by {
            if i > 0 {
                assert(all[i] == rest[i - 1]);
                assert(all[i + 1] == rest[i]);
            } else {
                assert(all[1] == rest[0]);
                lemma_first_chunk_is_filled(s, ceiling);
            }
        }
    }
}

proof fn lemma_first_chunk_is_filled(s: Seq<char>, ceiling: nat)
    requires
        ceiling > 0,
        s.len() > 0,
        filter::first_chunk_len(s, ceiling) < s.len(),
    ensures
        ({
            let n = filter::first_chunk_len(s, ceiling) as int;
            let rest = s.skip(n);
            n + text::first_line_len(
                rest.take(filter::first_chunk_len(rest, ceiling) as int),
            ) > ceiling
        }),
{
    let n = filter::first_chunk_len(s, ceiling) as int;
    let rest = s.skip(n);
    let m = filter::first_chunk_len(rest, ceiling) as int;
    let next = rest.take(m);
    filter::lemma_first_chunk(s, ceiling);
    filter::lemma_first_chunk(rest, ceiling);
    filter::lemma_last_line_boundary(s, ceiling);
    text::lemma_first_line(next);
    let f = text::first_line_len(next) as int;
    if n + f <= ceiling {
        assert(next[f - 1] == s[n + f - 1]);
        assert(s[n + f - 1] != '\n');
        assert(f == m);
        assert(rest[m - 1] == s[n + m - 1]);
    }
}

/// Text that fits is one chunk.
pub proof fn law_short_text_is_one_chunk(s: Seq<char>, ceiling: nat)
    requires
        1 <= s.len() <= ceiling,
    ensures
        filter::chunks(s, ceiling) == seq![s],
{
    assert(s.take(s.len() as int) =~= s);
    assert(s.skip(s.len() as int) =~= Seq::empty());
    reveal_with_fuel(filter::chunks, 2);
    assert(filter::chunks(s, ceiling) =~= seq![s]);
}

/// Whatever the chunk, its HTML is accepted: no tag is left open and no entity is
/// cut short.
pub proof fn law_rendered_is_accepted(chunk: Seq<char>)
    ensures
        html::is_accepted(filter::rendered(chunk), false),
{
    if filter::segments(chunk).len() % 2 == 0 {
        html::law_escaped_is_accepted(chunk);
    } else {
        lemma_segments_are_read(filter::segments(chunk), false);
    }
}

/// A reader of a chunk's HTML sees the chunk, but for fences that have their
/// partner and the language names behind them.
pub proof fn law_rendered_shows_the_chunk(chunk: Seq<char>)
    ensures
        html::shown(filter::rendered(chunk)) == visible(chunk),
{
    if filter::segments(chunk).len() % 2 == 0 {
        html::law_escaped_shows_the_text(chunk);
    } else {
        lemma_segments_are_read(filter::segments(chunk), false);
    }
}

/// Of a chunk without a fence all is seen.
pub proof fn law_chunk_without_fence_is_seen_whole(chunk: Seq<char>)
    requires
        filter::before_fence(chunk) == chunk.len(),
    ensures
        visible(chunk) == chunk,
{
    reveal_with_fuel(visible_segments, 2);
    assert(filter::segments(chunk).skip(1) =~= Seq::empty());
    assert(visible(chunk) =~= chunk);
}

/// No more is seen of a chunk than it holds.
pub proof fn law_visible_is_no_longer(chunk: Seq<char>)
    ensures
        visible(chunk).len() <= chunk.len(),
{
    if filter::segments(chunk).len() % 2 == 1 {
        lemma_segments_fit(chunk, false);
    }
}

proof fn lemma_segments_are_read(segments: Seq<Seq<char>>, code: bool)
    ensures
        html::is_accepted(filter::rendered_segments(segments, code), false),
        html::shown(filter::rendered_segments(segments, code)) == visible_segments(
            segments,
            code,
        ),
    decreases segments.len(),
{
    if segments.len() > 0 {
        let rest = filter::rendered_segments(segments.skip(1), !code);
        lemma_segments_are_read(segments.skip(1), !code);
        if code {
            html::lemma_code_block_is_read(filter::without_language(segments[0]), rest);
        } else {
            html::lemma_escaped_is_read(segments[0], rest, false);
        }
    }
}

proof fn lemma_without_language_fits(code: Seq<char>)
    ensures
        filter::without_language(code).len() <= code.len(),
{
    if code.len() > 0 {
        text::lemma_first_line(code);
    }
}

proof fn lemma_segments_fit(s: Seq<char>, code: bool)
    ensures
        visible_segments(filter::segments(s), code).len() <= s.len(),
    decreases s.len(),
{
    let all = filter::segments(s);
    let n = filter::before_fence(s) as int;
    filter::lemma_before_fence(s);
    lemma_without_language_fits(all[0]);
    if n < s.len() {
        assert(all.skip(1) =~= filter::segments(s.skip(n + 3)));
        lemma_segments_fit(s.skip(n + 3), !code);
    } else {
        assert(all.skip(1).len() == 0);
        assert(visible_segments(all.skip(1), !code).len() == 0);
    }
}

/// A chunk's HTML is blank exactly where the chunk is.
pub proof fn law_rendered_is_blank_with_the_chunk(chunk: Seq<char>)
    ensures
        text::is_blank(filter::rendered(chunk)) <==> text::is_blank(chunk),
{
    let all = filter::segments(chunk);
    filter::lemma_before_fence(chunk);
    lemma_escaped_blank(chunk);
    let n = filter::before_fence(chunk) as int;
    if n < chunk.len() {
        assert(chunk.skip(n)[0] == chunk[n]);
        assert(chunk[n] == '`');
        assert(!text::is_blank(chunk));
        if all.len() % 2 == 1 {
            let tail = filter::segments(chunk.skip(n + 3));
            assert(all.skip(1) =~= tail);
            assert(all.len() == 1 + tail.len());
            assert(tail.len() > 0) by {
                reveal_with_fuel(filter::segments, 2);
            }
            let head = html::escaped(all[0]);
            let block = filter::rendered_segments(tail, true);
            assert(block[0] == '<');
            assert(filter::rendered(chunk)[head.len() as int] == block[0]);
            assert(!text::is_white_space('<'));
        }
    } else {
        assert(all =~= seq![chunk]);
        assert(filter::rendered_segments(all.skip(1), true).len() == 0);
        assert(filter::rendered(chunk) =~= html::escaped(chunk));
    }
}

proof fn lemma_escaped_blank(s: Seq<char>)
    ensures
        text::is_blank(html::escaped(s)) <==> text::is_blank(s),
    decreases s.len(),
{
    if s.len() > 0 {
        let head = html::escaped_char(s[0]);
        let rest = s.skip(1);
        let tail = html::escaped(rest);
        lemma_escaped_blank(rest);
        assert((head + tail)[0] == head[0]);
        assert(text::is_white_space(head[0]) ==> head =~= seq![s[0]]);
        if text::is_blank(s) {
            assert(text::is_white_space(s[0]));
            assert forall|i: int| 0 <= i < rest.len() implies text::is_white_space(
                #[trigger] rest[i],
            ) by {
                assert(rest[i] == s[i + 1]);
            }
            assert forall|i: int| 0 <= i < (head + tail).len() implies text::is_white_space(
                #[trigger] (head + tail)[i],
            ) by {
                if i > 0 {
                    assert((head + tail)[i] == tail[i - 1]);
                }
            }
        }
        if text::is_blank(head + tail) {
            assert forall|i: int| 0 <= i < tail.len() implies text::is_white_space(
                #[trigger] tail[i],
            ) by {
                assert(tail[i] == (head + tail)[i + head.len()]);
            }
            assert forall|i: int| 0 <= i < s.len() implies text::is_white_space(
                #[trigger] s[i],
            ) by {
                if i > 0 {
                    assert(s[i] == rest[i - 1]);
                }
            }
        }
    }
}

/// What the readers of the messages see is what the chunks that are not blank
/// hold to be seen, in order.
pub proof fn law_messages_show_the_chunks(body: Seq<char>, ceiling: u32)
    ensures
        filter::messages(body, ceiling).map_values(|message: Seq<char>| html::shown(message))
            == filter::chunks(filter::plain(body), filter::clamped(ceiling)).filter(
            |chunk: Seq<char>| !text::is_blank(chunk),
        ).map_values(|chunk: Seq<char>| visible(chunk)),
{
    lemma_messages_show(filter::chunks(filter::plain(body), filter::clamped(ceiling)));
}

proof fn lemma_messages_show(pieces: Seq<Seq<char>>)
    ensures
        pieces.map_values(|chunk: Seq<char>| filter::rendered(chunk)).filter(
            |message: Seq<char>| !text::is_blank(message),
        ).map_values(|message: Seq<char>| html::shown(message)) == pieces.filter(
            |chunk: Seq<char>| !text::is_blank(chunk),
        ).map_values(|chunk: Seq<char>| visible(chunk)),
    decreases pieces.len(),
{
    reveal(Seq::filter);
    let render = |chunk: Seq<char>| filter::rendered(chunk);
    let speaks = |chunk: Seq<char>| !text::is_blank(chunk);
    let show = |message: Seq<char>| html::shown(message);
    let see = |chunk: Seq<char>| visible(chunk);
    let parts = pieces.map_values(render);
    if pieces.len() > 0 {
        let rest = pieces.drop_last();
        let last = pieces.last();
        lemma_messages_show(rest);
        law_rendered_is_blank_with_the_chunk(last);
        law_rendered_shows_the_chunk(last);
        assert(parts.drop_last() =~= rest.map_values(render));
        assert(parts.last() == filter::rendered(last));
        if speaks(last) {
            assert(parts.filter(speaks).map_values(show) =~= rest.map_values(render).filter(
                speaks,
            ).map_values(show).push(html::shown(parts.last())));
            assert(pieces.filter(speaks).map_values(see) =~= rest.filter(speaks).map_values(
                see,
            ).push(visible(last)));
        }
    } else {
        assert(parts.filter(speaks).map_values(show) =~= pieces.filter(speaks).map_values(see));
    }
}

/// Text that fits is one message.
pub proof fn law_short_text_is_one_message(body: Seq<char>, ceiling: u32)
    requires
        1 <= filter::plain(body).len() <= filter::clamped(ceiling),
    ensures
        filter::messages(body, ceiling) == seq![filter::rendered(filter::plain(body))],
{
    let plain = filter::plain(body);
    law_short_text_is_one_chunk(plain, filter::clamped(ceiling));
    text::lemma_trimmed_empty(narration::cleaned(body));
    text::lemma_trimmed_edges(narration::cleaned(body));
    law_rendered_is_blank_with_the_chunk(plain);
    let parts = seq![plain].map_values(|chunk: Seq<char>| filter::rendered(chunk));
    let speaks = |message: Seq<char>| !text::is_blank(message);
    reveal_with_fuel(Seq::filter, 2);
    assert(parts =~= seq![filter::rendered(plain)]);
    assert(speaks(parts.last()));
    assert(parts.filter(speaks) =~= parts);
}

/// Of text without a fence, the messages show exactly the chunks that are not
/// blank; where none is, they show the text whole.
pub proof fn law_text_without_fences_arrives(body: Seq<char>, ceiling: u32)
    requires
        filter::before_fence(filter::plain(body)) == filter::plain(body).len(),
    ensures
        ({
            let pieces = filter::chunks(filter::plain(body), filter::clamped(ceiling));
            let seen = filter::messages(body, ceiling).map_values(
                |message: Seq<char>| html::shown(message),
            );
            &&& seen == pieces.filter(|chunk: Seq<char>| !text::is_blank(chunk))
            &&& (forall|i: int| 0 <= i < pieces.len() ==> !text::is_blank(#[trigger] pieces[i]))
                ==> seen.flatten() == filter::plain(body)
        }),
{
    let limit = filter::clamped(ceiling);
    let pieces = filter::chunks(filter::plain(body), limit);
    let speaks = |chunk: Seq<char>| !text::is_blank(chunk);
    let see = |chunk: Seq<char>| visible(chunk);
    law_messages_show_the_chunks(body, ceiling);
    law_chunks_lose_nothing(filter::plain(body), limit);
    lemma_chunks_without_fence(filter::plain(body), limit);
    lemma_filter_keeps(pieces, speaks);
    let kept = pieces.filter(speaks);
    assert forall|i: int| 0 <= i < kept.len() implies visible(#[trigger] kept[i]) == kept[i] by {
        assert(pieces.contains(kept[i]));
        let j = choose|j: int| 0 <= j < pieces.len() && pieces[j] == kept[i];
        law_chunk_without_fence_is_seen_whole(pieces[j]);
    }
    assert(kept.map_values(see) =~= kept);
    if forall|i: int| 0 <= i < pieces.len() ==> !text::is_blank(#[trigger] pieces[i]) {
        lemma_filter_keeps_all(pieces, speaks);
    }
}

proof fn lemma_filter_keeps_all(s: Seq<Seq<char>>, keep: spec_fn(Seq<char>) -> bool)
    requires
        forall|i: int| 0 <= i < s.len() ==> keep(#[trigger] s[i]),
    ensures
        s.filter(keep) == s,
    decreases s.len(),
{
    reveal(Seq::filter);
    if s.len() > 0 {
        assert forall|i: int| 0 <= i < s.drop_last().len() implies keep(
            #[trigger] s.drop_last()[i],
        ) by {
            assert(s.drop_last()[i] == s[i]);
        }
        lemma_filter_keeps_all(s.drop_last(), keep);
        assert(keep(s[s.len() - 1]));
        assert(s.drop_last().push(s.last()) =~= s);
    }
}

proof fn lemma_no_fence_in_part(s: Seq<char>, n: int)
    requires
        0 <= n <= s.len(),
        filter::before_fence(s) == s.len(),
    ensures
        filter::before_fence(s.take(n)) == n,
        filter::before_fence(s.skip(n)) == s.len() - n,
    decreases n,
{
    if n == 0 {
        assert(s.skip(0) =~= s);
    } else {
        lemma_no_fence_in_part(s.skip(1), n - 1);
        assert(s.skip(1).skip(n - 1) =~= s.skip(n));
        assert(s.take(n).skip(1) =~= s.skip(1).take(n - 1));
        assert(!filter::starts_with_fence(s));
        assert(!filter::starts_with_fence(s.take(n)));
    }
}

proof fn lemma_chunks_without_fence(s: Seq<char>, ceiling: nat)
    requires
        filter::before_fence(s) == s.len(),
    ensures
        forall|i: int|
            0 <= i < filter::chunks(s, ceiling).len() ==> filter::before_fence(
                #[trigger] filter::chunks(s, ceiling)[i],
            ) == filter::chunks(s, ceiling)[i].len(),
    decreases s.len(),
{
    if s.len() > 0 && ceiling > 0 {
        filter::lemma_first_chunk(s, ceiling);
        let n = filter::first_chunk_len(s, ceiling) as int;
        let all = filter::chunks(s, ceiling);
        let rest = filter::chunks(s.skip(n), ceiling);
        lemma_no_fence_in_part(s, n);
        lemma_chunks_without_fence(s.skip(n), ceiling);
        assert forall|i: int| 0 <= i < all.len() implies filter::before_fence(#[trigger] all[i])
            == all[i].len() by {
            if i > 0 {
                assert(all[i] == rest[i - 1]);
            }
        }
    }
}

/// Each message is well formed on its own and shows no more characters than the
/// ceiling allows.
pub proof fn law_each_message_is_well_formed(body: Seq<char>, ceiling: u32)
    ensures
        forall|i: int|
            0 <= i < filter::messages(body, ceiling).len() ==> {
                let message = #[trigger] filter::messages(body, ceiling)[i];
                &&& is_well_formed_message(message)
                &&& html::shown(message).len() <= filter::clamped(ceiling)
            },
{
    let limit = filter::clamped(ceiling);
    let pieces = filter::chunks(filter::plain(body), limit);
    let parts = pieces.map_values(|chunk: Seq<char>| filter::rendered(chunk));
    let speaks = |message: Seq<char>| !text::is_blank(message);
    let all = filter::messages(body, ceiling);
    law_chunks_fit(filter::plain(body), limit);
    lemma_filter_keeps(parts, speaks);
    assert forall|i: int| 0 <= i < all.len() implies {
        let message = #[trigger] all[i];
        &&& is_well_formed_message(message)
        &&& html::shown(message).len() <= limit
    } by {
        let message = all[i];
        assert(speaks(message) && parts.contains(message));
        let j = choose|j: int| 0 <= j < parts.len() && parts[j] == message;
        assert(message == filter::rendered(pieces[j]));
        law_rendered_is_accepted(pieces[j]);
        law_rendered_shows_the_chunk(pieces[j]);
        law_visible_is_no_longer(pieces[j]);
    }
}

proof fn lemma_filter_keeps(s: Seq<Seq<char>>, keep: spec_fn(Seq<char>) -> bool)
    ensures
        forall|i: int|
            0 <= i < s.filter(keep).len() ==> keep(#[trigger] s.filter(keep)[i]) && s.contains(
                s.filter(keep)[i],
            ),
    decreases s.len(),
{
    reveal(Seq::filter);
    if s.len() > 0 {
        let rest = s.drop_last();
        lemma_filter_keeps(rest, keep);
        assert forall|i: int| 0 <= i < s.filter(keep).len() implies keep(
            #[trigger] s.filter(keep)[i],
        ) && s.contains(s.filter(keep)[i]) by {
            if i < rest.filter(keep).len() {
                let kept = rest.filter(keep)[i];
                assert(rest.contains(kept));
                let j = choose|j: int| 0 <= j < rest.len() && rest[j] == kept;
                assert(s[j] == kept);
            } else {
                assert(s[s.len() - 1] == s.last());
            }
        }
    }
}

/// There is no message exactly where cleaning leaves nothing but white space.
pub proof fn law_no_message_where_nothing_is_left(body: Seq<char>, ceiling: u32)
    ensures
        filter::messages(body, ceiling).len() == 0 <==> text::is_blank(
            narration::cleaned(body),
        ),
{
    let cleaned = narration::cleaned(body);
    let plain = filter::plain(body);
    let limit = filter::clamped(ceiling);
    let pieces = filter::chunks(plain, limit);
    let parts = pieces.map_values(|chunk: Seq<char>| filter::rendered(chunk));
    let speaks = |message: Seq<char>| !text::is_blank(message);
    text::lemma_trimmed_empty(cleaned);
    text::lemma_trimmed_edges(cleaned);
    reveal(Seq::filter);
    if plain.len() > 0 {
        filter::lemma_first_chunk(plain, limit);
        assert(pieces[0][0] == plain[0]);
        law_rendered_is_blank_with_the_chunk(pieces[0]);
        assert(speaks(parts[0]));
        broadcast use vstd::seq_lib::group_filter_ensures;

        assert(parts.filter(speaks).contains(parts[0]));
    }
}

/// A preview is accepted, and its reader sees the text that it was made of, which
/// is no longer than the ceiling allows. Where there is anything to read, the
/// preview is well formed.
pub proof fn law_preview_is_well_formed(body: Seq<char>, ceiling: u32)
    ensures
        html::is_accepted(filter::preview(body, ceiling), false),
        html::shown(filter::preview(body, ceiling)) == filter::preview_text(body, ceiling),
        filter::preview_text(body, ceiling).len() <= filter::clamped(ceiling),
        filter::messages(body, ceiling).len() > 0 ==> is_well_formed_message(
            filter::preview(body, ceiling),
        ),
{
    let shown = filter::preview_text(body, ceiling);
    html::law_escaped_is_accepted(shown);
    html::law_escaped_shows_the_text(shown);
    if filter::messages(body, ceiling).len() > 0 {
        let cleaned = narration::cleaned(body);
        law_no_message_where_nothing_is_left(body, ceiling);
        text::lemma_trimmed_empty(cleaned);
        text::lemma_trimmed_edges(cleaned);
        lemma_escaped_blank(shown);
        assert(shown[0] == filter::plain(body)[0] || shown[0] == filter::ELLIPSIS);
    }
}

/// A preview shows all that is to be read where that fits, and else starts with it,
/// is as long as the ceiling and ends in the ellipsis.
pub proof fn law_preview_starts_with_the_text(body: Seq<char>, ceiling: u32)
    ensures
        ({
            let plain = filter::plain(body);
            let shown = filter::preview_text(body, ceiling);
            let limit = filter::clamped(ceiling);
            if plain.len() <= limit {
                shown == plain
            } else {
                &&& shown.len() == limit
                &&& shown.last() == filter::ELLIPSIS
                &&& shown.drop_last() == plain.take(limit - 1)
            }
        }),
{
    let plain = filter::plain(body);
    let limit = filter::clamped(ceiling);
    if plain.len() > limit {
        assert(filter::preview_text(body, ceiling).drop_last() =~= plain.take(limit - 1));
    }
}

/// A preview is empty exactly where there would be no message.
pub proof fn law_preview_is_empty_without_messages(body: Seq<char>, ceiling: u32)
    ensures
        filter::preview(body, ceiling).len() == 0 <==> filter::messages(body, ceiling).len() == 0,
{
    law_no_message_where_nothing_is_left(body, ceiling);
    text::lemma_trimmed_empty(narration::cleaned(body));
    let shown = filter::preview_text(body, ceiling);
    assert(shown.len() > 0 ==> html::escaped(shown).len() > 0);
}

/// The ceiling is what was asked for where Telegram accepts that many characters,
/// and the nearest that is possible where it does not.
pub proof fn law_ceilings_are_held_in_bounds(ceiling: u32)
    ensures
        1 <= ceiling <= filter::TELEGRAM_MAX_CHARS ==> filter::clamped(ceiling) == ceiling,
        ceiling == 0 ==> filter::clamped(ceiling) == 1,
        ceiling > filter::TELEGRAM_MAX_CHARS ==> filter::clamped(ceiling)
            == filter::TELEGRAM_MAX_CHARS,
{
}

/// What is to be read is the whole of the cleaned text, without the white space
/// around it and with nothing else left out.
pub proof fn law_all_of_the_cleaned_text_is_read(
    body: Seq<char>,
    lead: Seq<char>,
    core: Seq<char>,
    trail: Seq<char>,
)
    requires
        narration::cleaned(body) == lead + core + trail,
        text::is_blank(lead),
        text::is_blank(trail),
        core.len() > 0 ==> !text::is_white_space(core[0]) && !text::is_white_space(core.last()),
    ensures
        filter::plain(body) == core,
{
    text::law_trimmed_is_the_core(lead, core, trail);
}

/// The messages carry the whole of the cleaned text: it falls, but for the white
/// space around it, into the pieces that are handed out here with that white space,
/// and the messages are the HTML of the pieces, in order, without those that
/// are blank. No piece is empty or longer than the ceiling, each that has another
/// behind it ends with a line or lies within one that is too long, and none would
/// have room for the first line of the next.
pub proof fn law_messages_carry_the_whole_text(body: Seq<char>, ceiling: u32) -> (parts: (
    Seq<char>,
    Seq<Seq<char>>,
    Seq<char>,
))
    ensures
        narration::cleaned(body) == parts.0 + parts.1.flatten() + parts.2,
        text::is_blank(parts.0),
        text::is_blank(parts.2),
        parts.1.flatten().len() > 0 ==> !text::is_white_space(parts.1.flatten()[0])
            && !text::is_white_space(parts.1.flatten().last()),
        forall|i: int|
            0 <= i < parts.1.len() ==> 1 <= (#[trigger] parts.1[i]).len()
                <= filter::TELEGRAM_MAX_CHARS && (parts.1[i].len() <= ceiling || ceiling == 0
                && parts.1[i].len() == 1),
        forall|i: int|
            0 <= i < parts.1.len() - 1 ==> {
                let piece = #[trigger] parts.1[i];
                let limit = if 1 <= ceiling <= filter::TELEGRAM_MAX_CHARS {
                    ceiling as int
                } else if ceiling == 0 {
                    1
                } else {
                    filter::TELEGRAM_MAX_CHARS as int
                };
                &&& piece.last() == '\n' || (piece.len() == limit && !piece.contains('\n'))
                &&& piece.len() + text::first_line_len(parts.1[i + 1]) > limit
            },
        filter::messages(body, ceiling) == parts.1.map_values(
            |piece: Seq<char>| filter::rendered(piece),
        ).filter(|message: Seq<char>| !text::is_blank(message)),
{
    let cleaned = narration::cleaned(body);
    let limit = filter::clamped(ceiling);
    let plain = filter::plain(body);
    let pieces = filter::chunks(plain, limit);
    let around = text::law_trimming_loses_only_white_space(cleaned);
    law_chunks_lose_nothing(plain, limit);
    law_chunks_fit(plain, limit);
    law_chunks_end_with_lines(plain, limit);
    law_chunks_are_filled(plain, limit);
    (around.0, pieces, around.1)
}

/// A preview is made of the cleaned text without the white space around it: of all
/// of it where it fits, and else of as much as fits with the ellipsis.
pub proof fn law_previews_show_the_cleaned_text(
    body: Seq<char>,
    ceiling: u32,
    lead: Seq<char>,
    core: Seq<char>,
    trail: Seq<char>,
)
    requires
        narration::cleaned(body) == lead + core + trail,
        text::is_blank(lead),
        text::is_blank(trail),
        core.len() > 0 ==> !text::is_white_space(core[0]) && !text::is_white_space(core.last()),
    ensures
        ({
            let limit = if 1 <= ceiling <= filter::TELEGRAM_MAX_CHARS {
                ceiling as int
            } else if ceiling == 0 {
                1
            } else {
                filter::TELEGRAM_MAX_CHARS as int
            };
            let shown = html::shown(filter::preview(body, ceiling));
            &&& core.len() <= limit ==> shown == core
            &&& core.len() > limit ==> shown == core.take(limit - 1).push(filter::ELLIPSIS)
            &&& filter::preview(body, ceiling) == html::escaped(shown)
        }),
{
    law_all_of_the_cleaned_text_is_read(body, lead, core, trail);
    law_preview_is_well_formed(body, ceiling);
}

} // verus!
