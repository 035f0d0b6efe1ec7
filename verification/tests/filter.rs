use telegram::filter::{
    chunk_plain, escape_html, format_for_telegram, format_preview, render_html, TELEGRAM_MAX_CHARS,
};

#[test]
fn escapes_only_html_sensitive_chars() {
    assert_eq!(
        escape_html("a < b && c > d"),
        "a &lt; b &amp;&amp; c &gt; d"
    );
    // No double-escape of the ampersands we introduce.
    assert_eq!(escape_html("<&>"), "&lt;&amp;&gt;");
}

#[test]
fn short_plain_text_is_one_escaped_chunk() {
    let out = format_for_telegram("The answer is 42.", 4000);
    assert_eq!(out, vec!["The answer is 42.".to_string()]);
}

#[test]
fn html_special_chars_escape_in_output() {
    let out = format_for_telegram("if a < b && b > c { ok }", 4000);
    assert_eq!(out.len(), 1);
    assert_eq!(out[0], "if a &lt; b &amp;&amp; b &gt; c { ok }");
}

#[test]
fn strips_ansi_and_tool_narration_via_line_filter() {
    let input = "\x1b[2m[tool: Read /tmp/x]\x1b[0m\n⏺ Read(/x.rs)\nDone & dusted.";
    let out = format_for_telegram(input, 4000);
    assert_eq!(out, vec!["Done &amp; dusted.".to_string()]);
}

#[test]
fn fenced_code_block_becomes_pre() {
    let input = "Here:\n```rust\nlet x = a < b;\n```\nthat's it";
    let out = format_for_telegram(input, 4000);
    assert_eq!(out.len(), 1);
    let s = &out[0];
    assert!(s.contains("<pre>let x = a &lt; b;\n</pre>"), "got: {s}");
    // Prose around the block is still escaped (no raw tags leak).
    assert!(s.starts_with("Here:\n"));
    assert!(s.ends_with("that's it"));
    // Language hint dropped.
    assert!(!s.contains("rust"));
}

#[test]
fn long_text_chunks_below_ceiling() {
    let body = (0..30)
        .map(|i| format!("line {i} ").repeat(20))
        .collect::<Vec<_>>()
        .join("\n");
    let out = format_for_telegram(&body, 500);
    assert!(out.len() > 1, "expected multiple chunks, got {}", out.len());
    for chunk in &out {
        assert!(
            chunk.chars().count() <= TELEGRAM_MAX_CHARS,
            "chunk over hard ceiling"
        );
    }
    let rejoined: String = out.join("");
    assert!(rejoined.contains("line 0"));
    assert!(rejoined.contains("line 29"));
}

#[test]
fn single_oversized_line_hard_splits() {
    let body = "x".repeat(1200);
    let out = format_for_telegram(&body, 500);
    assert_eq!(out.len(), 3); // 500 + 500 + 200
    assert_eq!(out[0].chars().count(), 500);
    assert_eq!(out[2].chars().count(), 200);
}

#[test]
fn unbalanced_fence_falls_back_to_plain_escape() {
    let chunk = "before ```rust\nlet x = a < b;";
    let rendered = render_html(chunk);
    assert!(!rendered.contains("<pre>"), "got: {rendered}");
    assert!(rendered.contains("&lt;"));
    assert!(rendered.contains("```"));
}

#[test]
fn empty_input_yields_no_chunks() {
    assert!(format_for_telegram("", 4000).is_empty());
    assert!(format_for_telegram("   \n  ", 4000).is_empty());
    // Tool-narration-only input also collapses to nothing.
    assert!(format_for_telegram("⏺ Read(/x)\n✓", 4000).is_empty());
}

#[test]
fn thai_text_survives_chunking() {
    let body = "สวัสดีครับ ".repeat(100);
    let out = format_for_telegram(&body, 200);
    assert!(out.len() > 1);
    let rejoined: String = out.join("");
    assert!(rejoined.contains("สวัสดีครับ"));
}

#[test]
fn preview_is_single_message_escaped() {
    assert_eq!(format_preview("a < b & c", 4000), "a &lt; b &amp; c");
    // ANSI / tool narration stripped, like the chunked path.
    assert_eq!(
        format_preview("⏺ Read(/x)\nDone & dusted.", 4000),
        "Done &amp; dusted."
    );
    assert_eq!(format_preview("", 4000), "");
}

#[test]
fn preview_head_truncates_with_ellipsis() {
    let out = format_preview(&"x".repeat(1000), 100);
    assert_eq!(out.chars().count(), 100); // 99 x's + the ellipsis
    assert!(out.ends_with('…'));
    // Truncation is on a char boundary for multibyte text.
    let thai = format_preview(&"ก".repeat(1000), 50);
    assert!(thai.ends_with('…'));
    assert_eq!(thai.chars().count(), 50);
}

#[test]
fn chunks_prefer_line_boundaries() {
    assert_eq!(chunk_plain("ab\ncd\nef", 6), vec!["ab\ncd\n", "ef"]);
    assert_eq!(chunk_plain("ab\ncd\nef", 5), vec!["ab\n", "cd\nef"]);
    // What is left of a cut line takes the lines behind it along.
    assert_eq!(chunk_plain("abcdefgh\nij\nkl", 6), vec!["abcdef", "gh\nij\n", "kl"]);
    assert_eq!(chunk_plain("abcdefgh\nij", 6), vec!["abcdef", "gh\nij"]);
    // A line of exactly twice the ceiling leaves no empty piece.
    assert_eq!(chunk_plain("abcdef", 3), vec!["abc", "def"]);
    assert_eq!(chunk_plain("abc", 3), vec!["abc"]);
    assert_eq!(chunk_plain("a\nb", 1), vec!["a", "\n", "b"]);
    assert!(chunk_plain("", 3).is_empty());
}

#[test]
fn chunks_join_to_the_text() {
    let text = "one\ntwo two two two\n\nthree\nสวัสดีครับ\n";
    for ceiling in 1..40 {
        let pieces = chunk_plain(text, ceiling);
        assert_eq!(pieces.concat(), text);
        assert!(pieces.iter().all(|p| !p.is_empty() && p.chars().count() <= ceiling));
    }
}

#[test]
fn blank_chunks_are_not_sent() {
    assert_eq!(format_for_telegram("a\n\n\n\nb", 2), vec!["a\n", "\nb"]);
}

#[test]
fn ceilings_are_clamped() {
    // A ceiling of zero counts as one.
    assert_eq!(format_for_telegram("abc", 0), vec!["a", "b", "c"]);
    assert_eq!(format_preview("abc", 0), "…");
    assert_eq!(format_preview("a", 0), "a");
    let long = "x".repeat(5000);
    let out = format_for_telegram(&long, 1_000_000);
    assert_eq!(out.len(), 2);
    assert_eq!(out[0].len(), TELEGRAM_MAX_CHARS);
    assert_eq!(format_preview(&long, 1_000_000).chars().count(), TELEGRAM_MAX_CHARS);
}

#[test]
fn preview_keeps_what_fits() {
    assert_eq!(format_preview("abcde", 5), "abcde");
    assert_eq!(format_preview("abcdef", 5), "abcd…");
    // Entities do not count against the ceiling and are not cut.
    assert_eq!(format_preview("<<<<<<", 3), "&lt;&lt;…");
    assert_eq!(format_preview("```rust\nx", 4000), "```rust\nx");
}

#[test]
fn code_blocks_are_rendered() {
    assert_eq!(render_html("```\na<b\n```"), "<pre>a&lt;b\n</pre>");
    assert_eq!(render_html("```c++\nx\n```y```z```"), "<pre>x\n</pre>y<pre>z</pre>");
    // A first line that is no language name stays.
    assert_eq!(render_html("```let x\ny```"), "<pre>let x\ny</pre>");
    assert_eq!(render_html("```python```"), "<pre>python</pre>");
    assert_eq!(render_html("``````"), "<pre></pre>");
    // A fourth backtick belongs to the code.
    assert_eq!(render_html("````x```"), "<pre>`x</pre>");
    assert_eq!(render_html("a``b"), "a``b");
    assert_eq!(render_html(""), "");
    assert_eq!(render_html("a ``` b"), "a ``` b");
}

#[test]
fn cut_code_block_leaves_no_open_tag() {
    let body = "```\naaaa\nbbbb\n```";
    let out = format_for_telegram(body, 9);
    assert_eq!(out, vec!["```\naaaa\n", "bbbb\n```"]);
}

#[test]
fn escaping_can_be_undone() {
    for text in ["", "&amp;", "<pre>&lt;</pre>", "a & b; c"] {
        let back = escape_html(text)
            .replace("&lt;", "<")
            .replace("&gt;", ">")
            .replace("&amp;", "&");
        assert_eq!(back, text);
    }
    let replaced = "<&>&&lt;".replace('&', "&amp;").replace('<', "&lt;").replace('>', "&gt;");
    assert_eq!(escape_html("<&>&&lt;"), replaced);
}

/// Fills chunks line by line, cutting only lines that are too long.
fn fill_line_by_line(text: &str, ceiling: usize) -> Vec<String> {
    let mut chunks: Vec<String> = Vec::new();
    let mut current = String::new();
    for line in text.split_inclusive('\n') {
        if current.chars().count() + line.chars().count() > ceiling && !current.is_empty() {
            chunks.push(std::mem::take(&mut current));
        }
        for c in line.chars() {
            if current.chars().count() == ceiling {
                chunks.push(std::mem::take(&mut current));
            }
            current.push(c);
        }
    }
    if !current.is_empty() {
        chunks.push(current);
    }
    chunks
}

#[test]
fn chunks_are_filled_line_by_line() {
    for len in 0..10u32 {
        for bits in 0..(1u32 << len) {
            let text: String = (0..len)
                .map(|i| if bits >> i & 1 == 1 { '\n' } else { 'a' })
                .collect();
            for ceiling in 1..7 {
                assert_eq!(chunk_plain(&text, ceiling), fill_line_by_line(&text, ceiling));
            }
        }
    }
}

#[test]
fn chunks_leave_no_room_for_the_next_line() {
    let text = "one\ntwo two two two\n\nthree\nfour five\nsix\n";
    for ceiling in 1..40 {
        let pieces = chunk_plain(text, ceiling);
        for pair in pieces.windows(2) {
            let line = pair[1].split_inclusive('\n').next().map_or(0, |l| l.chars().count());
            assert!(pair[0].chars().count() + line > ceiling);
        }
    }
}

#[test]
fn empty_code_block_is_kept() {
    assert_eq!(format_for_telegram("``````", 4000), vec!["<pre></pre>"]);
}
