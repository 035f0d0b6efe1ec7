use telegram::narration::clean_for_stream;
use telegram::text::{to_chars, to_text, white_space};

#[test]
fn terminal_escapes_are_removed() {
    assert_eq!(clean_for_stream("\x1b[1;31mred\x1b[0m"), "red");
    assert_eq!(clean_for_stream("a\x1b[2Kb"), "ab");
    assert_eq!(clean_for_stream("a\x1b[?25lb"), "ab");
    // A sequence that the text cuts short goes too.
    assert_eq!(clean_for_stream("done\x1b[3"), "done");
    assert_eq!(clean_for_stream("done\x1b["), "done");
    assert_eq!(clean_for_stream("done\x1b"), "done");
    // What cannot close a sequence stays.
    assert_eq!(clean_for_stream("a\x1b[3\nb"), "a\nb");
}

#[test]
fn control_strings_are_removed() {
    assert_eq!(clean_for_stream("\x1b]0;t\x07"), "");
    assert_eq!(clean_for_stream("a\x1b]0;title\x07b"), "ab");
    assert_eq!(clean_for_stream("a\x1b]8;;http://x\x1b\\link\x1b]8;;\x1b\\b"), "alinkb");
    assert_eq!(clean_for_stream("a\x1bPq#0\x1b\\b\x1b_x\x1b\\c\x1b^y\x07d\x1bXz\x07e"), "abcde");
    // A string that is still open reaches to the end.
    assert_eq!(clean_for_stream("a\x1b]0;title"), "a");
    assert_eq!(clean_for_stream("a\x1b]0;title\x1b"), "a");
    assert_eq!(clean_for_stream("a\x1b]"), "a");
}

#[test]
fn short_escapes_are_removed() {
    assert_eq!(clean_for_stream("\x1bc"), "");
    assert_eq!(clean_for_stream("a\x1b7b\x1b8c\x1b=d\x1bMe"), "abcde");
    // Character sets are chosen with an intermediate character.
    assert_eq!(clean_for_stream("a\x1b(Bb\x1b#8c"), "abc");
    assert_eq!(clean_for_stream("a\x1b("), "a");
    // What is not part of a sequence stays.
    assert_eq!(clean_for_stream("a\x1b\nb\x1bกc"), "a\nbกc");
}

#[test]
fn lines_about_tool_calls_are_removed() {
    assert_eq!(clean_for_stream("a\n⏺ Read(/x)\nb"), "a\nb");
    assert_eq!(clean_for_stream("  ⏺ Read(/x)\r\n ✓ \nb\n"), "b\n");
    assert_eq!(clean_for_stream("[tool: Bash ls]\n[tools] stay\n"), "[tools] stay\n");
    assert_eq!(clean_for_stream("✓ all tests pass"), "✓ all tests pass");
    assert_eq!(clean_for_stream("see ⏺ here"), "see ⏺ here");
}

#[test]
fn cleaning_twice_changes_nothing_more() {
    let text = "\x1b[2m[tool: Read /tmp/x]\x1b[0m\n⏺ Read(/x.rs)\nDone & dusted.\n\n\x1b";
    let once = clean_for_stream(text);
    assert_eq!(once, "Done & dusted.\n\n");
    assert_eq!(clean_for_stream(&once), once);
    assert!(!once.contains('\x1b'));
}

#[test]
fn white_space_is_that_of_unicode() {
    for code in 0..=0x10ffffu32 {
        if let Some(c) = char::from_u32(code) {
            assert_eq!(white_space(c), c.is_whitespace(), "{code:x}");
        }
    }
}

#[test]
fn characters_are_kept_in_order() {
    let chars = to_chars("aก…");
    assert_eq!(chars, vec!['a', 'ก', '…']);
    assert_eq!(to_text(&chars), "aก…");
}
