use bluewren::sanitize::sanitize_for_terminal;

#[test]
fn passes_normal_text() {
    assert_eq!(sanitize_for_terminal("hello world"), "hello world");
}

#[test]
fn keeps_newlines_and_tabs() {
    assert_eq!(sanitize_for_terminal("a\nb\tc"), "a\nb\tc");
}

#[test]
fn replaces_other_control_chars() {
    let result = sanitize_for_terminal("a\x07b\x08c");
    assert_eq!(result, "a\u{FFFD}b\u{FFFD}c");
}

#[test]
fn strips_csi_clear_screen() {
    let result = sanitize_for_terminal("safe\x1b[2Jafter");
    assert_eq!(result, "safeafter");
}

#[test]
fn strips_csi_cursor_move() {
    let result = sanitize_for_terminal("a\x1b[10;20Hb");
    assert_eq!(result, "ab");
}

#[test]
fn strips_osc_clipboard_write() {
    let result = sanitize_for_terminal("hi\x1b]52;c;ZXZpbA==\x07end");
    assert_eq!(result, "hiend");
}

#[test]
fn strips_osc_terminated_by_st() {
    let result = sanitize_for_terminal("a\x1b]0;TITLE\x1b\\b");
    assert_eq!(result, "ab");
}

#[test]
fn handles_lone_escape() {
    let result = sanitize_for_terminal("a\x1bb");
    assert_eq!(result, "a");
}

#[test]
fn preserves_unicode_text() {
    assert_eq!(sanitize_for_terminal("こんにちは"), "こんにちは");
    assert_eq!(sanitize_for_terminal("emoji 😊"), "emoji 😊");
}

#[test]
fn replaces_c1_controls_and_delete() {
    assert_eq!(sanitize_for_terminal("a\u{7f}b\u{85}c\u{9f}d\u{a0}"), "a\u{FFFD}b\u{FFFD}c\u{FFFD}d\u{a0}");
    assert_eq!(sanitize_for_terminal("\r\x00"), "\r\u{FFFD}");
}

#[test]
fn escape_at_end_and_unterminated_sequences() {
    assert_eq!(sanitize_for_terminal("tail\x1b"), "tail");
    assert_eq!(sanitize_for_terminal("x\x1b[12;34"), "x");
    assert_eq!(sanitize_for_terminal("x\x1b]title without end"), "x");
    assert_eq!(sanitize_for_terminal("x\x1b]\\y"), "x");
    assert_eq!(sanitize_for_terminal("x\x1b]\x1b\\y"), "xy");
}

#[test]
fn sanitizing_twice_changes_nothing_more() {
    let inputs = ["a\x1b[31mred\x1b[0m\x07", "\x1b]0;t\x07ok\tfine\n", "é\u{85}\x1bcZ"];
    for input in inputs {
        let once = sanitize_for_terminal(input);
        assert_eq!(sanitize_for_terminal(&once), once);
        assert!(once.chars().all(|c| !c.is_control() || c == '\n' || c == '\r' || c == '\t'));
    }
    assert_eq!(sanitize_for_terminal("a\x1b[31mred\x1b[0m\x07"), "ared\u{FFFD}");
}
