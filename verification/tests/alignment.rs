use ansi_align::{ansi_align, center, left, right, AlignOptions, Alignment};

#[test]
fn test_left_alignment() {
    let text = "hello\nworld";
    let result = left(text);
    assert_eq!(result, text); // Left alignment should be no-op
}

#[test]
fn test_center_alignment() {
    let text = "hi\nhello";
    let result = center(text);
    let lines: Vec<&str> = result.split('\n').collect();
    assert_eq!(lines[0], " hi"); // 1 space padding for "hi"
    assert_eq!(lines[1], "hello"); // No padding for "hello"
}

#[test]
fn test_right_alignment() {
    let text = "hi\nhello";
    let result = right(text);
    let lines: Vec<&str> = result.split('\n').collect();
    assert_eq!(lines[0], "   hi"); // 3 spaces padding for "hi"
    assert_eq!(lines[1], "hello"); // No padding for "hello"
}

#[test]
fn test_unicode_characters() {
    let text = "古\n古古古";
    let result = center(text);
    let lines: Vec<&str> = result.split('\n').collect();
    assert_eq!(lines[0], "  古"); // 2 spaces padding (CJK char is width 2)
    assert_eq!(lines[1], "古古古"); // No padding
}

#[test]
fn test_ansi_escape_sequences() {
    let text = "hello\n\u{001B}[1mworld\u{001B}[0m";
    let result = center(text);
    let lines: Vec<&str> = result.split('\n').collect();
    assert_eq!(lines[0], "hello");
    assert_eq!(lines[1], "\u{001B}[1mworld\u{001B}[0m"); // ANSI codes preserved
}

#[test]
fn test_custom_options() {
    let text = "a|bb";
    let opts = AlignOptions::new(Alignment::Right).split("|").pad('.');
    let result = ansi_align(text, Some(opts));
    assert_eq!(result, ".a|bb");
}

#[test]
fn test_empty_string() {
    assert_eq!(ansi_align("", None), "");
    assert_eq!(left(""), "");
    assert_eq!(center(""), "");
    assert_eq!(right(""), "");
}

#[test]
fn test_single_line() {
    let text = "hello";
    assert_eq!(left(text), "hello");
    assert_eq!(center(text), "hello");
    assert_eq!(right(text), "hello");
}

#[test]
fn test_default_options_center() {
    // No options means center alignment on line breaks with spaces.
    assert_eq!(ansi_align("hi\nhello", None), " hi\nhello");
    assert_eq!(ansi_align("hi\nhello", None), center("hi\nhello"));
}

#[test]
fn test_right_alignment_is_idempotent() {
    let text = "hi\nhello\nmid";
    let once = right(text);
    let twice = right(once.as_str());
    assert_eq!(twice, once);
    assert_eq!(once, "   hi\nhello\n  mid");
}

#[test]
fn test_aligned_block_is_fixed_point() {
    // All lines already have the widest width: nothing changes, in any mode.
    let text = "abc\ndef";
    assert_eq!(center(text), text);
    assert_eq!(right(text), text);
    let opts = AlignOptions::new(Alignment::Right).pad('.');
    assert_eq!(ansi_align(text, Some(opts)), text);
}

#[test]
fn test_align_with_escape_wrapped_segment() {
    // The escape-wrapped segment is measured by its plain-text width and
    // the escape bytes stay in the output untouched.
    let text = "\u{001B}[31mhi\u{001B}[0m\nhello";
    let result = right(text);
    let lines: Vec<&str> = result.split('\n').collect();
    assert_eq!(lines[0], "   \u{001B}[31mhi\u{001B}[0m");
    assert_eq!(lines[1], "hello");
}

#[test]
fn test_empty_delimiter() {
    // An empty delimiter splits into an empty segment, each character,
    // and an empty segment, the way str::split does.
    let opts = AlignOptions::new(Alignment::Right).split("");
    assert_eq!(ansi_align("ab", Some(opts)), " ab ");
}

#[test]
fn test_center_rounds_down() {
    // An odd deficit loses the remainder: (4 - 1) / 2 = 1.
    let result = center("a\nbcde");
    let lines: Vec<&str> = result.split('\n').collect();
    assert_eq!(lines[0], " a");
    assert_eq!(lines[1], "bcde");
}

#[test]
fn test_builder_overrides() {
    let opts = AlignOptions::new(Alignment::Center).split(";").pad('_');
    assert_eq!(ansi_align("a;bbb", Some(opts)), "_a;bbb");
    let opts = AlignOptions::new(Alignment::Left).split(";").pad('_');
    assert_eq!(ansi_align("a;bbb", Some(opts)), "a;bbb");
}
