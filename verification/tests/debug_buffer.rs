use ink_sandbox::decode_debug_buffer;

#[test]
fn splits_lines_and_drops_empty_ones() {
    assert_eq!(
        decode_debug_buffer(b"a\n\nb"),
        vec!["a".to_string(), "b".to_string()]
    );
}

#[test]
fn empty_buffer_has_no_lines() {
    assert!(decode_debug_buffer(b"").is_empty());
    assert!(decode_debug_buffer(b"\n\n\n").is_empty());
}

#[test]
fn single_line_without_newline() {
    assert_eq!(decode_debug_buffer(b"hello"), vec!["hello".to_string()]);
}

#[test]
fn leading_and_trailing_newlines() {
    assert_eq!(
        decode_debug_buffer(b"\nfirst line\nsecond\n"),
        vec!["first line".to_string(), "second".to_string()]
    );
}

#[test]
fn bytes_decode_one_to_one() {
    // 0xE9 stands for U+00E9, not for a UTF-8 sequence.
    assert_eq!(
        decode_debug_buffer(&[0x63, 0x61, 0x66, 0xE9, 0x0A, 0x21]),
        vec!["caf\u{e9}".to_string(), "!".to_string()]
    );
}

#[test]
fn carriage_return_is_kept() {
    assert_eq!(
        decode_debug_buffer(b"x\r\ny"),
        vec!["x\r".to_string(), "y".to_string()]
    );
}

#[test]
fn lines_are_non_empty_and_hold_no_newline() {
    let lines = decode_debug_buffer(b"\n\nab\n\ncd\nef\n\n");
    assert_eq!(lines.len(), 3);
    for line in &lines {
        assert!(!line.is_empty());
        assert!(!line.contains('\n'));
    }
}

#[test]
fn rejoined_lines_decode_the_same() {
    let lines = decode_debug_buffer(b"\n\nab\n\ncaf\xe9\nx\r\n\n");
    let rejoined: Vec<u8> = lines.join("\n").chars().map(|c| c as u8).collect();
    assert_eq!(decode_debug_buffer(&rejoined), lines);
}

#[test]
fn buffers_joined_at_newline_concatenate_lines() {
    let a: &[u8] = b"one\n\ntwo";
    let b: &[u8] = b"\nthree\n";
    let joined = [a, &b"\n"[..], b].concat();
    let expected = [decode_debug_buffer(a), decode_debug_buffer(b)].concat();
    assert_eq!(decode_debug_buffer(&joined), expected);
    assert_eq!(expected, vec!["one".to_string(), "two".to_string(), "three".to_string()]);
}
