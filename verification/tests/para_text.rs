use hwp_text_extract::hwp::para_text::{
    char_type, extract_text, extract_text_segments, is_text_control, CharType,
};

#[test]
fn test_char_type_normal() {
    assert_eq!(char_type(32), CharType::Normal); // space
    assert_eq!(char_type(65), CharType::Normal); // 'A'
    assert_eq!(char_type(0xAC00), CharType::Normal); // '가'
}

#[test]
fn test_char_type_control() {
    assert_eq!(char_type(10), CharType::ControlChar); // line break
    assert_eq!(char_type(13), CharType::ControlChar); // para break
    assert_eq!(char_type(9), CharType::ControlInline); // tab
    assert_eq!(char_type(11), CharType::ControlExtend); // drawing/table
    assert_eq!(char_type(15), CharType::ControlExtend); // hidden comment
    assert_eq!(char_type(16), CharType::ControlExtend); // header/footer
    assert_eq!(char_type(17), CharType::ControlExtend); // footnote/endnote
}

#[test]
fn test_extract_simple_text() {
    // "AB" in UTF-16LE
    let data = vec![0x41, 0x00, 0x42, 0x00];
    let (text, controls) = extract_text(&data);
    assert_eq!(text, "AB");
    assert!(controls.is_empty());
}

#[test]
fn test_extract_korean_text() {
    // "가나" in UTF-16LE: 0xAC00, 0xB098
    let data = vec![0x00, 0xAC, 0x98, 0xB0];
    let (text, _) = extract_text(&data);
    assert_eq!(text, "가나");
}

#[test]
fn test_extract_with_line_break() {
    // "A\nB" - A(0x41), LF(0x0A), B(0x42)
    let data = vec![0x41, 0x00, 0x0A, 0x00, 0x42, 0x00];
    let (text, _) = extract_text(&data);
    assert_eq!(text, "A\nB");
}

#[test]
fn test_extract_with_tab() {
    // "A\tB" - A(0x41), TAB(0x09 + 14bytes), B(0x42)
    let mut data = vec![0x41, 0x00]; // A
    data.extend_from_slice(&[0x09, 0x00]); // tab code
    data.extend_from_slice(&[0u8; 14]); // tab addition
    data.extend_from_slice(&[0x42, 0x00]); // B
    let (text, _) = extract_text(&data);
    assert_eq!(text, "A\tB");
}

#[test]
fn test_extract_with_control_extend() {
    // "A" + control_extend(11) + "B"
    let mut data = vec![0x41, 0x00]; // A
    data.extend_from_slice(&[0x0B, 0x00]); // code 11 (table/drawing)
    data.extend_from_slice(&[0u8; 14]); // addition
    data.extend_from_slice(&[0x42, 0x00]); // B
    let (text, controls) = extract_text(&data);
    assert_eq!(text, "AB");
    assert_eq!(controls, vec![11]);
}

#[test]
fn test_extract_segments_no_control() {
    let data = vec![0x41, 0x00, 0x42, 0x00];
    let segments = extract_text_segments(&data);
    assert_eq!(segments.len(), 1);
    assert_eq!(segments[0].text, "AB");
    assert!(!segments[0].has_control_after);
}

#[test]
fn test_extract_segments_with_table() {
    // "A" + control_extend(11=table) + "B"
    let mut data = vec![0x41, 0x00]; // A
    data.extend_from_slice(&[0x0B, 0x00]); // code 11 (table/drawing)
    data.extend_from_slice(&[0u8; 14]); // addition
    data.extend_from_slice(&[0x42, 0x00]); // B
    let segments = extract_text_segments(&data);
    assert_eq!(segments.len(), 2);
    assert_eq!(segments[0].text, "A");
    assert!(segments[0].has_control_after);
    assert_eq!(segments[1].text, "B");
    assert!(!segments[1].has_control_after);
}

#[test]
fn test_extract_segments_multiple_controls() {
    // "A" + table(11) + "B" + footnote(17) + "C"
    let mut data = vec![0x41, 0x00]; // A
    data.extend_from_slice(&[0x0B, 0x00]); // table
    data.extend_from_slice(&[0u8; 14]);
    data.extend_from_slice(&[0x42, 0x00]); // B
    data.extend_from_slice(&[0x11, 0x00]); // footnote (17)
    data.extend_from_slice(&[0u8; 14]);
    data.extend_from_slice(&[0x43, 0x00]); // C
    let segments = extract_text_segments(&data);
    assert_eq!(segments.len(), 3);
    assert_eq!(segments[0].text, "A");
    assert!(segments[0].has_control_after);
    assert_eq!(segments[1].text, "B");
    assert!(segments[1].has_control_after);
    assert_eq!(segments[2].text, "C");
    assert!(!segments[2].has_control_after);
}

#[test]
fn test_extract_segments_all_control_extend_splits() {
    // "A" + control_extend(1) + "B": every extend control splits
    let mut data = vec![0x41, 0x00]; // A
    data.extend_from_slice(&[0x01, 0x00]); // code 1
    data.extend_from_slice(&[0u8; 14]);
    data.extend_from_slice(&[0x42, 0x00]); // B
    let segments = extract_text_segments(&data);
    assert_eq!(segments.len(), 2);
    assert_eq!(segments[0].text, "A");
    assert!(segments[0].has_control_after);
    assert_eq!(segments[1].text, "B");
    assert!(!segments[1].has_control_after);
}

fn utf16le(s: &str) -> Vec<u8> {
    s.encode_utf16().flat_map(|u| u.to_le_bytes()).collect()
}

#[test]
fn test_char_type_of_every_control_code() {
    let extend = [1u16, 2, 3, 11, 12, 14, 15, 16, 17, 18, 21, 22, 23];
    let inline = [4u16, 5, 6, 7, 8, 9, 19, 20];
    for code in 0u16..=31 {
        let expected = if extend.contains(&code) {
            CharType::ControlExtend
        } else if inline.contains(&code) {
            CharType::ControlInline
        } else {
            CharType::ControlChar
        };
        assert_eq!(char_type(code), expected, "code {code}");
    }
    assert_eq!(char_type(0xFFFF), CharType::Normal);
}

#[test]
fn test_is_text_control() {
    for code in 0u16..64 {
        assert_eq!(
            is_text_control(code),
            code == 11 || code == 15 || code == 16 || code == 17
        );
    }
}

#[test]
fn test_control_chars_are_replaced() {
    // A, hyphen (24), B, blank (30), C, blank (31), D, paragraph end (13), 0
    let data: Vec<u8> = [0x41u16, 24, 0x42, 30, 0x43, 31, 0x44, 13, 0]
        .iter()
        .flat_map(|u| u.to_le_bytes())
        .collect();
    let (text, controls) = extract_text(&data);
    assert_eq!(text, "A-B C D");
    assert!(controls.is_empty());
}

#[test]
fn test_inline_control_other_than_tab_gives_nothing() {
    let mut data = vec![0x41, 0x00];
    data.extend_from_slice(&[0x04, 0x00]);
    data.extend_from_slice(&[0x42u8; 14]);
    data.extend_from_slice(&[0x43, 0x00]);
    let (text, controls) = extract_text(&data);
    assert_eq!(text, "AC");
    assert!(controls.is_empty());
    let segments = extract_text_segments(&data);
    assert_eq!(segments.len(), 1);
    assert_eq!(segments[0].text, "AC");
}

#[test]
fn test_payload_cut_short() {
    // an extend control whose payload ends after four bytes
    let mut data = vec![0x41, 0x00, 0x0B, 0x00];
    data.extend_from_slice(&[0x42, 0x00, 0x43, 0x00]);
    let (text, controls) = extract_text(&data);
    assert_eq!(text, "A");
    assert_eq!(controls, vec![11]);
    let segments = extract_text_segments(&data);
    assert_eq!(segments.len(), 2);
    assert_eq!(segments[0].text, "A");
    assert!(segments[0].has_control_after);
    assert_eq!(segments[1].text, "");
    assert!(!segments[1].has_control_after);
}

#[test]
fn test_odd_last_byte_is_left_out() {
    let data = vec![0x41, 0x00, 0x42];
    let (text, _) = extract_text(&data);
    assert_eq!(text, "A");
}

#[test]
fn test_empty_text() {
    let (text, controls) = extract_text(&[]);
    assert_eq!(text, "");
    assert!(controls.is_empty());
    let segments = extract_text_segments(&[]);
    assert_eq!(segments.len(), 1);
    assert_eq!(segments[0].text, "");
    assert!(!segments[0].has_control_after);
}

#[test]
fn test_surrogate_pair_is_one_character() {
    let data = utf16le("a😀b");
    assert_eq!(data.len(), 8);
    let (text, _) = extract_text(&data);
    assert_eq!(text, "a😀b");
    let segments = extract_text_segments(&data);
    assert_eq!(segments.len(), 1);
    assert_eq!(segments[0].text, "a😀b");
}

#[test]
fn test_lone_surrogates_are_dropped() {
    // a high surrogate before a character, and a low surrogate alone
    let data: Vec<u8> = [0x41u16, 0xD83D, 0x42, 0xDE00, 0x43, 0xD83D]
        .iter()
        .flat_map(|u| u.to_le_bytes())
        .collect();
    let (text, _) = extract_text(&data);
    assert_eq!(text, "ABC");
}

#[test]
fn test_utf16_round_trip() {
    for s in ["", "Hello", "가나다 라마", "line1\nline2", "mixed 😀 한글 𝄞 end", "~\u{FFFD}\u{20}"] {
        let data = utf16le(s);
        let (text, controls) = extract_text(&data);
        assert_eq!(text, s);
        assert!(controls.is_empty());
        let segments = extract_text_segments(&data);
        assert_eq!(segments.len(), 1);
        assert_eq!(segments[0].text, s);
        assert!(!segments[0].has_control_after);
    }
}

#[test]
fn test_segments_match_extend_controls() {
    // extend codes inside a payload are no markers
    let mut data = Vec::new();
    for code in [1u16, 2, 3, 11, 12, 14, 15, 16, 17, 18, 21, 22, 23] {
        data.extend_from_slice(&utf16le("x"));
        data.extend_from_slice(&code.to_le_bytes());
        data.extend_from_slice(&[0x0B, 0x00, 0x11, 0x00, 0, 0, 0, 0, 0, 0, 0, 0, 0, 0]);
    }
    data.extend_from_slice(&utf16le("end"));
    let (text, controls) = extract_text(&data);
    let segments = extract_text_segments(&data);
    assert_eq!(controls.len(), 13);
    assert_eq!(controls, vec![1, 2, 3, 11, 12, 14, 15, 16, 17, 18, 21, 22, 23]);
    assert_eq!(
        segments.iter().filter(|s| s.has_control_after).count(),
        controls.len()
    );
    assert_eq!(segments.len(), 14);
    let joined: String = segments.iter().map(|s| s.text.as_str()).collect();
    assert_eq!(joined, text);
    assert_eq!(text, "xxxxxxxxxxxxxend");
}
