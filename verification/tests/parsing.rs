use xrandr_utils::geometry::{consume_digits, consume_signed_number, is_geometry_token};
use xrandr_utils::header::{parse_header, DisplayState};
use xrandr_utils::sections::{find_section, parse_sections};

fn b(s: &str) -> Vec<u8> {
    s.as_bytes().to_vec()
}

#[test]
fn geometry_accepts_plain_mode_line() {
    assert!(is_geometry_token(b"1920x1080+0+0"));
}

#[test]
fn geometry_accepts_negative_offsets() {
    assert!(is_geometry_token(b"1920x1080-5-10"));
    assert!(is_geometry_token(b"1x1+0-0"));
}

#[test]
fn geometry_accepts_long_digit_runs() {
    assert!(is_geometry_token(b"00000000001x2+3+400000000000000"));
}

#[test]
fn geometry_rejects_missing_parts() {
    assert!(!is_geometry_token(b""));
    assert!(!is_geometry_token(b"1920x1080"));
    assert!(!is_geometry_token(b"x1080+0+0"));
    assert!(!is_geometry_token(b"1920x+0+0"));
    assert!(!is_geometry_token(b"1920x1080+0"));
    assert!(!is_geometry_token(b"1920x1080+0+"));
}

#[test]
fn geometry_rejects_trailing_text() {
    assert!(!is_geometry_token(b"1920x1080+0+0x"));
    assert!(!is_geometry_token(b"1920x1080+0+0 "));
}

#[test]
fn geometry_rejects_capital_separator() {
    assert!(!is_geometry_token(b"1920X1080+0+0"));
}

#[test]
fn consume_digits_takes_maximal_run() {
    assert_eq!(consume_digits(b"123x", 0), Some(3));
    assert_eq!(consume_digits(b"123", 1), Some(3));
    assert_eq!(consume_digits(b"x123", 0), None);
    assert_eq!(consume_digits(b"", 0), None);
}

#[test]
fn consume_signed_number_requires_sign_and_digit() {
    assert_eq!(consume_signed_number(b"+12x", 0), Some(3));
    assert_eq!(consume_signed_number(b"-0", 0), Some(2));
    assert_eq!(consume_signed_number(b"12", 0), None);
    assert_eq!(consume_signed_number(b"+", 0), None);
    assert_eq!(consume_signed_number(b"+x", 0), None);
}

#[test]
fn header_parses_connected_line() {
    let h = parse_header(b"HDMI-1 connected primary 1920x1080+0+0 (normal)").unwrap();
    assert_eq!(h.name, b(&"HDMI-1"));
    assert_eq!(h.state, DisplayState::Connected);
    assert!(h.primary);
    assert_eq!(h.geometry, Some(b(&"1920x1080+0+0")));
}

#[test]
fn header_parses_disconnected_line_without_geometry() {
    let h = parse_header(b"DP-1 disconnected (normal)").unwrap();
    assert_eq!(h.name, b(&"DP-1"));
    assert_eq!(h.state, DisplayState::Disconnected);
    assert!(!h.primary);
    assert_eq!(h.geometry, None);
}

#[test]
fn header_first_geometry_token_wins() {
    let h = parse_header(b"A connected 10x10+0+0 20x20+1+1").unwrap();
    assert_eq!(h.geometry, Some(b(&"10x10+0+0")));
}

#[test]
fn header_rejects_other_lines() {
    assert!(parse_header(b"").is_none());
    assert!(parse_header(b"HDMI-1").is_none());
    assert!(parse_header(b"HDMI-1 Connected").is_none());
    assert!(parse_header(b"   EDID:").is_none());
}

#[test]
fn segmenting_no_headers_yields_no_sections() {
    let sections = parse_sections(b"no header here\njust text\n");
    assert_eq!(sections.len(), 0);
}

#[test]
fn segmenting_two_sections() {
    let text = b"A connected 1920x1080+0+0\nline1\nB disconnected\nline2\n";
    let sections = parse_sections(text);
    assert_eq!(sections.len(), 2);
    assert_eq!(sections[0].name, b(&"A"));
    assert_eq!(sections[0].state, DisplayState::Connected);
    assert_eq!(sections[0].geometry, Some(b(&"1920x1080+0+0")));
    assert_eq!(
        sections[0].lines,
        vec![b(&"A connected 1920x1080+0+0"), b(&"line1")]
    );
    assert_eq!(sections[1].name, b(&"B"));
    assert_eq!(sections[1].state, DisplayState::Disconnected);
    assert_eq!(sections[1].geometry, None);
    assert_eq!(sections[1].lines, vec![b(&"B disconnected"), b(&"line2")]);
}

#[test]
fn segmenting_empty_input_yields_nothing() {
    assert_eq!(parse_sections(b"").len(), 0);
}

#[test]
fn segmenting_strips_carriage_returns_at_line_ends() {
    let sections = parse_sections(b"A connected\r\nbody\r\nB disconnected\r\n");
    assert_eq!(sections.len(), 2);
    assert_eq!(sections[0].lines, vec![b(&"A connected"), b(&"body")]);
    assert_eq!(sections[1].name, b(&"B"));
}

#[test]
fn segmenting_discards_lines_before_first_header() {
    let text = b"Screen 0: minimum 8 x 8\nA connected\nbody\n";
    let sections = parse_sections(text);
    assert_eq!(sections.len(), 1);
    assert_eq!(sections[0].lines, vec![b(&"A connected"), b(&"body")]);
}

#[test]
fn find_section_first_match_wins() {
    let text = b"A connected\nfirst\nA disconnected\nsecond\n";
    let sections = parse_sections(text);
    let found = find_section(&sections, b"A").unwrap();
    assert_eq!(found.state, DisplayState::Connected);
    assert_eq!(found.lines, vec![b(&"A connected"), b(&"first")]);
    assert!(find_section(&sections, b"B").is_none());
}

#[test]
fn state_words_match_source_text() {
    assert_eq!(DisplayState::Connected.as_str(), "connected");
    assert_eq!(DisplayState::Disconnected.as_str(), "disconnected");
    assert_eq!(DisplayState::Connected.as_word(), b(&"connected"));
}
