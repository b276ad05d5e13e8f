use xrandr_utils::extract::{extract_connector_id, extract_edid_hex};
use xrandr_utils::monitors::{insert_monitor_line, parse_monitor_map, MonitorMap};
use xrandr_utils::sections::parse_sections;
use xrandr_utils::serial::{extract_after_colon, extract_between_quotes, extract_serial};

fn b(s: &str) -> Vec<u8> {
    s.as_bytes().to_vec()
}

fn section_of(text: &str) -> xrandr_utils::sections::DisplaySection {
    let mut sections = parse_sections(text.as_bytes());
    assert_eq!(sections.len(), 1);
    sections.remove(0)
}

#[test]
fn edid_capture_collects_hex_until_blank() {
    let sec = section_of("X connected\nEDID:\n  00ffffff\n  00112233\n\nCONNECTOR_ID: 5\n");
    assert_eq!(extract_edid_hex(&sec), Some(b(&"00ffffff00112233")));
    assert_eq!(extract_connector_id(&sec), Some(b(&"5")));
}

#[test]
fn edid_capture_ends_for_good_on_other_content() {
    let sec = section_of("X connected\nEDID:\n  00ff\n  not hex!\n  1122\n");
    assert_eq!(extract_edid_hex(&sec), Some(b(&"00ff")));
}

#[test]
fn edid_none_without_label() {
    let sec = section_of("X connected\n  00ffffff\n");
    assert_eq!(extract_edid_hex(&sec), None);
}

#[test]
fn edid_none_when_no_digits_follow() {
    let sec = section_of("X connected\nEDID:\n\n  00ff\n");
    assert_eq!(extract_edid_hex(&sec), None);
}

#[test]
fn connector_skips_empty_values() {
    let sec = section_of("X connected\nCONNECTOR_ID:\nCONNECTOR_ID: 7\n");
    assert_eq!(extract_connector_id(&sec), Some(b(&"7")));
}

#[test]
fn connector_none_when_absent() {
    let sec = section_of("X connected\nsome line\n");
    assert_eq!(extract_connector_id(&sec), None);
}

#[test]
fn serial_quoted_label_wins_regardless_of_order() {
    let first = "Serial Number: ABC123\nDisplay Product Serial Number: 'XYZ999'\n";
    assert_eq!(extract_serial(first.as_bytes()), Some(b(&"XYZ999")));
    let second = "Display Product Serial Number: 'XYZ999'\nSerial Number: ABC123\n";
    assert_eq!(extract_serial(second.as_bytes()), Some(b(&"XYZ999")));
}

#[test]
fn serial_falls_back_to_colon_line() {
    let report = "Model: Foo\nSerial Number: ABC123\n";
    assert_eq!(extract_serial(report.as_bytes()), Some(b(&"ABC123")));
}

#[test]
fn serial_falls_back_to_alphanumeric_string() {
    let report = "Alphanumeric Data String: ' QQ77 '\n";
    assert_eq!(extract_serial(report.as_bytes()), Some(b(&"QQ77")));
}

#[test]
fn serial_unquoted_product_label_falls_through() {
    // the first tier needs quotes; without them the plain label tier wins
    let report = "Display Product Serial Number:\nSerial Number: ABC123\n";
    assert_eq!(extract_serial(report.as_bytes()), Some(b(&"ABC123")));
}

#[test]
fn serial_empty_quotes_yield_colon_tier_of_same_line() {
    // an empty quoted value is rejected by the first tier, but the line
    // still contains `Serial Number:`, so the colon tier reads it
    let report = "Display Product Serial Number: ''\nSerial Number: ABC123\n";
    assert_eq!(extract_serial(report.as_bytes()), Some(b(&"''")));
}

#[test]
fn serial_none_when_nothing_matches() {
    assert_eq!(extract_serial(b"no serial anywhere\n"), None);
}

#[test]
fn between_quotes_trims_and_needs_label() {
    assert_eq!(
        extract_between_quotes(b"Label: ' v '", b"Label:"),
        Some(b(&"v"))
    );
    assert_eq!(extract_between_quotes(b"Label: no quotes", b"Label:"), None);
    assert_eq!(extract_between_quotes(b"Other: 'v'", b"Label:"), None);
    assert_eq!(extract_between_quotes(b"Label: 'open", b"Label:"), None);
}

#[test]
fn after_colon_takes_line_remainder() {
    assert_eq!(
        extract_after_colon(b"Serial Number: AB C ", b"Serial Number:"),
        Some(b(&"AB C"))
    );
    assert_eq!(extract_after_colon(b"nothing here", b"Serial Number:"), None);
}

#[test]
fn monitor_map_skips_header_and_cuts_index() {
    let text = "Monitors: 2\n 0: +*HDMI-1 1920/509x1080/286+0+0  HDMI-1\n 1: DP-1 1920/509x1080/286+1920+0  DP-1\n";
    let map = parse_monitor_map(text.as_bytes());
    assert_eq!(map.get(b"HDMI-1"), Some(b(&"0")));
    assert_eq!(map.get(b"DP-1"), Some(b(&"1")));
    assert_eq!(map.get(b"VGA-1"), None);
}

#[test]
fn monitor_map_without_header_takes_first_line_as_data() {
    let map = parse_monitor_map(b"0: X X\n");
    assert_eq!(map.get(b"X"), Some(b(&"0")));
}

#[test]
fn monitor_map_last_line_wins_on_duplicate_names() {
    let map = parse_monitor_map(b"0: A A\n1: A A\n");
    assert_eq!(map.get(b"A"), Some(b(&"1")));
}

#[test]
fn monitor_line_needs_two_tokens() {
    let mut map = MonitorMap::new();
    insert_monitor_line(&mut map, b"lonely");
    assert_eq!(map.get(b"lonely"), None);
    insert_monitor_line(&mut map, b"  ");
    insert_monitor_line(&mut map, b"2: B B");
    assert_eq!(map.get(b"B"), Some(b(&"2")));
}
