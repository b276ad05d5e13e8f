use xrandr_utils::commands::{
    build_off_args, expect_arg, filtered_display_names, run_dual_display_output,
    run_single_display_output, CmdError,
};
use xrandr_utils::header::DisplayState;
use xrandr_utils::monitors::parse_monitor_map;
use xrandr_utils::policy::{map_lines, MapFlags};
use xrandr_utils::queries::{
    connected_map_entries, connector_map_entries, display_connected, display_connector,
    display_edid, display_geometry, display_label_line, display_names, display_section_text,
    geometry_map_entries, monitor_map_entries, QueryError,
};
use xrandr_utils::sections::parse_sections;
use xrandr_utils::text::escape_multiline;

fn b(s: &str) -> Vec<u8> {
    s.as_bytes().to_vec()
}

fn list(words: &[&str]) -> Vec<Vec<u8>> {
    words.iter().map(|w| b(w)).collect()
}

const TOPOLOGY: &str = "A connected primary 1920x1080+0+0\n\
EDID:\n\
  00ffffff\n\
\n\
CONNECTOR_ID: 5\n\
B disconnected\n\
info\n\
C connected\n\
CONNECTOR_ID: 9\n";

#[test]
fn filtered_names_drop_excluded() {
    let sections = parse_sections(TOPOLOGY.as_bytes());
    let names = filtered_display_names(&sections, &list(&["B"]));
    assert_eq!(names, list(&["A", "C"]));
}

#[test]
fn off_args_build_triples() {
    let args = build_off_args(&list(&["A", "B"]));
    assert_eq!(
        args,
        list(&["--output", "A", "--off", "--output", "B", "--off"])
    );
}

#[test]
fn single_output_keeps_one_and_disables_the_rest() {
    let sections = parse_sections(TOPOLOGY.as_bytes());
    let args = run_single_display_output(b"B", &sections).unwrap();
    assert_eq!(
        args,
        list(&[
            "--output", "B", "--primary", "--auto", "--output", "A", "--off", "--output", "C",
            "--off"
        ])
    );
}

#[test]
fn single_output_unknown_display_fails() {
    let sections = parse_sections(TOPOLOGY.as_bytes());
    assert_eq!(
        run_single_display_output(b"Z", &sections),
        Err(CmdError::DisplayNotFound(b(&"Z")))
    );
}

#[test]
fn dual_output_places_two_side_by_side() {
    let sections = parse_sections(TOPOLOGY.as_bytes());
    let args = run_dual_display_output(b"A", b"C", &sections).unwrap();
    assert_eq!(
        args,
        list(&[
            "--output", "A", "--primary", "--auto", "--output", "C", "--auto", "--right-of",
            "A", "--output", "B", "--off"
        ])
    );
}

#[test]
fn dual_output_rejects_equal_displays() {
    let sections = parse_sections(TOPOLOGY.as_bytes());
    assert_eq!(
        run_dual_display_output(b"A", b"A", &sections),
        Err(CmdError::SameDisplays)
    );
    assert_eq!(
        run_dual_display_output(b"A", b"Z", &sections),
        Err(CmdError::DisplayNotFound(b(&"Z")))
    );
}

#[test]
fn expect_arg_indexes_arguments() {
    let args = list(&["one", "two"]);
    assert_eq!(expect_arg(&args, 0), Some(b(&"one")));
    assert_eq!(expect_arg(&args, 1), Some(b(&"two")));
    assert_eq!(expect_arg(&args, 2), None);
}

#[test]
fn query_connected_state() {
    let sections = parse_sections(TOPOLOGY.as_bytes());
    assert_eq!(display_connected(&sections, b"A"), Ok(DisplayState::Connected));
    assert_eq!(
        display_connected(&sections, b"B"),
        Ok(DisplayState::Disconnected)
    );
    assert_eq!(
        display_connected(&sections, b"Z"),
        Err(QueryError::DisplayNotFound)
    );
}

#[test]
fn query_geometry_distinguishes_failures() {
    let sections = parse_sections(TOPOLOGY.as_bytes());
    assert_eq!(display_geometry(&sections, b"A"), Ok(b(&"1920x1080+0+0")));
    assert_eq!(
        display_geometry(&sections, b"B"),
        Err(QueryError::DisplayNotConnected)
    );
    assert_eq!(
        display_geometry(&sections, b"C"),
        Err(QueryError::FieldMissing)
    );
    assert_eq!(
        display_geometry(&sections, b"Z"),
        Err(QueryError::DisplayNotFound)
    );
}

#[test]
fn query_edid_and_connector() {
    let sections = parse_sections(TOPOLOGY.as_bytes());
    assert_eq!(display_edid(&sections, b"A"), Ok(b(&"00ffffff")));
    assert_eq!(display_edid(&sections, b"B"), Err(QueryError::FieldMissing));
    assert_eq!(display_connector(&sections, b"A"), Ok(b(&"5")));
    assert_eq!(
        display_connector(&sections, b"B"),
        Err(QueryError::FieldMissing)
    );
}

#[test]
fn query_section_text_and_label_line() {
    let sections = parse_sections(TOPOLOGY.as_bytes());
    assert_eq!(
        display_section_text(&sections, b"B"),
        Ok(b(&"B disconnected\ninfo"))
    );
    assert_eq!(
        display_label_line(&sections, b"A"),
        Ok(b(&"A connected primary 1920x1080+0+0"))
    );
    assert_eq!(
        display_label_line(&sections, b"Z"),
        Err(QueryError::DisplayNotFound)
    );
}

#[test]
fn query_section_text_empty_section_is_its_own_error() {
    let sections = vec![xrandr_utils::sections::DisplaySection {
        name: b(&"A"),
        state: DisplayState::Connected,
        primary: false,
        geometry: None,
        lines: vec![Vec::new()],
    }];
    assert_eq!(
        display_section_text(&sections, b"A"),
        Err(QueryError::SectionEmpty)
    );
}

#[test]
fn query_label_line_missing_when_section_has_no_lines() {
    let sections = vec![xrandr_utils::sections::DisplaySection {
        name: b(&"A"),
        state: DisplayState::Connected,
        primary: false,
        geometry: None,
        lines: Vec::new(),
    }];
    assert_eq!(
        display_label_line(&sections, b"A"),
        Err(QueryError::FieldMissing)
    );
}

#[test]
fn query_names_with_and_without_filter() {
    let sections = parse_sections(TOPOLOGY.as_bytes());
    assert_eq!(display_names(&sections, false), list(&["A", "B", "C"]));
    assert_eq!(display_names(&sections, true), list(&["A", "C"]));
}

#[test]
fn connected_listing_pairs_names_with_states() {
    let sections = parse_sections(TOPOLOGY.as_bytes());
    let entries = connected_map_entries(&sections);
    let flags = MapFlags { filtered: false, keys: false, values: false };
    assert_eq!(
        map_lines(&entries, &flags),
        list(&["A=connected", "B=disconnected", "C=connected"])
    );
}

#[test]
fn geometry_listing_skips_missing_entries_individually() {
    let sections = parse_sections(TOPOLOGY.as_bytes());
    let entries = geometry_map_entries(&sections);
    let flags = MapFlags { filtered: false, keys: false, values: false };
    assert_eq!(map_lines(&entries, &flags), list(&["A=primary,1920x1080+0+0"]));
}

#[test]
fn connector_listing_leaves_missing_values_empty() {
    let sections = parse_sections(TOPOLOGY.as_bytes());
    let entries = connector_map_entries(&sections);
    let flags = MapFlags { filtered: false, keys: false, values: false };
    assert_eq!(map_lines(&entries, &flags), list(&["A=5", "B=", "C=9"]));
    let filtered = MapFlags { filtered: true, keys: false, values: false };
    assert_eq!(map_lines(&entries, &filtered), list(&["A=5", "C=9"]));
}

#[test]
fn monitor_listing_takes_indexes_from_the_map() {
    let sections = parse_sections(TOPOLOGY.as_bytes());
    let map = parse_monitor_map(b"Monitors: 1\n 0: +*A 1920/509x1080/286+0+0  A\n");
    let entries = monitor_map_entries(&sections, &map);
    let flags = MapFlags { filtered: true, keys: false, values: false };
    assert_eq!(map_lines(&entries, &flags), list(&["A=0"]));
}

#[test]
fn escape_multiline_doubles_backslashes_and_newlines() {
    assert_eq!(escape_multiline(b"a\\b\nc"), b(&"a\\\\b\\nc"));
    assert_eq!(escape_multiline(b""), b(&""));
}
