use xrandr_utils::policy::{
    map_lines, output_map_entry, parse_display_names_flags, parse_map_flags,
    should_skip_map_value, FlagError, MapFlags,
};

fn b(s: &str) -> Vec<u8> {
    s.as_bytes().to_vec()
}

fn args(words: &[&str]) -> Vec<Vec<u8>> {
    words.iter().map(|w| b(w)).collect()
}

fn flags(filtered: bool, keys: bool, values: bool) -> MapFlags {
    MapFlags { filtered, keys, values }
}

#[test]
fn map_flags_default_when_no_arguments() {
    let (f, used) = parse_map_flags(&args(&[])).unwrap();
    assert_eq!(f, flags(false, false, false));
    assert_eq!(used, 0);
}

#[test]
fn map_flags_parse_each_option() {
    let (f, used) = parse_map_flags(&args(&["--filtered", "--keys"])).unwrap();
    assert_eq!(f, flags(true, true, false));
    assert_eq!(used, 2);
}

#[test]
fn map_flags_stop_at_first_positional() {
    let (f, used) = parse_map_flags(&args(&["--values", "positional", "--keys"])).unwrap();
    assert_eq!(f, flags(false, false, true));
    assert_eq!(used, 1);
}

#[test]
fn map_flags_reject_keys_with_values_in_both_orders() {
    assert_eq!(
        parse_map_flags(&args(&["--keys", "--values"])),
        Err(FlagError::KeysValuesConflict)
    );
    assert_eq!(
        parse_map_flags(&args(&["--values", "--keys"])),
        Err(FlagError::KeysValuesConflict)
    );
}

#[test]
fn map_flags_reject_unknown_option() {
    assert_eq!(
        parse_map_flags(&args(&["--transposed"])),
        Err(FlagError::UnknownOption(b(&"--transposed")))
    );
}

#[test]
fn names_flags_connected_only() {
    assert_eq!(parse_display_names_flags(&args(&[])), Ok(false));
    assert_eq!(parse_display_names_flags(&args(&["--connected"])), Ok(true));
    assert_eq!(
        parse_display_names_flags(&args(&["oops"])),
        Err(FlagError::UnknownOption(b(&"oops")))
    );
}

#[test]
fn skip_only_applies_with_filtered_or_values() {
    assert!(!should_skip_map_value(b"  ", &flags(false, false, false)));
    assert!(should_skip_map_value(b"  ", &flags(true, false, false)));
    assert!(should_skip_map_value(b"", &flags(false, false, true)));
    assert!(!should_skip_map_value(b"x", &flags(true, false, true)));
}

#[test]
fn filtered_empty_value_prints_nothing() {
    let mut seen: Vec<Vec<u8>> = Vec::new();
    let out = output_map_entry(b"K", b"   ", &flags(true, false, false), &mut seen);
    assert_eq!(out, None);
    assert!(seen.is_empty());
}

#[test]
fn default_mode_prints_key_equals_value() {
    let mut seen: Vec<Vec<u8>> = Vec::new();
    let out = output_map_entry(b"K", b"v", &flags(false, false, false), &mut seen);
    assert_eq!(out, Some(b(&"K=v")));
    assert!(seen.is_empty());
}

#[test]
fn keys_mode_prints_key_only() {
    let mut seen: Vec<Vec<u8>> = Vec::new();
    let out = output_map_entry(b"K", b"v", &flags(false, true, false), &mut seen);
    assert_eq!(out, Some(b(&"K")));
    assert!(seen.is_empty());
}

#[test]
fn values_mode_deduplicates_in_first_occurrence_order() {
    let entries = vec![
        (b(&"k1"), b(&"a")),
        (b(&"k2"), b(&"b")),
        (b(&"k3"), b(&"a")),
    ];
    let lines = map_lines(&entries, &flags(false, false, true));
    assert_eq!(lines, vec![b(&"a"), b(&"b")]);
}

#[test]
fn values_mode_suppresses_empty_values_entirely() {
    let entries = vec![(b(&"k1"), b(&" ")), (b(&"k2"), b(&"x"))];
    let lines = map_lines(&entries, &flags(false, false, true));
    assert_eq!(lines, vec![b(&"x")]);
}

#[test]
fn map_lines_default_mode_lists_every_entry() {
    let entries = vec![(b(&"A"), b(&"1")), (b(&"B"), b(&""))];
    let lines = map_lines(&entries, &flags(false, false, false));
    assert_eq!(lines, vec![b(&"A=1"), b(&"B=")]);
    let filtered = map_lines(&entries, &flags(true, false, false));
    assert_eq!(filtered, vec![b(&"A=1")]);
}
