//! Map output policy: per key/value pair, emit `key=value`, the key only,
//! the value only deduplicated, or nothing for an empty value, as the
//! flags ask; and the flag parsing for map-style and name-listing
//! commands. The `keys` and `values` flags exclude each other.
use crate::text::{ascii_bytes, ascii_of, bytes_eq, spec_has_prefix, spec_trim, trim, views_of};
use vstd::prelude::*;

verus! {

#[derive(Clone, Copy, PartialEq, Eq, Structural, Debug)]
pub struct MapFlags {
    pub filtered: bool,
    pub keys: bool,
    pub values: bool,
}

#[derive(Debug, PartialEq, Eq)]
pub enum FlagError {
    /// `--keys` and `--values` were both supplied.
    KeysValuesConflict,
    /// An option that no command knows, as given.
    UnknownOption(Vec<u8>),
}

/// The outcome of a flag scan, in mathematical form.
#[verifier::ext_equal]
pub ghost enum FlagOutcome {
    /// The flags parsed, and how many arguments were consumed.
    Done(MapFlags, int),
    Conflict,
    Unknown(Seq<u8>),
}

/// The scan of map flags from position `i` on with `flags` gathered so
/// far: it stops before the first argument without a `--` prefix, takes
/// `--filtered`, `--keys` and `--values`, refuses their combination and
/// any other option.
pub open spec fn spec_scan_map_flags(args: Seq<Seq<u8>>, i: int, flags: MapFlags) -> FlagOutcome
    decreases args.len() - i,
{
    if i < 0 || i >= args.len() || !spec_has_prefix(args[i], ascii_of("--"@)) {
        FlagOutcome::Done(flags, i)
    } else if args[i] == ascii_of("--filtered"@) {
        spec_scan_map_flags(args, i + 1, MapFlags { filtered: true, ..flags })
    } else if args[i] == ascii_of("--keys"@) {
        if flags.values {
            FlagOutcome::Conflict
        } else {
            spec_scan_map_flags(args, i + 1, MapFlags { keys: true, ..flags })
        }
    } else if args[i] == ascii_of("--values"@) {
        if flags.keys {
            FlagOutcome::Conflict
        } else {
            spec_scan_map_flags(args, i + 1, MapFlags { values: true, ..flags })
        }
    } else {
        FlagOutcome::Unknown(args[i])
    }
}

pub open spec fn spec_parse_map_flags(args: Seq<Seq<u8>>) -> FlagOutcome {
    spec_scan_map_flags(args, 0, MapFlags { filtered: false, keys: false, values: false })
}

fn word_dashdash() -> (v: Vec<u8>)
    ensures
        v@ == ascii_of("--"@),
{
    proof {
        reveal_strlit("--");
        assert(vstd::string::is_ascii("--"));
    }
    ascii_bytes("--")
}

fn word_filtered() -> (v: Vec<u8>)
    ensures
        v@ == ascii_of("--filtered"@),
{
    proof {
        reveal_strlit("--filtered");
        assert(vstd::string::is_ascii("--filtered"));
    }
    ascii_bytes("--filtered")
}

fn word_keys() -> (v: Vec<u8>)
    ensures
        v@ == ascii_of("--keys"@),
{
    proof {
        reveal_strlit("--keys");
        assert(vstd::string::is_ascii("--keys"));
    }
    ascii_bytes("--keys")
}

fn word_values() -> (v: Vec<u8>)
    ensures
        v@ == ascii_of("--values"@),
{
    proof {
        reveal_strlit("--values");
        assert(vstd::string::is_ascii("--values"));
    }
    ascii_bytes("--values")
}

fn word_connected_flag() -> (v: Vec<u8>)
    ensures
        v@ == ascii_of("--connected"@),
{
    proof {
        reveal_strlit("--connected");
        assert(vstd::string::is_ascii("--connected"));
    }
    ascii_bytes("--connected")
}

/// Parses the flags of a map-style command from the front of `args`,
/// stopping before the first argument that does not start with `--`. On
/// success the flags and the count of consumed arguments are returned;
/// `--keys` with `--values` is refused, as is any unknown option.
pub fn parse_map_flags(args: &Vec<Vec<u8>>) -> (r: Result<(MapFlags, usize), FlagError>)
    ensures
        match r {
            Ok(p) => spec_parse_map_flags(views_of(args@)) == FlagOutcome::Done(
                p.0,
                p.1 as int,
            ) && p.1 <= args@.len(),
            Err(FlagError::KeysValuesConflict) => spec_parse_map_flags(views_of(args@))
                == FlagOutcome::Conflict,
            Err(FlagError::UnknownOption(w)) => spec_parse_map_flags(views_of(args@))
                == FlagOutcome::Unknown(w@),
        },
{
    let ghost av = views_of(args@);
    let dashdash = word_dashdash();
    let filtered_w = word_filtered();
    let keys_w = word_keys();
    let values_w = word_values();
    let mut flags = MapFlags { filtered: false, keys: false, values: false };
    let mut i: usize = 0;
    while i < args.len()
        invariant
            0 <= i <= args@.len(),
            av == views_of(args@),
            dashdash@ == ascii_of("--"@),
            filtered_w@ == ascii_of("--filtered"@),
            keys_w@ == ascii_of("--keys"@),
            values_w@ == ascii_of("--values"@),
            spec_parse_map_flags(av) == spec_scan_map_flags(av, i as int, flags),
        decreases args@.len() - i,
    {
        proof {
            assert(av[i as int] == args@[i as int]@);
        }
        if !crate::text::has_prefix(args[i].as_slice(), dashdash.as_slice()) {
            return Ok((flags, i));
        }
        if bytes_eq(args[i].as_slice(), filtered_w.as_slice()) {
            flags = MapFlags { filtered: true, ..flags };
        } else if bytes_eq(args[i].as_slice(), keys_w.as_slice()) {
            if flags.values {
                return Err(FlagError::KeysValuesConflict);
            }
            flags = MapFlags { keys: true, ..flags };
        } else if bytes_eq(args[i].as_slice(), values_w.as_slice()) {
            if flags.keys {
                return Err(FlagError::KeysValuesConflict);
            }
            flags = MapFlags { values: true, ..flags };
        } else {
            let w = vstd::slice::slice_to_vec(args[i].as_slice());
            return Err(FlagError::UnknownOption(w));
        }
        i += 1;
    }
    Ok((flags, i))
}

/// The outcome of the name-listing flag scan.
#[verifier::ext_equal]
pub ghost enum NamesOutcome {
    Done(bool),
    Unknown(Seq<u8>),
}

/// The scan of name-listing flags: every argument must be `--connected`,
/// which restricts the listing; anything else is unknown.
pub open spec fn spec_scan_names_flags(args: Seq<Seq<u8>>, i: int, connected: bool) -> NamesOutcome
    decreases args.len() - i,
{
    if i < 0 || i >= args.len() {
        NamesOutcome::Done(connected)
    } else if args[i] == ascii_of("--connected"@) {
        spec_scan_names_flags(args, i + 1, true)
    } else {
        NamesOutcome::Unknown(args[i])
    }
}

pub open spec fn spec_parse_names_flags(args: Seq<Seq<u8>>) -> NamesOutcome {
    spec_scan_names_flags(args, 0, false)
}

/// Parses the flags of the name-listing command: `--connected` restricts
/// the listing to connected displays; anything else is refused.
pub fn parse_display_names_flags(args: &Vec<Vec<u8>>) -> (r: Result<bool, FlagError>)
    ensures
        match r {
            Ok(connected) => spec_parse_names_flags(views_of(args@)) == NamesOutcome::Done(
                connected,
            ),
            Err(FlagError::UnknownOption(w)) => spec_parse_names_flags(views_of(args@))
                == NamesOutcome::Unknown(w@),
            Err(FlagError::KeysValuesConflict) => false,
        },
{
    let ghost av = views_of(args@);
    let connected_w = word_connected_flag();
    let mut connected = false;
    let mut i: usize = 0;
    while i < args.len()
        invariant
            0 <= i <= args@.len(),
            av == views_of(args@),
            connected_w@ == ascii_of("--connected"@),
            spec_parse_names_flags(av) == spec_scan_names_flags(av, i as int, connected),
        decreases args@.len() - i,
    {
        proof {
            assert(av[i as int] == args@[i as int]@);
        }
        if bytes_eq(args[i].as_slice(), connected_w.as_slice()) {
            connected = true;
        } else {
            let w = vstd::slice::slice_to_vec(args[i].as_slice());
            return Err(FlagError::UnknownOption(w));
        }
        i += 1;
    }
    Ok(connected)
}

/// An entry is suppressed entirely when filtering or value mode is on and
/// the value is empty after trimming.
pub open spec fn spec_should_skip(value: Seq<u8>, flags: MapFlags) -> bool {
    (flags.filtered || flags.values) && spec_trim(value).len() == 0
}

pub fn should_skip_map_value(value: &[u8], flags: &MapFlags) -> (r: bool)
    ensures
        r == spec_should_skip(value@, *flags),
{
    if !(flags.filtered || flags.values) {
        return false;
    }
    let t = trim(value);
    t.len() == 0
}

/// What one entry contributes: the line to print, if any, and the set of
/// values seen after it, as a sequence in first-emission order.
pub open spec fn spec_map_entry_line(
    name: Seq<u8>,
    value: Seq<u8>,
    flags: MapFlags,
    seen: Seq<Seq<u8>>,
) -> (Option<Seq<u8>>, Seq<Seq<u8>>) {
    if spec_should_skip(value, flags) {
        (None, seen)
    } else if flags.keys {
        (Some(name), seen)
    } else if flags.values {
        if seen.contains(value) {
            (None, seen)
        } else {
            (Some(value), seen.push(value))
        }
    } else {
        (Some(name + seq![0x3du8] + value), seen)
    }
}

/// Decides what one key/value entry prints: nothing for a suppressed or
/// already-seen value, the key alone in key mode, the value alone and
/// newly recorded in value mode, else `key=value`.
pub fn output_map_entry(
    name: &[u8],
    value: &[u8],
    flags: &MapFlags,
    seen_values: &mut Vec<Vec<u8>>,
) -> (r: Option<Vec<u8>>)
    ensures
        ({
            let out = spec_map_entry_line(name@, value@, *flags, views_of(old(seen_values)@));
            crate::header::opt_view(r) == out.0 && views_of(final(seen_values)@) == out.1
        }),
{
    if should_skip_map_value(value, flags) {
        return None;
    }
    if flags.keys {
        return Some(vstd::slice::slice_to_vec(name));
    }
    if flags.values {
        if crate::text::contains_bytes(seen_values, value) {
            return None;
        }
        let ghost before = views_of(seen_values@);
        seen_values.push(vstd::slice::slice_to_vec(value));
        proof {
            assert(views_of(seen_values@) =~= before.push(value@));
        }
        return Some(vstd::slice::slice_to_vec(value));
    }
    let mut line = vstd::slice::slice_to_vec(name);
    line.push(0x3d);
    let ghost mid = line@;
    line.extend_from_slice(value);
    proof {
        assert(line@ =~= name@ + seq![0x3du8] + value@);
    }
    Some(line)
}

/// Law: with filtering on, an entry whose value is empty after trimming
/// prints nothing and leaves the seen set unchanged, in every mode.
pub proof fn lemma_filtered_empty_suppressed(
    name: Seq<u8>,
    value: Seq<u8>,
    flags: MapFlags,
    seen: Seq<Seq<u8>>,
)
    requires
        flags.filtered || flags.values,
        spec_trim(value).len() == 0,
    ensures
        spec_map_entry_line(name, value, flags, seen).0 is None,
        spec_map_entry_line(name, value, flags, seen).1 == seen,
{
}

/// Law: no successful flag parse carries `--keys` and `--values` at
/// once; their combination always fails validation.
pub proof fn lemma_keys_values_exclusive(args: Seq<Seq<u8>>, i: int, flags: MapFlags)
    requires
        !(flags.keys && flags.values),
    ensures
        spec_scan_map_flags(args, i, flags) matches FlagOutcome::Done(f, _) ==> !(f.keys
            && f.values),
    decreases args.len() - i,
{
    if !(i < 0 || i >= args.len() || !spec_has_prefix(args[i], ascii_of("--"@))) {
        if args[i] == ascii_of("--filtered"@) {
            lemma_keys_values_exclusive(args, i + 1, MapFlags { filtered: true, ..flags });
        } else if args[i] == ascii_of("--keys"@) {
            if !flags.values {
                lemma_keys_values_exclusive(args, i + 1, MapFlags { keys: true, ..flags });
            }
        } else if args[i] == ascii_of("--values"@) {
            if !flags.keys {
                lemma_keys_values_exclusive(args, i + 1, MapFlags { values: true, ..flags });
            }
        }
    }
}

/// The views of a sequence of key/value pairs.
pub open spec fn pair_views(es: Seq<(Vec<u8>, Vec<u8>)>) -> Seq<(Seq<u8>, Seq<u8>)> {
    es.map_values(|p: (Vec<u8>, Vec<u8>)| (p.0@, p.1@))
}

/// The lines a whole listing prints, with the seen set threaded through.
pub open spec fn spec_map_lines(
    entries: Seq<(Seq<u8>, Seq<u8>)>,
    flags: MapFlags,
    seen: Seq<Seq<u8>>,
) -> (Seq<Seq<u8>>, Seq<Seq<u8>>)
    decreases entries.len(),
{
    if entries.len() == 0 {
        (Seq::empty(), seen)
    } else {
        let first = spec_map_entry_line(entries[0].0, entries[0].1, flags, seen);
        let rest = spec_map_lines(entries.drop_first(), flags, first.1);
        match first.0 {
            Some(line) => (seq![line] + rest.0, rest.1),
            None => rest,
        }
    }
}

/// The lines of a whole listing: one deduplication scope, entries in
/// order.
pub fn map_lines(entries: &Vec<(Vec<u8>, Vec<u8>)>, flags: &MapFlags) -> (r: Vec<Vec<u8>>)
    ensures
        views_of(r@) == spec_map_lines(pair_views(entries@), *flags, Seq::empty()).0,
{
    let ghost ev = pair_views(entries@);
    let mut seen: Vec<Vec<u8>> = Vec::new();
    let mut out: Vec<Vec<u8>> = Vec::new();
    let mut i: usize = 0;
    proof {
        assert(ev.skip(0) =~= ev);
        assert(views_of(seen@) =~= Seq::<Seq<u8>>::empty());
        assert(views_of(out@) + spec_map_lines(ev, *flags, views_of(seen@)).0 =~= spec_map_lines(
            ev,
            *flags,
            Seq::empty(),
        ).0);
    }
    while i < entries.len()
        invariant
            0 <= i <= entries@.len(),
            ev == pair_views(entries@),
            spec_map_lines(ev, *flags, Seq::empty()).0 == views_of(out@) + spec_map_lines(
                ev.skip(i as int),
                *flags,
                views_of(seen@),
            ).0,
        decreases entries@.len() - i,
    {
        proof {
            assert(ev.skip(i as int)[0] == ev[i as int]);
            assert(ev[i as int] == (entries@[i as int].0@, entries@[i as int].1@));
            assert(ev.skip(i as int).drop_first() =~= ev.skip(i + 1));
        }
        let ghost seen_before = views_of(seen@);
        let line = output_map_entry(
            entries[i].0.as_slice(),
            entries[i].1.as_slice(),
            flags,
            &mut seen,
        );
        match line {
            Some(l) => {
                proof {
                    let first = spec_map_entry_line(
                        ev[i as int].0,
                        ev[i as int].1,
                        *flags,
                        seen_before,
                    );
                    let rest = spec_map_lines(ev.skip(i + 1), *flags, first.1);
                    assert(views_of(out@.push(l)) =~= views_of(out@).push(l@));
                    assert(views_of(out@) + (seq![l@] + rest.0) =~= views_of(out@.push(l))
                        + rest.0);
                }
                out.push(l);
            },
            None => {},
        }
        i += 1;
    }
    proof {
        assert(ev.skip(ev.len() as int) =~= Seq::<(Seq<u8>, Seq<u8>)>::empty());
        assert(views_of(out@) + Seq::<Seq<u8>>::empty() =~= views_of(out@));
    }
    out
}

} // verus!
