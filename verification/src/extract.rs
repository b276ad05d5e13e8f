//! Field extractors over a section's stored lines: EDID hex-block capture
//! and connector-id lookup.
use crate::hex::spec_is_hex_digit;
use crate::sections::DisplaySection;
use crate::text::{
    ascii_bytes, ascii_of, has_prefix, spec_has_prefix, spec_is_space, spec_trim, trim, views_of,
};
use vstd::prelude::*;

verus! {

/// The predicate holding of hex digit bytes.
pub open spec fn hex_digit_pred() -> spec_fn(u8) -> bool {
    |b: u8| spec_is_hex_digit(b)
}

/// A line whose trimmed text is only hex digits and whitespace.
pub open spec fn spec_hexish(t: Seq<u8>) -> bool {
    forall|i: int| 0 <= i < t.len() ==> spec_is_hex_digit(#[trigger] t[i]) || spec_is_space(t[i])
}

/// The hex digits of `t`, whitespace dropped.
pub open spec fn spec_hex_digits_of(t: Seq<u8>) -> Seq<u8> {
    t.filter(hex_digit_pred())
}

/// The hex accumulated by the capture scan: lines are ignored until one
/// starts with `EDID:`; from then on, a blank or non-hex line ends the
/// scan for good, and hex lines contribute their digits.
pub open spec fn spec_edid_scan(ls: Seq<Seq<u8>>, capturing: bool, acc: Seq<u8>) -> Seq<u8>
    decreases ls.len(),
{
    if ls.len() == 0 {
        acc
    } else {
        let t = spec_trim(ls[0]);
        if spec_has_prefix(t, ascii_of("EDID:"@)) {
            spec_edid_scan(ls.drop_first(), true, acc)
        } else if capturing {
            if t.len() == 0 {
                acc
            } else if spec_hexish(t) {
                spec_edid_scan(ls.drop_first(), true, acc + spec_hex_digits_of(t))
            } else {
                acc
            }
        } else {
            spec_edid_scan(ls.drop_first(), false, acc)
        }
    }
}

/// The EDID hex blob of a section's lines, if any digits were captured.
pub open spec fn spec_extract_edid(ls: Seq<Seq<u8>>) -> Option<Seq<u8>> {
    let h = spec_edid_scan(ls, false, Seq::empty());
    if h.len() == 0 {
        None
    } else {
        Some(h)
    }
}

fn word_edid_label() -> (v: Vec<u8>)
    ensures
        v@ == ascii_of("EDID:"@),
{
    proof {
        reveal_strlit("EDID:");
        assert(vstd::string::is_ascii("EDID:"));
    }
    ascii_bytes("EDID:")
}

fn is_hex_digit_byte(b: u8) -> (r: bool)
    ensures
        r == spec_is_hex_digit(b),
{
    (b >= 0x30 && b <= 0x39) || (b >= 0x61 && b <= 0x66) || (b >= 0x41 && b <= 0x46)
}

/// Whether `t` is only hex digits and whitespace, and its hex digits.
fn scan_hexish(t: &[u8]) -> (r: (bool, Vec<u8>))
    ensures
        r.0 == spec_hexish(t@),
        r.1@ == spec_hex_digits_of(t@),
{
    let mut ok = true;
    let mut digits: Vec<u8> = Vec::new();
    let mut i: usize = 0;
    proof {
        assert(t@.subrange(0, 0) =~= Seq::<u8>::empty());
        reveal(Seq::filter);
    }
    while i < t.len()
        invariant
            0 <= i <= t@.len(),
            ok == (forall|k: int|
                0 <= k < i ==> spec_is_hex_digit(#[trigger] t@[k]) || spec_is_space(t@[k])),
            digits@ == t@.subrange(0, i as int).filter(hex_digit_pred()),
        decreases t@.len() - i,
    {
        let b = t[i];
        proof {
            let pre = t@.subrange(0, i as int);
            let one = seq![t@[i as int]];
            assert(t@.subrange(0, i + 1) =~= pre + one);
            Seq::filter_distributes_over_add(pre, one, hex_digit_pred());
            reveal_with_fuel(Seq::filter, 3);
            assert(one.drop_last() =~= Seq::<u8>::empty());
            if spec_is_hex_digit(t@[i as int]) {
                assert(one.filter(hex_digit_pred()) =~= seq![t@[i as int]]);
            } else {
                assert(one.filter(hex_digit_pred()) =~= Seq::<u8>::empty());
            }
        }
        if is_hex_digit_byte(b) {
            digits.push(b);
        } else if !crate::text::is_space(b) {
            ok = false;
        }
        proof {
            assert(digits@ =~= t@.subrange(0, i + 1).filter(hex_digit_pred()));
        }
        i += 1;
    }
    proof {
        assert(t@.subrange(0, t@.len() as int) =~= t@);
    }
    (ok, digits)
}

/// Captures the EDID hex blob from a section: lines before the `EDID:`
/// label are ignored; after it, lines of hex digits and whitespace are
/// accumulated (whitespace dropped) until a blank or other line ends the
/// capture for good. `None` when no digit was ever captured.
pub fn extract_edid_hex(section: &DisplaySection) -> (r: Option<Vec<u8>>)
    ensures
        crate::header::opt_view(r) == spec_extract_edid(section@.lines),
{
    let ghost ls = section@.lines;
    let label = word_edid_label();
    let mut capture = false;
    let mut hexout: Vec<u8> = Vec::new();
    let mut i: usize = 0;
    let mut stopped = false;
    proof {
        assert(ls.skip(0) =~= ls);
        assert(hexout@ + Seq::<u8>::empty() =~= hexout@);
        assert(spec_edid_scan(ls, false, Seq::empty()) == spec_edid_scan(
            ls.skip(0),
            false,
            hexout@,
        ));
    }
    while i < section.lines.len() && !stopped
        invariant
            0 <= i <= section@.lines.len(),
            ls == section@.lines,
            label@ == ascii_of("EDID:"@),
            !stopped ==> spec_edid_scan(ls, false, Seq::empty()) == spec_edid_scan(
                ls.skip(i as int),
                capture,
                hexout@,
            ),
            stopped ==> spec_edid_scan(ls, false, Seq::empty()) == hexout@,
        decreases ls.len() - i, (if stopped {
            0int
        } else {
            1int
        }),
    {
        let ghost rest = ls.skip(i as int);
        proof {
            assert(rest[0] == ls[i as int]);
            assert(ls[i as int] == views_of(section.lines@)[i as int]);
            assert(rest.drop_first() =~= ls.skip(i + 1));
        }
        let trimmed = trim(section.lines[i].as_slice());
        if has_prefix(trimmed, label.as_slice()) {
            capture = true;
        } else if capture {
            if trimmed.len() == 0 {
                stopped = true;
            } else {
                let (ok, digits) = scan_hexish(trimmed);
                if ok {
                    let ghost before = hexout@;
                    hexout.extend_from_slice(digits.as_slice());
                    proof {
                        assert(hexout@ == before + spec_hex_digits_of(spec_trim(
                            ls[i as int],
                        )));
                    }
                } else {
                    stopped = true;
                }
            }
        }
        if !stopped {
            i += 1;
        }
    }
    proof {
        if !stopped {
            assert(ls.skip(ls.len() as int) =~= Seq::<Seq<u8>>::empty());
        }
    }
    if hexout.len() == 0 {
        None
    } else {
        Some(hexout)
    }
}

/// The trimmed remainder of the first `CONNECTOR_ID:`-prefixed line whose
/// remainder is non-empty.
pub open spec fn spec_connector_id(ls: Seq<Seq<u8>>) -> Option<Seq<u8>>
    decreases ls.len(),
{
    if ls.len() == 0 {
        None
    } else {
        let t = spec_trim(ls[0]);
        let label = ascii_of("CONNECTOR_ID:"@);
        if spec_has_prefix(t, label) && spec_trim(t.skip(label.len() as int)).len() > 0 {
            Some(spec_trim(t.skip(label.len() as int)))
        } else {
            spec_connector_id(ls.drop_first())
        }
    }
}

fn word_connector_label() -> (v: Vec<u8>)
    ensures
        v@ == ascii_of("CONNECTOR_ID:"@),
{
    proof {
        reveal_strlit("CONNECTOR_ID:");
        assert(vstd::string::is_ascii("CONNECTOR_ID:"));
    }
    ascii_bytes("CONNECTOR_ID:")
}

/// Finds the connector id: the first line whose trimmed text starts with
/// `CONNECTOR_ID:` and carries a non-empty value after it; empty values
/// do not stop the scan.
pub fn extract_connector_id(section: &DisplaySection) -> (r: Option<Vec<u8>>)
    ensures
        crate::header::opt_view(r) == spec_connector_id(section@.lines),
{
    let ghost ls = section@.lines;
    let label = word_connector_label();
    let mut i: usize = 0;
    proof {
        assert(ls.skip(0) =~= ls);
    }
    while i < section.lines.len()
        invariant
            0 <= i <= section@.lines.len(),
            ls == section@.lines,
            label@ == ascii_of("CONNECTOR_ID:"@),
            spec_connector_id(ls) == spec_connector_id(ls.skip(i as int)),
        decreases ls.len() - i,
    {
        let ghost rest = ls.skip(i as int);
        proof {
            assert(rest[0] == ls[i as int]);
            assert(ls[i as int] == views_of(section.lines@)[i as int]);
            assert(rest.drop_first() =~= ls.skip(i + 1));
        }
        let trimmed = trim(section.lines[i].as_slice());
        if has_prefix(trimmed, label.as_slice()) {
            let value = trim(vstd::slice::slice_subrange(trimmed, label.len(), trimmed.len()));
            proof {
                assert(trimmed@.subrange(label@.len() as int, trimmed@.len() as int)
                    =~= spec_trim(ls[i as int]).skip(label@.len() as int));
            }
            if value.len() > 0 {
                return Some(vstd::slice::slice_to_vec(value));
            }
        }
        i += 1;
    }
    proof {
        assert(ls.skip(ls.len() as int) =~= Seq::<Seq<u8>>::empty());
    }
    None
}

} // verus!
