//! Serial-number extraction from the EDID decoder's textual report, in
//! fixed priority order: a quoted `Display Product Serial Number:` value,
//! then the remainder of a `Serial Number:` line, then a quoted
//! `Alphanumeric Data String:` value. Each strategy scans the whole report
//! before the next is tried; within one, the first accepted line wins.
use crate::text::{
    ascii_bytes, ascii_of, byte_is, contains_sub, find_byte, idx_of, spec_contains_sub,
    spec_lines, spec_trim, split_lines, trim, views_of,
};
use vstd::prelude::*;

verus! {

/// The trimmed text between the first two single quotes of a line that
/// contains `label` anywhere; the quotes are searched from the line start.
pub open spec fn spec_between_quotes(line: Seq<u8>, label: Seq<u8>) -> Option<Seq<u8>> {
    if !spec_contains_sub(line, label) {
        None
    } else {
        let start = idx_of(line, byte_is(0x27u8));
        if start == line.len() {
            None
        } else {
            let rest = line.skip(start + 1);
            let end = idx_of(rest, byte_is(0x27u8));
            if end == rest.len() {
                None
            } else {
                Some(spec_trim(rest.subrange(0, end)))
            }
        }
    }
}

/// The trimmed text after the first colon of a line that contains `label`.
pub open spec fn spec_after_colon(line: Seq<u8>, label: Seq<u8>) -> Option<Seq<u8>> {
    if !spec_contains_sub(line, label) {
        None
    } else {
        let idx = idx_of(line, byte_is(0x3au8));
        if idx == line.len() {
            None
        } else {
            Some(spec_trim(line.skip(idx + 1)))
        }
    }
}

/// Extracts the first `'...'`-quoted substring of a line containing
/// `label`, trimmed; `None` when the label or the quotes are absent.
pub fn extract_between_quotes(line: &[u8], label: &[u8]) -> (r: Option<Vec<u8>>)
    ensures
        crate::header::opt_view(r) == spec_between_quotes(line@, label@),
{
    if !contains_sub(line, label) {
        return None;
    }
    let start = match find_byte(line, 0x27) {
        Some(s) => s,
        None => {
            return None;
        },
    };
    let n = line.len();
    let rest = vstd::slice::slice_subrange(line, start + 1, n);
    proof {
        assert(rest@ =~= line@.skip(start + 1));
    }
    let end = match find_byte(rest, 0x27) {
        Some(e) => e,
        None => {
            return None;
        },
    };
    let inner = vstd::slice::slice_subrange(rest, 0, end);
    proof {
        assert(inner@ =~= line@.skip(start + 1).subrange(0, end as int));
    }
    Some(vstd::slice::slice_to_vec(trim(inner)))
}

/// Extracts everything after the first `:` of a line containing `label`,
/// trimmed; `None` when the label or the colon is absent.
pub fn extract_after_colon(line: &[u8], label: &[u8]) -> (r: Option<Vec<u8>>)
    ensures
        crate::header::opt_view(r) == spec_after_colon(line@, label@),
{
    if !contains_sub(line, label) {
        return None;
    }
    let idx = match find_byte(line, 0x3a) {
        Some(s) => s,
        None => {
            return None;
        },
    };
    let n = line.len();
    let rest = vstd::slice::slice_subrange(line, idx + 1, n);
    proof {
        assert(rest@ =~= line@.skip(idx + 1));
    }
    Some(vstd::slice::slice_to_vec(trim(rest)))
}

/// The first line's non-empty quoted value for `label`, scanning in order.
pub open spec fn spec_first_quoted(ls: Seq<Seq<u8>>, label: Seq<u8>) -> Option<Seq<u8>>
    decreases ls.len(),
{
    if ls.len() == 0 {
        None
    } else {
        match spec_between_quotes(ls[0], label) {
            Some(v) => if v.len() > 0 {
                Some(v)
            } else {
                spec_first_quoted(ls.drop_first(), label)
            },
            None => spec_first_quoted(ls.drop_first(), label),
        }
    }
}

/// The first line's non-empty after-colon value for `label`.
pub open spec fn spec_first_after_colon(ls: Seq<Seq<u8>>, label: Seq<u8>) -> Option<Seq<u8>>
    decreases ls.len(),
{
    if ls.len() == 0 {
        None
    } else {
        match spec_after_colon(ls[0], label) {
            Some(v) => if v.len() > 0 {
                Some(v)
            } else {
                spec_first_after_colon(ls.drop_first(), label)
            },
            None => spec_first_after_colon(ls.drop_first(), label),
        }
    }
}

/// The first line's quoted value for `label` that is non-empty after one
/// more trim.
pub open spec fn spec_first_quoted_retrimmed(ls: Seq<Seq<u8>>, label: Seq<u8>) -> Option<Seq<u8>>
    decreases ls.len(),
{
    if ls.len() == 0 {
        None
    } else {
        match spec_between_quotes(ls[0], label) {
            Some(v) => if spec_trim(v).len() > 0 {
                Some(spec_trim(v))
            } else {
                spec_first_quoted_retrimmed(ls.drop_first(), label)
            },
            None => spec_first_quoted_retrimmed(ls.drop_first(), label),
        }
    }
}

/// The serial the decoder's report yields, by the three-tier fallback.
pub open spec fn spec_serial(text: Seq<u8>) -> Option<Seq<u8>> {
    let ls = spec_lines(text);
    match spec_first_quoted(ls, ascii_of("Display Product Serial Number:"@)) {
        Some(v) => Some(v),
        None => match spec_first_after_colon(ls, ascii_of("Serial Number:"@)) {
            Some(v) => Some(v),
            None => spec_first_quoted_retrimmed(ls, ascii_of("Alphanumeric Data String:"@)),
        },
    }
}

fn word_product_serial_label() -> (v: Vec<u8>)
    ensures
        v@ == ascii_of("Display Product Serial Number:"@),
{
    proof {
        reveal_strlit("Display Product Serial Number:");
        assert(vstd::string::is_ascii("Display Product Serial Number:"));
    }
    ascii_bytes("Display Product Serial Number:")
}

fn word_serial_label() -> (v: Vec<u8>)
    ensures
        v@ == ascii_of("Serial Number:"@),
{
    proof {
        reveal_strlit("Serial Number:");
        assert(vstd::string::is_ascii("Serial Number:"));
    }
    ascii_bytes("Serial Number:")
}

fn word_alnum_label() -> (v: Vec<u8>)
    ensures
        v@ == ascii_of("Alphanumeric Data String:"@),
{
    proof {
        reveal_strlit("Alphanumeric Data String:");
        assert(vstd::string::is_ascii("Alphanumeric Data String:"));
    }
    ascii_bytes("Alphanumeric Data String:")
}

fn first_quoted(lines: &Vec<Vec<u8>>, label: &[u8]) -> (r: Option<Vec<u8>>)
    ensures
        crate::header::opt_view(r) == spec_first_quoted(views_of(lines@), label@),
{
    let ghost ls = views_of(lines@);
    let mut i: usize = 0;
    proof {
        assert(ls.skip(0) =~= ls);
    }
    while i < lines.len()
        invariant
            0 <= i <= lines@.len(),
            ls == views_of(lines@),
            spec_first_quoted(ls, label@) == spec_first_quoted(ls.skip(i as int), label@),
        decreases ls.len() - i,
    {
        proof {
            assert(ls.skip(i as int)[0] == ls[i as int]);
            assert(ls[i as int] == lines@[i as int]@);
            assert(ls.skip(i as int).drop_first() =~= ls.skip(i + 1));
        }
        match extract_between_quotes(lines[i].as_slice(), label) {
            Some(value) => {
                if value.len() > 0 {
                    return Some(value);
                }
            },
            None => {},
        }
        i += 1;
    }
    proof {
        assert(ls.skip(ls.len() as int) =~= Seq::<Seq<u8>>::empty());
    }
    None
}

fn first_after_colon(lines: &Vec<Vec<u8>>, label: &[u8]) -> (r: Option<Vec<u8>>)
    ensures
        crate::header::opt_view(r) == spec_first_after_colon(views_of(lines@), label@),
{
    let ghost ls = views_of(lines@);
    let mut i: usize = 0;
    proof {
        assert(ls.skip(0) =~= ls);
    }
    while i < lines.len()
        invariant
            0 <= i <= lines@.len(),
            ls == views_of(lines@),
            spec_first_after_colon(ls, label@) == spec_first_after_colon(
                ls.skip(i as int),
                label@,
            ),
        decreases ls.len() - i,
    {
        proof {
            assert(ls.skip(i as int)[0] == ls[i as int]);
            assert(ls[i as int] == lines@[i as int]@);
            assert(ls.skip(i as int).drop_first() =~= ls.skip(i + 1));
        }
        match extract_after_colon(lines[i].as_slice(), label) {
            Some(value) => {
                if value.len() > 0 {
                    return Some(value);
                }
            },
            None => {},
        }
        i += 1;
    }
    proof {
        assert(ls.skip(ls.len() as int) =~= Seq::<Seq<u8>>::empty());
    }
    None
}

fn first_quoted_retrimmed(lines: &Vec<Vec<u8>>, label: &[u8]) -> (r: Option<Vec<u8>>)
    ensures
        crate::header::opt_view(r) == spec_first_quoted_retrimmed(views_of(lines@), label@),
{
    let ghost ls = views_of(lines@);
    let mut i: usize = 0;
    proof {
        assert(ls.skip(0) =~= ls);
    }
    while i < lines.len()
        invariant
            0 <= i <= lines@.len(),
            ls == views_of(lines@),
            spec_first_quoted_retrimmed(ls, label@) == spec_first_quoted_retrimmed(
                ls.skip(i as int),
                label@,
            ),
        decreases ls.len() - i,
    {
        proof {
            assert(ls.skip(i as int)[0] == ls[i as int]);
            assert(ls[i as int] == lines@[i as int]@);
            assert(ls.skip(i as int).drop_first() =~= ls.skip(i + 1));
        }
        match extract_between_quotes(lines[i].as_slice(), label) {
            Some(value) => {
                let trimmed = trim(value.as_slice());
                if trimmed.len() > 0 {
                    return Some(vstd::slice::slice_to_vec(trimmed));
                }
            },
            None => {},
        }
        i += 1;
    }
    proof {
        assert(ls.skip(ls.len() as int) =~= Seq::<Seq<u8>>::empty());
    }
    None
}

/// Some line yielding a non-empty quoted value makes the quoted scan
/// succeed, wherever that line stands.
pub proof fn lemma_first_quoted_finds(ls: Seq<Seq<u8>>, label: Seq<u8>, i: int)
    requires
        0 <= i < ls.len(),
        spec_between_quotes(ls[i], label) matches Some(v) && v.len() > 0,
    ensures
        spec_first_quoted(ls, label) is Some,
    decreases ls.len(),
{
    if i > 0 {
        match spec_between_quotes(ls[0], label) {
            Some(v) => {
                if v.len() == 0 {
                    assert(ls.drop_first()[i - 1] == ls[i]);
                    lemma_first_quoted_finds(ls.drop_first(), label, i - 1);
                }
            },
            None => {
                assert(ls.drop_first()[i - 1] == ls[i]);
                lemma_first_quoted_finds(ls.drop_first(), label, i - 1);
            },
        }
    }
}

/// Law: the quoted `Display Product Serial Number:` strategy wins over
/// the other two whenever any line of the report yields it a non-empty
/// value, regardless of what the other strategies would find and of line
/// order.
pub proof fn lemma_serial_priority(text: Seq<u8>, i: int)
    requires
        0 <= i < spec_lines(text).len(),
        spec_between_quotes(
            spec_lines(text)[i],
            ascii_of("Display Product Serial Number:"@),
        ) matches Some(v) && v.len() > 0,
    ensures
        spec_serial(text) is Some,
        spec_serial(text) == spec_first_quoted(
            spec_lines(text),
            ascii_of("Display Product Serial Number:"@),
        ),
{
    lemma_first_quoted_finds(spec_lines(text), ascii_of("Display Product Serial Number:"@), i);
}

/// Extracts the display serial from the decoder's report. A quoted
/// `Display Product Serial Number:` wins over a `Serial Number:` line,
/// which wins over a quoted `Alphanumeric Data String:`, regardless of
/// line order.
pub fn extract_serial(decoded: &[u8]) -> (r: Option<Vec<u8>>)
    ensures
        crate::header::opt_view(r) == spec_serial(decoded@),
{
    let lines = split_lines(decoded);
    let product_label = word_product_serial_label();
    match first_quoted(&lines, product_label.as_slice()) {
        Some(v) => {
            return Some(v);
        },
        None => {},
    }
    let serial_label = word_serial_label();
    match first_after_colon(&lines, serial_label.as_slice()) {
        Some(v) => {
            return Some(v);
        },
        None => {},
    }
    let alnum_label = word_alnum_label();
    first_quoted_retrimmed(&lines, alnum_label.as_slice())
}

} // verus!
