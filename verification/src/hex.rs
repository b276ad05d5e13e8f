//! Hex codec: decodes a whitespace-tolerant hex string to bytes, two
//! case-insensitive digits per byte, high nibble first. Decoding fails
//! atomically: an odd digit count or an invalid digit pair yields an error
//! and no partial output.
use crate::text::{non_space_pred, spec_is_space};
use vstd::prelude::*;

verus! {

#[derive(Debug, PartialEq, Eq, Structural)]
pub enum HexError {
    /// The digit count, whitespace removed, is odd.
    OddLength,
    /// The first pair that is not two hex digits, as found.
    InvalidPair(u8, u8),
}

pub open spec fn spec_is_hex_digit(b: u8) -> bool {
    (0x30 <= b <= 0x39) || (0x61 <= b <= 0x66) || (0x41 <= b <= 0x46)
}

pub open spec fn all_hex(s: Seq<u8>) -> bool {
    forall|i: int| 0 <= i < s.len() ==> spec_is_hex_digit(#[trigger] s[i])
}

/// The numeric value of one hex digit.
pub open spec fn spec_hex_val(b: u8) -> u8 {
    if 0x30 <= b <= 0x39 {
        (b - 0x30) as u8
    } else if 0x61 <= b <= 0x66 {
        (b - 0x61 + 10) as u8
    } else {
        (b - 0x41 + 10) as u8
    }
}

/// The byte a pair of hex digits denotes, high nibble first.
pub open spec fn spec_hex_byte(hi: u8, lo: u8) -> u8
    recommends
        spec_is_hex_digit(hi),
        spec_is_hex_digit(lo),
{
    (spec_hex_val(hi) * 16 + spec_hex_val(lo)) as u8
}

/// `s` with all ASCII whitespace removed.
pub open spec fn spec_strip_ws(s: Seq<u8>) -> Seq<u8> {
    s.filter(non_space_pred())
}

/// The bytes denoted by an even-length, all-hex digit sequence.
pub open spec fn spec_decode_hex(s: Seq<u8>) -> Seq<u8>
    recommends
        s.len() % 2 == 0,
        all_hex(s),
    decreases s.len(),
{
    if s.len() < 2 {
        Seq::empty()
    } else {
        seq![spec_hex_byte(s[0], s[1])] + spec_decode_hex(s.skip(2))
    }
}

/// Position `p` starts the first pair that is not two hex digits.
pub open spec fn bad_pair_at(s: Seq<u8>, p: int) -> bool {
    &&& 0 <= p
    &&& p % 2 == 0
    &&& p + 2 <= s.len()
    &&& !(spec_is_hex_digit(s[p]) && spec_is_hex_digit(s[p + 1]))
    &&& forall|q: int| 0 <= q < p ==> spec_is_hex_digit(#[trigger] s[q])
}

/// The lowercase hex digit for a nibble.
pub open spec fn spec_hex_digit(n: u8) -> u8
    recommends
        n < 16,
{
    if n < 10 {
        (0x30 + n) as u8
    } else {
        (0x61 + n - 10) as u8
    }
}

/// The lowercase hex encoding of a byte sequence, two digits per byte.
pub open spec fn spec_encode_hex(bs: Seq<u8>) -> Seq<u8>
    decreases bs.len(),
{
    if bs.len() == 0 {
        Seq::empty()
    } else {
        seq![spec_hex_digit(bs[0] / 16), spec_hex_digit(bs[0] % 16)] + spec_encode_hex(
            bs.drop_first(),
        )
    }
}

/// The numeric value of one hex digit, if it is one.
pub fn hex_pair_to_byte(hi: u8, lo: u8) -> (r: Option<u8>)
    ensures
        match r {
            Some(v) => spec_is_hex_digit(hi) && spec_is_hex_digit(lo) && v == spec_hex_byte(
                hi,
                lo,
            ),
            None => !(spec_is_hex_digit(hi) && spec_is_hex_digit(lo)),
        },
{
    let h = match hex_digit_val(hi) {
        Some(v) => v,
        None => {
            return None;
        },
    };
    let l = match hex_digit_val(lo) {
        Some(v) => v,
        None => {
            return None;
        },
    };
    Some(h * 16 + l)
}

fn hex_digit_val(b: u8) -> (r: Option<u8>)
    ensures
        match r {
            Some(v) => spec_is_hex_digit(b) && v == spec_hex_val(b) && v < 16,
            None => !spec_is_hex_digit(b),
        },
{
    if b >= 0x30 && b <= 0x39 {
        Some(b - 0x30)
    } else if b >= 0x61 && b <= 0x66 {
        Some(b - 0x61 + 10)
    } else if b >= 0x41 && b <= 0x46 {
        Some(b - 0x41 + 10)
    } else {
        None
    }
}

/// Removes all ASCII whitespace from `s`.
fn strip_ws(s: &[u8]) -> (r: Vec<u8>)
    ensures
        r@ == spec_strip_ws(s@),
{
    let mut out: Vec<u8> = Vec::new();
    let mut i: usize = 0;
    proof {
        assert(s@.subrange(0, 0) =~= Seq::<u8>::empty());
        reveal(Seq::filter);
    }
    while i < s.len()
        invariant
            0 <= i <= s@.len(),
            out@ == s@.subrange(0, i as int).filter(non_space_pred()),
        decreases s@.len() - i,
    {
        let b = s[i];
        proof {
            let pre = s@.subrange(0, i as int);
            let one = seq![s@[i as int]];
            assert(s@.subrange(0, i + 1) =~= pre + one);
            Seq::filter_distributes_over_add(pre, one, non_space_pred());
            reveal(Seq::filter);
            assert(one.drop_last() =~= Seq::<u8>::empty());
            reveal_with_fuel(Seq::filter, 3);
            if !spec_is_space(s@[i as int]) {
                assert(one.filter(non_space_pred()) =~= seq![s@[i as int]]);
            } else {
                assert(one.filter(non_space_pred()) =~= Seq::<u8>::empty());
            }
        }
        if !crate::text::is_space(b) {
            out.push(b);
            proof {
                assert(out@ =~= s@.subrange(0, i + 1).filter(non_space_pred()));
            }
        } else {
            proof {
                assert(out@ =~= s@.subrange(0, i + 1).filter(non_space_pred()));
            }
        }
        i += 1;
    }
    proof {
        assert(s@.subrange(0, s@.len() as int) =~= s@);
    }
    out
}

/// Decodes a hex string that may contain embedded whitespace. Fails with
/// `OddLength` when the digit count is odd, and with `InvalidPair` naming
/// the first offending pair otherwise; succeeds exactly on evenly paired
/// hex input, producing one byte per pair, high nibble first.
pub fn hex_to_bytes(hex: &[u8]) -> (r: Result<Vec<u8>, HexError>)
    ensures
        ({
            let st = spec_strip_ws(hex@);
            match r {
                Ok(v) => st.len() % 2 == 0 && all_hex(st) && v@ == spec_decode_hex(st),
                Err(HexError::OddLength) => st.len() % 2 != 0,
                Err(HexError::InvalidPair(h, l)) => st.len() % 2 == 0 && exists|p: int|
                    #[trigger] bad_pair_at(st, p) && h == st[p] && l == st[p + 1],
            }
        }),
{
    let chars = strip_ws(hex);
    let ghost st = spec_strip_ws(hex@);
    if chars.len() % 2 != 0 {
        return Err(HexError::OddLength);
    }
    let mut bytes: Vec<u8> = Vec::new();
    let mut index: usize = 0;
    proof {
        assert(st.skip(0) =~= st);
        assert(bytes@ + spec_decode_hex(st) =~= spec_decode_hex(st));
    }
    while index < chars.len()
        invariant
            0 <= index <= chars@.len(),
            index % 2 == 0,
            chars@.len() % 2 == 0,
            st == spec_strip_ws(hex@),
            chars@ == st,
            spec_decode_hex(st) == bytes@ + spec_decode_hex(st.skip(index as int)),
            forall|q: int| 0 <= q < index ==> spec_is_hex_digit(#[trigger] st[q]),
        decreases chars@.len() - index,
    {
        let hi = chars[index];
        let lo = chars[index + 1];
        match hex_pair_to_byte(hi, lo) {
            Some(value) => {
                proof {
                    let rest = st.skip(index as int);
                    assert(rest[0] == st[index as int]);
                    assert(rest[1] == st[index + 1]);
                    assert(rest.skip(2) =~= st.skip(index + 2));
                    assert(spec_decode_hex(rest) == seq![spec_hex_byte(hi, lo)]
                        + spec_decode_hex(st.skip(index + 2)));
                    assert(bytes@.push(value) + spec_decode_hex(st.skip(index + 2)) =~= bytes@
                        + spec_decode_hex(rest));
                }
                bytes.push(value);
            },
            None => {
                proof {
                    assert(bad_pair_at(st, index as int));
                }
                return Err(HexError::InvalidPair(hi, lo));
            },
        }
        index += 2;
    }
    proof {
        assert(st.skip(st.len() as int) =~= Seq::<u8>::empty());
        assert(bytes@ + spec_decode_hex(st.skip(st.len() as int)) =~= bytes@);
    }
    Ok(bytes)
}

fn hex_digit_of(n: u8) -> (r: u8)
    requires
        n < 16,
    ensures
        r == spec_hex_digit(n),
{
    if n < 10 {
        0x30 + n
    } else {
        0x61 + n - 10
    }
}

/// Encodes bytes as lowercase hex, two digits per byte, high nibble first.
pub fn hex_encode(bytes: &[u8]) -> (r: Vec<u8>)
    ensures
        r@ == spec_encode_hex(bytes@),
{
    let mut out: Vec<u8> = Vec::new();
    let mut i: usize = 0;
    proof {
        assert(bytes@.skip(0) =~= bytes@);
        assert(out@ + spec_encode_hex(bytes@) =~= spec_encode_hex(bytes@));
    }
    while i < bytes.len()
        invariant
            0 <= i <= bytes@.len(),
            spec_encode_hex(bytes@) == out@ + spec_encode_hex(bytes@.skip(i as int)),
        decreases bytes@.len() - i,
    {
        let b = bytes[i];
        let hi = hex_digit_of(b / 16);
        let lo = hex_digit_of(b % 16);
        proof {
            let rest = bytes@.skip(i as int);
            assert(rest[0] == bytes@[i as int]);
            assert(rest.drop_first() =~= bytes@.skip(i + 1));
            assert(spec_encode_hex(rest) == seq![spec_hex_digit(b / 16), spec_hex_digit(b % 16)]
                + spec_encode_hex(bytes@.skip(i + 1)));
            assert(out@.push(hi).push(lo) + spec_encode_hex(bytes@.skip(i + 1)) =~= out@
                + spec_encode_hex(rest));
        }
        out.push(hi);
        out.push(lo);
        i += 1;
    }
    proof {
        assert(bytes@.skip(bytes@.len() as int) =~= Seq::<u8>::empty());
        assert(out@ + spec_encode_hex(bytes@.skip(bytes@.len() as int)) =~= out@);
    }
    out
}

proof fn lemma_hex_digit_props(n: u8)
    requires
        n < 16,
    ensures
        spec_is_hex_digit(spec_hex_digit(n)),
        !spec_is_space(spec_hex_digit(n)),
        spec_hex_val(spec_hex_digit(n)) == n,
{
}

/// The two digits of `b` decode back to `b`.
proof fn lemma_encode_pair(b: u8)
    ensures
        b / 16 < 16,
        b % 16 < 16,
        spec_hex_byte(spec_hex_digit(b / 16), spec_hex_digit(b % 16)) == b,
{
    lemma_hex_digit_props(b / 16);
    lemma_hex_digit_props(b % 16);
}

proof fn lemma_encode_all_hex(bs: Seq<u8>)
    ensures
        spec_encode_hex(bs).len() == 2 * bs.len(),
        all_hex(spec_encode_hex(bs)),
    decreases bs.len(),
{
    if bs.len() > 0 {
        let b = bs[0];
        let pair = seq![spec_hex_digit(b / 16), spec_hex_digit(b % 16)];
        let rest = spec_encode_hex(bs.drop_first());
        lemma_encode_all_hex(bs.drop_first());
        lemma_hex_digit_props(b / 16);
        lemma_hex_digit_props(b % 16);
        assert forall|i: int| 0 <= i < (pair + rest).len() implies spec_is_hex_digit(
            #[trigger] (pair + rest)[i],
        ) by {
            if i >= 2 {
                assert((pair + rest)[i] == rest[i - 2]);
            }
        }
    }
}

/// Stripping whitespace from whitespace-free text changes nothing.
proof fn lemma_strip_ws_id(s: Seq<u8>)
    requires
        forall|i: int| 0 <= i < s.len() ==> !spec_is_space(#[trigger] s[i]),
    ensures
        spec_strip_ws(s) == s,
    decreases s.len(),
{
    reveal(Seq::filter);
    if s.len() == 0 {
        assert(s.filter(non_space_pred()) =~= s);
    } else {
        lemma_strip_ws_id(s.drop_last());
        assert(s.filter(non_space_pred()) =~= s);
    }
}

proof fn lemma_encode_decode(bs: Seq<u8>)
    ensures
        spec_decode_hex(spec_encode_hex(bs)) == bs,
    decreases bs.len(),
{
    if bs.len() == 0 {
        assert(spec_decode_hex(spec_encode_hex(bs)) =~= bs);
    } else {
        let b = bs[0];
        let pair = seq![spec_hex_digit(b / 16), spec_hex_digit(b % 16)];
        let rest = spec_encode_hex(bs.drop_first());
        lemma_encode_decode(bs.drop_first());
        lemma_encode_pair(b);
        assert(spec_encode_hex(bs) == pair + rest);
        assert((pair + rest)[0] == spec_hex_digit(b / 16));
        assert((pair + rest)[1] == spec_hex_digit(b % 16));
        assert((pair + rest).skip(2) =~= rest);
        assert(spec_decode_hex(pair + rest) == seq![b] + spec_decode_hex(rest));
        assert(seq![b] + bs.drop_first() =~= bs);
    }
}

/// Law: decoding inverts encoding. The encoding of any byte sequence holds
/// no whitespace, has even length, is all hex digits, and decodes to the
/// bytes it was made from.
pub proof fn lemma_hex_round_trip(bs: Seq<u8>)
    ensures
        spec_strip_ws(spec_encode_hex(bs)) == spec_encode_hex(bs),
        spec_encode_hex(bs).len() == 2 * bs.len(),
        all_hex(spec_encode_hex(bs)),
        spec_decode_hex(spec_encode_hex(bs)) == bs,
{
    lemma_encode_all_hex(bs);
    assert forall|i: int| 0 <= i < spec_encode_hex(bs).len() implies !spec_is_space(
        #[trigger] spec_encode_hex(bs)[i],
    ) by {
        assert(spec_is_hex_digit(spec_encode_hex(bs)[i]));
    }
    lemma_strip_ws_id(spec_encode_hex(bs));
    lemma_encode_decode(bs);
}

} // verus!
