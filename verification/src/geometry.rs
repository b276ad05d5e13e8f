//! Geometry token recognizer: a token names a mode and position when it has
//! the exact shape `<digits>x<digits><sign><digits><sign><digits>`, where
//! each sign is `+` or `-` and every digit run is non-empty. This is a pure
//! grammar check: arbitrarily long digit runs are accepted.
use vstd::prelude::*;

verus! {

pub open spec fn spec_is_digit(b: u8) -> bool {
    0x30 <= b <= 0x39
}

pub open spec fn spec_is_sign(b: u8) -> bool {
    b == 0x2bu8 || b == 0x2du8
}

pub open spec fn all_digits(s: Seq<u8>) -> bool {
    forall|i: int| 0 <= i < s.len() ==> spec_is_digit(#[trigger] s[i])
}

/// A decomposition of `t` as `digits x digits sign digits sign digits`,
/// with `i`, `j` and `k` the positions of the `x` and the two signs.
pub open spec fn geometry_split(t: Seq<u8>, i: int, j: int, k: int) -> bool {
    &&& 1 <= i
    &&& i + 2 <= j
    &&& j + 2 <= k
    &&& k + 2 <= t.len()
    &&& t[i] == 0x78u8
    &&& spec_is_sign(t[j])
    &&& spec_is_sign(t[k])
    &&& all_digits(t.subrange(0, i))
    &&& all_digits(t.subrange(i + 1, j))
    &&& all_digits(t.subrange(j + 1, k))
    &&& all_digits(t.subrange(k + 1, t.len() as int))
}

/// The token matches `<digits>x<digits><sign><digits><sign><digits>`
/// exactly, nothing before and nothing after.
pub open spec fn spec_is_geometry(t: Seq<u8>) -> bool {
    exists|i: int, j: int, k: int| #[trigger] geometry_split(t, i, j, k)
}

proof fn lemma_all_digits_sub(t: Seq<u8>, a: int, b: int)
    requires
        0 <= a <= b <= t.len(),
        all_digits(t.subrange(a, b)),
    ensures
        forall|k: int| a <= k < b ==> spec_is_digit(#[trigger] t[k]),
{
    assert forall|k: int| a <= k < b implies spec_is_digit(#[trigger] t[k]) by {
        assert(t.subrange(a, b)[k - a] == t[k]);
    }
}

/// Two ends of a digit run starting at the same place are the same end.
proof fn lemma_run_end_unique(t: Seq<u8>, a: int, m1: int, m2: int)
    requires
        0 <= a,
        a <= m1 <= t.len(),
        a <= m2 <= t.len(),
        forall|k: int| a <= k < m1 ==> spec_is_digit(#[trigger] t[k]),
        m1 == t.len() || !spec_is_digit(t[m1]),
        forall|k: int| a <= k < m2 ==> spec_is_digit(#[trigger] t[k]),
        m2 == t.len() || !spec_is_digit(t[m2]),
    ensures
        m1 == m2,
{
    if m1 < m2 {
        assert(spec_is_digit(t[m1]));
    }
    if m2 < m1 {
        assert(spec_is_digit(t[m2]));
    }
}

/// Advances over the non-empty maximal digit run starting at `index`.
pub fn consume_digits(bytes: &[u8], index: usize) -> (r: Option<usize>)
    ensures
        match r {
            Some(j) => {
                &&& index < j <= bytes@.len()
                &&& forall|k: int| index <= k < j ==> spec_is_digit(#[trigger] bytes@[k])
                &&& j == bytes@.len() || !spec_is_digit(bytes@[j as int])
            },
            None => index >= bytes@.len() || !spec_is_digit(bytes@[index as int]),
        },
{
    if index >= bytes.len() || !(bytes[index] >= 0x30 && bytes[index] <= 0x39) {
        return None;
    }
    let mut j: usize = index;
    while j < bytes.len() && bytes[j] >= 0x30 && bytes[j] <= 0x39
        invariant
            index <= j <= bytes@.len(),
            forall|k: int| index <= k < j ==> spec_is_digit(#[trigger] bytes@[k]),
        decreases bytes@.len() - j,
    {
        j += 1;
    }
    Some(j)
}

/// Advances over a sign followed by its non-empty maximal digit run.
pub fn consume_signed_number(bytes: &[u8], index: usize) -> (r: Option<usize>)
    ensures
        match r {
            Some(j) => {
                &&& index + 2 <= j <= bytes@.len()
                &&& spec_is_sign(bytes@[index as int])
                &&& forall|k: int| index + 1 <= k < j ==> spec_is_digit(#[trigger] bytes@[k])
                &&& j == bytes@.len() || !spec_is_digit(bytes@[j as int])
            },
            None => index >= bytes@.len() || !spec_is_sign(bytes@[index as int]) || index + 1
                >= bytes@.len() || !spec_is_digit(bytes@[index + 1]),
        },
{
    if index >= bytes.len() {
        return None;
    }
    let sign = bytes[index];
    if sign != 0x2b && sign != 0x2d {
        return None;
    }
    consume_digits(bytes, index + 1)
}

/// Whether the whole token has the geometry shape.
pub fn is_geometry_token(token: &[u8]) -> (r: bool)
    ensures
        r == spec_is_geometry(token@),
{
    let ghost t = token@;
    let i = match consume_digits(token, 0) {
        Some(next) => next,
        None => {
            proof {
                assert forall|i: int, j: int, k: int| !geometry_split(t, i, j, k) by {
                    if geometry_split(t, i, j, k) {
                        lemma_all_digits_sub(t, 0, i);
                    }
                }
            }
            return false;
        },
    };
    if i >= token.len() || token[i] != 0x78 {
        proof {
            assert forall|a: int, j: int, k: int| !geometry_split(t, a, j, k) by {
                if geometry_split(t, a, j, k) {
                    lemma_all_digits_sub(t, 0, a);
                    lemma_run_end_unique(t, 0, i as int, a);
                }
            }
        }
        return false;
    }
    let j = match consume_digits(token, i + 1) {
        Some(next) => next,
        None => {
            proof {
                assert forall|a: int, b: int, k: int| !geometry_split(t, a, b, k) by {
                    if geometry_split(t, a, b, k) {
                        lemma_all_digits_sub(t, 0, a);
                        lemma_run_end_unique(t, 0, i as int, a);
                        lemma_all_digits_sub(t, a + 1, b);
                    }
                }
            }
            return false;
        },
    };
    let k = match consume_signed_number(token, j) {
        Some(next) => next,
        None => {
            proof {
                assert forall|a: int, b: int, c: int| !geometry_split(t, a, b, c) by {
                    if geometry_split(t, a, b, c) {
                        lemma_all_digits_sub(t, 0, a);
                        lemma_run_end_unique(t, 0, i as int, a);
                        lemma_all_digits_sub(t, a + 1, b);
                        lemma_run_end_unique(t, a + 1, j as int, b);
                        lemma_all_digits_sub(t, b + 1, c);
                    }
                }
            }
            return false;
        },
    };
    let end = match consume_signed_number(token, k) {
        Some(next) => next,
        None => {
            proof {
                assert forall|a: int, b: int, c: int| !geometry_split(t, a, b, c) by {
                    if geometry_split(t, a, b, c) {
                        lemma_all_digits_sub(t, 0, a);
                        lemma_run_end_unique(t, 0, i as int, a);
                        lemma_all_digits_sub(t, a + 1, b);
                        lemma_run_end_unique(t, a + 1, j as int, b);
                        lemma_all_digits_sub(t, b + 1, c);
                        lemma_run_end_unique(t, b + 1, k as int, c);
                        lemma_all_digits_sub(t, c + 1, t.len() as int);
                    }
                }
            }
            return false;
        },
    };
    if end == token.len() {
        proof {
            assert(t.subrange(0, i as int) =~= t.subrange(0, i as int));
            assert(all_digits(t.subrange(0, i as int))) by {
                assert forall|x: int| 0 <= x < i implies spec_is_digit(
                    #[trigger] t.subrange(0, i as int)[x],
                ) by {
                    assert(t.subrange(0, i as int)[x] == t[x]);
                }
            }
            assert(all_digits(t.subrange(i + 1, j as int))) by {
                assert forall|x: int| 0 <= x < j - i - 1 implies spec_is_digit(
                    #[trigger] t.subrange(i + 1, j as int)[x],
                ) by {
                    assert(t.subrange(i + 1, j as int)[x] == t[i + 1 + x]);
                }
            }
            assert(all_digits(t.subrange(j + 1, k as int))) by {
                assert forall|x: int| 0 <= x < k - j - 1 implies spec_is_digit(
                    #[trigger] t.subrange(j + 1, k as int)[x],
                ) by {
                    assert(t.subrange(j + 1, k as int)[x] == t[j + 1 + x]);
                }
            }
            assert(all_digits(t.subrange(k + 1, t.len() as int))) by {
                assert forall|x: int| 0 <= x < t.len() - k - 1 implies spec_is_digit(
                    #[trigger] t.subrange(k + 1, t.len() as int)[x],
                ) by {
                    assert(t.subrange(k + 1, t.len() as int)[x] == t[k + 1 + x]);
                }
            }
            assert(geometry_split(t, i as int, j as int, k as int));
        }
        true
    } else {
        proof {
            assert forall|a: int, b: int, c: int| !geometry_split(t, a, b, c) by {
                if geometry_split(t, a, b, c) {
                    lemma_all_digits_sub(t, 0, a);
                    lemma_run_end_unique(t, 0, i as int, a);
                    lemma_all_digits_sub(t, a + 1, b);
                    lemma_run_end_unique(t, a + 1, j as int, b);
                    lemma_all_digits_sub(t, b + 1, c);
                    lemma_run_end_unique(t, b + 1, k as int, c);
                    lemma_all_digits_sub(t, c + 1, t.len() as int);
                    lemma_run_end_unique(t, c + 1, end as int, t.len() as int);
                }
            }
        }
        false
    }
}

} // verus!
