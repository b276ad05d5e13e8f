//! Byte-level text primitives: whitespace, trimming, tokenizing, line
//! splitting and substring search. All text handled by this crate is
//! line-oriented ASCII diagnostic output, so it is modelled as bytes.
use vstd::prelude::*;

verus! {

/// ASCII whitespace: space, tab, line feed, form feed, carriage return.
pub open spec fn spec_is_space(b: u8) -> bool {
    b == 0x20 || b == 0x09 || b == 0x0a || b == 0x0c || b == 0x0d
}

pub fn is_space(b: u8) -> (r: bool)
    ensures
        r == spec_is_space(b),
{
    b == 0x20 || b == 0x09 || b == 0x0a || b == 0x0c || b == 0x0d
}

/// The bytes of an ASCII string, one byte per character.
pub open spec fn ascii_of(s: Seq<char>) -> Seq<u8> {
    Seq::new(s.len(), |i: int| s[i] as u8)
}

/// Turns an ASCII string into its byte sequence.
pub fn ascii_bytes(s: &str) -> (v: Vec<u8>)
    requires
        vstd::string::is_ascii(s),
    ensures
        v@ == ascii_of(s@),
{
    proof {
        vstd::string::is_ascii_spec_bytes(s);
    }
    let b = s.as_bytes();
    vstd::slice::slice_to_vec(b)
}

/// Index of the first byte satisfying `pred`, or `s.len()` if none does.
pub open spec fn idx_of(s: Seq<u8>, pred: spec_fn(u8) -> bool) -> int
    decreases s.len(),
{
    if s.len() == 0 {
        0
    } else if pred(s[0]) {
        0
    } else {
        1 + idx_of(s.drop_first(), pred)
    }
}

pub proof fn lemma_idx_of(s: Seq<u8>, pred: spec_fn(u8) -> bool)
    ensures
        0 <= idx_of(s, pred) <= s.len(),
        forall|k: int| 0 <= k < idx_of(s, pred) ==> !pred(s[k]),
        idx_of(s, pred) < s.len() ==> pred(s[idx_of(s, pred)]),
    decreases s.len(),
{
    if s.len() > 0 && !pred(s[0]) {
        lemma_idx_of(s.drop_first(), pred);
        assert forall|k: int| 0 <= k < idx_of(s, pred) implies !pred(s[k]) by {
            if k > 0 {
                assert(s.drop_first()[k - 1] == s[k]);
            }
        }
        if idx_of(s, pred) < s.len() {
            assert(s.drop_first()[idx_of(s, pred) - 1] == s[idx_of(s, pred)]);
        }
    }
}

/// `idx_of` is the unique index with nothing satisfying `pred` before it.
pub proof fn lemma_idx_of_is(s: Seq<u8>, pred: spec_fn(u8) -> bool, n: int)
    requires
        0 <= n <= s.len(),
        forall|k: int| 0 <= k < n ==> !pred(s[k]),
        n < s.len() ==> pred(s[n]),
    ensures
        idx_of(s, pred) == n,
    decreases s.len(),
{
    if s.len() > 0 && !pred(s[0]) {
        lemma_idx_of_is(s.drop_first(), pred, n - 1);
    }
}

/// End of the trailing whitespace-free part: `s.len()` minus the number of
/// trailing whitespace bytes.
pub open spec fn trim_end_at(s: Seq<u8>) -> int
    decreases s.len(),
{
    if s.len() == 0 {
        0
    } else if !spec_is_space(s.last()) {
        s.len() as int
    } else {
        trim_end_at(s.drop_last())
    }
}

pub proof fn lemma_trim_end_at(s: Seq<u8>)
    ensures
        0 <= trim_end_at(s) <= s.len(),
        forall|k: int| trim_end_at(s) <= k < s.len() ==> spec_is_space(s[k]),
        trim_end_at(s) > 0 ==> !spec_is_space(s[trim_end_at(s) - 1]),
    decreases s.len(),
{
    if s.len() > 0 && spec_is_space(s.last()) {
        lemma_trim_end_at(s.drop_last());
        assert forall|k: int| trim_end_at(s) <= k < s.len() implies spec_is_space(s[k]) by {
            if k < s.len() - 1 {
                assert(s.drop_last()[k] == s[k]);
            }
        }
        if trim_end_at(s) > 0 {
            assert(s.drop_last()[trim_end_at(s) - 1] == s[trim_end_at(s) - 1]);
        }
    }
}

pub proof fn lemma_trim_end_at_is(s: Seq<u8>, n: int)
    requires
        0 <= n <= s.len(),
        forall|k: int| n <= k < s.len() ==> spec_is_space(s[k]),
        n > 0 ==> !spec_is_space(s[n - 1]),
    ensures
        trim_end_at(s) == n,
    decreases s.len(),
{
    if s.len() > 0 && spec_is_space(s.last()) {
        assert(s.drop_last() =~= s.subrange(0, s.len() - 1));
        lemma_trim_end_at_is(s.drop_last(), n);
    }
}

/// The predicate holding of bytes that are not whitespace.
pub open spec fn non_space_pred() -> spec_fn(u8) -> bool {
    |b: u8| !spec_is_space(b)
}

/// The predicate holding exactly of the byte `t`.
pub open spec fn byte_is(t: u8) -> spec_fn(u8) -> bool {
    |b: u8| b == t
}

pub proof fn lemma_byte_is_applied(t: u8, b: u8)
    ensures
        byte_is(t)(b) == (b == t),
{
}

/// Start of the leading whitespace-free part.
pub open spec fn trim_start_at(s: Seq<u8>) -> int {
    idx_of(s, non_space_pred())
}

/// `s` with leading and trailing ASCII whitespace removed.
pub open spec fn spec_trim(s: Seq<u8>) -> Seq<u8> {
    if trim_start_at(s) >= trim_end_at(s) {
        Seq::empty()
    } else {
        s.subrange(trim_start_at(s), trim_end_at(s))
    }
}

/// `s` with trailing ASCII whitespace removed.
pub open spec fn spec_trim_end(s: Seq<u8>) -> Seq<u8> {
    s.subrange(0, trim_end_at(s))
}

pub fn trim(s: &[u8]) -> (r: &[u8])
    ensures
        r@ == spec_trim(s@),
{
    let ghost pred = non_space_pred();
    let mut a: usize = 0;
    while a < s.len() && is_space(s[a as usize])
        invariant
            0 <= a <= s@.len(),
            forall|k: int| 0 <= k < a ==> spec_is_space(s@[k]),
        decreases s@.len() - a,
    {
        a += 1;
    }
    proof {
        lemma_idx_of_is(s@, pred, a as int);
    }
    let mut b: usize = s.len();
    while b > a && is_space(s[b - 1])
        invariant
            a <= b <= s@.len(),
            forall|k: int| b <= k < s@.len() ==> spec_is_space(s@[k]),
        decreases b,
    {
        b -= 1;
    }
    if b == a {
        proof {
            if trim_start_at(s@) < trim_end_at(s@) {
                // impossible: the byte before `trim_end_at` is not
                // whitespace, yet it lies in the all-whitespace run the two
                // scans left between `a` and the end
                lemma_trim_end_at(s@);
                let e = trim_end_at(s@) - 1;
                assert(a <= e < s@.len());
                assert(spec_is_space(s@[e]));
                assert(false);
            }
            assert(spec_trim(s@) =~= Seq::<u8>::empty());
        }
        vstd::slice::slice_subrange(s, a, a)
    } else {
        proof {
            lemma_trim_end_at_is(s@, b as int);
            assert(spec_trim(s@) =~= s@.subrange(a as int, b as int));
        }
        vstd::slice::slice_subrange(s, a, b)
    }
}

pub fn trim_end(s: &[u8]) -> (r: &[u8])
    ensures
        r@ == spec_trim_end(s@),
{
    let mut b: usize = s.len();
    while b > 0 && is_space(s[b - 1])
        invariant
            0 <= b <= s@.len(),
            forall|k: int| b <= k < s@.len() ==> spec_is_space(s@[k]),
        decreases b,
    {
        b -= 1;
    }
    proof {
        lemma_trim_end_at_is(s@, b as int);
    }
    vstd::slice::slice_subrange(s, 0, b)
}

pub fn bytes_eq(a: &[u8], b: &[u8]) -> (r: bool)
    ensures
        r == (a@ == b@),
{
    if a.len() != b.len() {
        return false;
    }
    let mut i: usize = 0;
    while i < a.len()
        invariant
            0 <= i <= a@.len(),
            a@.len() == b@.len(),
            forall|k: int| 0 <= k < i ==> a@[k] == b@[k],
        decreases a@.len() - i,
    {
        if a[i] != b[i] {
            return false;
        }
        i += 1;
    }
    proof {
        assert(a@ =~= b@);
    }
    true
}

/// Whether `p` is a prefix of `s`.
pub open spec fn spec_has_prefix(s: Seq<u8>, p: Seq<u8>) -> bool {
    p.len() <= s.len() && s.subrange(0, p.len() as int) == p
}

pub fn has_prefix(s: &[u8], p: &[u8]) -> (r: bool)
    ensures
        r == spec_has_prefix(s@, p@),
{
    if p.len() > s.len() {
        return false;
    }
    let head = vstd::slice::slice_subrange(s, 0, p.len());
    bytes_eq(head, p)
}

/// Whether `p` occurs as a contiguous subsequence of `s`.
pub open spec fn spec_contains_sub(s: Seq<u8>, p: Seq<u8>) -> bool {
    exists|i: int| 0 <= i && i + p.len() <= s.len() && #[trigger] s.subrange(i, i + p.len()) == p
}

pub fn contains_sub(s: &[u8], p: &[u8]) -> (r: bool)
    ensures
        r == spec_contains_sub(s@, p@),
{
    if p.len() > s.len() {
        return false;
    }
    if p.len() == 0 {
        proof {
            assert(s@.subrange(0, 0 + p@.len() as int) =~= p@);
        }
        return true;
    }
    let last_start = s.len() - p.len();
    let mut i: usize = 0;
    while i <= last_start
        invariant
            0 <= i <= last_start + 1,
            last_start == s@.len() - p@.len(),
            0 < p@.len() <= s@.len(),
            s@.len() <= usize::MAX,
            forall|k: int| 0 <= k < i ==> #[trigger] s@.subrange(k, k + p@.len()) != p@,
        decreases last_start + 1 - i,
    {
        let window = vstd::slice::slice_subrange(s, i, i + p.len());
        if bytes_eq(window, p) {
            proof {
                assert(s@.subrange(i as int, i as int + p@.len()) == p@);
            }
            return true;
        }
        i += 1;
    }
    false
}

/// The predicate holding of whitespace bytes, for use with `idx_of`.
pub open spec fn space_pred() -> spec_fn(u8) -> bool {
    |b: u8| spec_is_space(b)
}

/// The views of a sequence of byte vectors.
pub open spec fn views_of(vs: Seq<Vec<u8>>) -> Seq<Seq<u8>> {
    vs.map_values(|v: Vec<u8>| v@)
}

/// The whitespace-separated tokens of `s`, in order, each non-empty.
pub open spec fn spec_tokens(s: Seq<u8>) -> Seq<Seq<u8>>
    decreases s.len(),
    via spec_tokens_decreases
{
    if s.len() == 0 {
        Seq::empty()
    } else if spec_is_space(s[0]) {
        spec_tokens(s.drop_first())
    } else {
        let e = idx_of(s, space_pred());
        seq![s.subrange(0, e)] + spec_tokens(s.skip(e))
    }
}

#[via_fn]
proof fn spec_tokens_decreases(s: Seq<u8>) {
    if s.len() > 0 && !spec_is_space(s[0]) {
        lemma_idx_of(s, space_pred());
        if idx_of(s, space_pred()) == 0 {
            assert(space_pred()(s[0]));
        }
    }
}

/// Splits `s` into its whitespace-separated tokens.
pub fn split_ws(s: &[u8]) -> (r: Vec<Vec<u8>>)
    ensures
        views_of(r@) == spec_tokens(s@),
{
    let mut toks: Vec<Vec<u8>> = Vec::new();
    let mut i: usize = 0;
    proof {
        assert(s@.skip(0) =~= s@);
        assert(views_of(toks@) + spec_tokens(s@) =~= spec_tokens(s@));
    }
    while i < s.len()
        invariant
            0 <= i <= s@.len(),
            spec_tokens(s@) == views_of(toks@) + spec_tokens(s@.skip(i as int)),
        decreases s@.len() - i,
    {
        if is_space(s[i]) {
            proof {
                assert(s@.skip(i as int).drop_first() =~= s@.skip(i + 1));
            }
            i += 1;
        } else {
            let start = i;
            let mut j: usize = i + 1;
            while j < s.len() && !is_space(s[j])
                invariant
                    0 <= start < j <= s@.len(),
                    forall|k: int| start <= k < j ==> !spec_is_space(s@[k]),
                    !spec_is_space(s@[start as int]),
                decreases s@.len() - j,
            {
                j += 1;
            }
            let token = vstd::slice::slice_to_vec(vstd::slice::slice_subrange(s, start, j));
            proof {
                let t = s@.skip(start as int);
                let e = j - start;
                assert forall|k: int| 0 <= k < e implies !(space_pred()(t[k])) by {
                    assert(t[k] == s@[start + k]);
                }
                if e < t.len() {
                    assert(t[e as int] == s@[j as int]);
                }
                lemma_idx_of_is(t, space_pred(), e as int);
                assert(t.subrange(0, e as int) =~= s@.subrange(start as int, j as int));
                assert(t.skip(e as int) =~= s@.skip(j as int));
                assert(spec_tokens(t) == seq![token@] + spec_tokens(s@.skip(j as int)));
                assert(views_of(toks@.push(token)) =~= views_of(toks@).push(token@));
                assert(views_of(toks@) + spec_tokens(t) =~= views_of(toks@.push(token))
                    + spec_tokens(s@.skip(j as int)));
            }
            toks.push(token);
            i = j;
        }
    }
    proof {
        assert(s@.skip(i as int) =~= Seq::<u8>::empty());
        assert(views_of(toks@) + spec_tokens(s@.skip(i as int)) =~= views_of(toks@));
    }
    toks
}

/// A line as `str::lines` yields it: if the segment before the separator
/// ends in a carriage return, that byte is removed.
pub open spec fn strip_cr(l: Seq<u8>) -> Seq<u8> {
    if l.len() > 0 && l.last() == 0x0du8 {
        l.drop_last()
    } else {
        l
    }
}

/// The lines of `s`, split at line feeds, with a carriage return before
/// each line feed removed and no empty line after a final line feed.
pub open spec fn spec_lines(s: Seq<u8>) -> Seq<Seq<u8>>
    decreases s.len(),
    via spec_lines_decreases
{
    if s.len() == 0 {
        Seq::empty()
    } else {
        let e = idx_of(s, byte_is(0x0au8));
        if e == s.len() {
            seq![s]
        } else {
            seq![strip_cr(s.subrange(0, e))] + spec_lines(s.skip(e + 1))
        }
    }
}

#[via_fn]
proof fn spec_lines_decreases(s: Seq<u8>) {
    if s.len() > 0 {
        lemma_idx_of(s, byte_is(0x0au8));
    }
}

/// Splits `s` into lines.
pub fn split_lines(s: &[u8]) -> (r: Vec<Vec<u8>>)
    ensures
        views_of(r@) == spec_lines(s@),
{
    let mut out: Vec<Vec<u8>> = Vec::new();
    let mut i: usize = 0;
    proof {
        assert(s@.skip(0) =~= s@);
        assert(views_of(out@) + spec_lines(s@) =~= spec_lines(s@));
    }
    while i < s.len()
        invariant
            0 <= i <= s@.len(),
            spec_lines(s@) == views_of(out@) + spec_lines(s@.skip(i as int)),
        decreases s@.len() - i,
    {
        let start = i;
        let mut j: usize = i;
        while j < s.len() && s[j] != 0x0a
            invariant
                0 <= start <= j <= s@.len(),
                forall|k: int| start <= k < j ==> s@[k] != 0x0au8,
            decreases s@.len() - j,
        {
            j += 1;
        }
        proof {
            let t = s@.skip(start as int);
            let e = j - start;
            assert forall|k: int| 0 <= k < e implies !(byte_is(0x0au8)(t[k])) by {
                lemma_byte_is_applied(0x0au8, t[k]);
                assert(t[k] == s@[start + k]);
            }
            if e < t.len() {
                lemma_byte_is_applied(0x0au8, t[e as int]);
                assert(t[e as int] == s@[j as int]);
            }
            lemma_idx_of_is(t, byte_is(0x0au8), e as int);
        }
        if j < s.len() {
            let end = if j > start && s[j - 1] == 0x0d {
                j - 1
            } else {
                j
            };
            let line = vstd::slice::slice_to_vec(vstd::slice::slice_subrange(s, start, end));
            proof {
                let t = s@.skip(start as int);
                let e = j - start;
                assert(t.subrange(0, e as int) =~= s@.subrange(start as int, j as int));
                if j > start && s@[j - 1] == 0x0du8 {
                    assert(strip_cr(t.subrange(0, e as int)) =~= s@.subrange(
                        start as int,
                        j - 1,
                    ));
                } else {
                    assert(strip_cr(t.subrange(0, e as int)) =~= s@.subrange(
                        start as int,
                        j as int,
                    ));
                }
                assert(strip_cr(t.subrange(0, e as int)) == line@);
                assert(t.skip(e + 1) =~= s@.skip(j + 1));
                assert(spec_lines(t) == seq![line@] + spec_lines(s@.skip(j + 1)));
                assert(views_of(out@.push(line)) =~= views_of(out@).push(line@));
                assert(views_of(out@) + spec_lines(t) =~= views_of(out@.push(line))
                    + spec_lines(s@.skip(j + 1)));
            }
            out.push(line);
            i = j + 1;
        } else {
            let line = vstd::slice::slice_to_vec(vstd::slice::slice_subrange(s, start, j));
            proof {
                let t = s@.skip(start as int);
                assert(t =~= s@.subrange(start as int, j as int));
                assert(spec_lines(t) == seq![line@]);
                assert(views_of(out@.push(line)) =~= views_of(out@).push(line@));
                assert(s@.skip(j as int) =~= Seq::<u8>::empty());
                assert(views_of(out@) + spec_lines(t) =~= views_of(out@.push(line))
                    + spec_lines(s@.skip(j as int)));
            }
            out.push(line);
            i = j;
        }
    }
    proof {
        assert(s@.skip(i as int) =~= Seq::<u8>::empty());
        assert(views_of(out@) + spec_lines(s@.skip(i as int)) =~= views_of(out@));
    }
    out
}

/// Whether `value` occurs among the byte vectors of `list`.
pub fn contains_bytes(list: &Vec<Vec<u8>>, value: &[u8]) -> (r: bool)
    ensures
        r == views_of(list@).contains(value@),
{
    let ghost lv = views_of(list@);
    let mut i: usize = 0;
    while i < list.len()
        invariant
            0 <= i <= list@.len(),
            lv == views_of(list@),
            forall|j: int| 0 <= j < i ==> lv[j] != value@,
        decreases list@.len() - i,
    {
        proof {
            assert(lv[i as int] == list@[i as int]@);
        }
        if bytes_eq(list[i].as_slice(), value) {
            return true;
        }
        i += 1;
    }
    proof {
        if lv.contains(value@) {
            let j = choose|j: int| 0 <= j < lv.len() && lv[j] == value@;
            assert(lv[j] != value@);
        }
    }
    false
}

/// What one byte becomes under multi-line escaping: backslashes are
/// doubled and line feeds become a backslash and an `n`.
pub open spec fn spec_escape_byte(b: u8) -> Seq<u8> {
    if b == 0x5cu8 {
        seq![0x5cu8, 0x5cu8]
    } else if b == 0x0au8 {
        seq![0x5cu8, 0x6eu8]
    } else {
        seq![b]
    }
}

pub open spec fn spec_escape(s: Seq<u8>) -> Seq<u8>
    decreases s.len(),
{
    if s.len() == 0 {
        Seq::empty()
    } else {
        spec_escape_byte(s[0]) + spec_escape(s.drop_first())
    }
}

/// Escapes text into a single line: `\` becomes `\\`, a line feed `\n`.
pub fn escape_multiline(text: &[u8]) -> (r: Vec<u8>)
    ensures
        r@ == spec_escape(text@),
{
    let mut out: Vec<u8> = Vec::new();
    let mut i: usize = 0;
    proof {
        assert(text@.skip(0) =~= text@);
        assert(out@ + spec_escape(text@) =~= spec_escape(text@));
    }
    while i < text.len()
        invariant
            0 <= i <= text@.len(),
            spec_escape(text@) == out@ + spec_escape(text@.skip(i as int)),
        decreases text@.len() - i,
    {
        let b = text[i];
        proof {
            let rest = text@.skip(i as int);
            assert(rest[0] == text@[i as int]);
            assert(rest.drop_first() =~= text@.skip(i + 1));
            if b == 0x5cu8 {
                assert(out@.push(0x5cu8).push(0x5cu8) + spec_escape(text@.skip(i + 1)) =~= out@
                    + spec_escape(rest));
            } else if b == 0x0au8 {
                assert(out@.push(0x5cu8).push(0x6eu8) + spec_escape(text@.skip(i + 1)) =~= out@
                    + spec_escape(rest));
            } else {
                assert(out@.push(b) + spec_escape(text@.skip(i + 1)) =~= out@ + spec_escape(
                    rest,
                ));
            }
        }
        if b == 0x5c {
            out.push(0x5c);
            out.push(0x5c);
        } else if b == 0x0a {
            out.push(0x5c);
            out.push(0x6e);
        } else {
            out.push(b);
        }
        i += 1;
    }
    proof {
        assert(text@.skip(text@.len() as int) =~= Seq::<u8>::empty());
        assert(out@ + spec_escape(text@.skip(text@.len() as int)) =~= out@);
    }
    out
}

/// The lines joined with single line feeds, no trailing one.
pub open spec fn spec_join_lines(ls: Seq<Seq<u8>>) -> Seq<u8>
    decreases ls.len(),
{
    if ls.len() == 0 {
        Seq::empty()
    } else if ls.len() == 1 {
        ls[0]
    } else {
        spec_join_lines(ls.drop_last()) + seq![0x0au8] + ls.last()
    }
}

/// Joins lines with line feeds.
pub fn join_lines(lines: &Vec<Vec<u8>>) -> (r: Vec<u8>)
    ensures
        r@ == spec_join_lines(views_of(lines@)),
{
    let ghost vl = views_of(lines@);
    let mut out: Vec<u8> = Vec::new();
    let mut i: usize = 0;
    proof {
        assert(vl.subrange(0, 0) =~= Seq::<Seq<u8>>::empty());
    }
    while i < lines.len()
        invariant
            0 <= i <= lines@.len(),
            vl == views_of(lines@),
            out@ == spec_join_lines(vl.subrange(0, i as int)),
        decreases lines@.len() - i,
    {
        let ghost before = out@;
        if i > 0 {
            out.push(0x0a);
        }
        out.extend_from_slice(lines[i].as_slice());
        proof {
            let upto = vl.subrange(0, i + 1);
            assert(upto.drop_last() =~= vl.subrange(0, i as int));
            assert(upto.last() == vl[i as int]);
            assert(vl[i as int] == lines@[i as int]@);
            if i == 0 {
                assert(out@ =~= spec_join_lines(upto));
            } else {
                assert(out@ =~= spec_join_lines(upto.drop_last()) + seq![0x0au8]
                    + upto.last());
            }
        }
        i += 1;
    }
    proof {
        assert(vl.subrange(0, vl.len() as int) =~= vl);
    }
    out
}

/// Index of the first occurrence of byte `t` in `s`, if any.
pub fn find_byte(s: &[u8], t: u8) -> (r: Option<usize>)
    ensures
        match r {
            Some(i) => i == idx_of(s@, byte_is(t)) && i < s@.len() && s@[i as int] == t,
            None => idx_of(s@, byte_is(t)) == s@.len(),
        },
{
    let mut i: usize = 0;
    while i < s.len()
        invariant
            0 <= i <= s@.len(),
            forall|k: int| 0 <= k < i ==> s@[k] != t,
        decreases s@.len() - i,
    {
        if s[i] == t {
            proof {
                assert forall|k: int| 0 <= k < i implies !(byte_is(t)(s@[k])) by {
                    lemma_byte_is_applied(t, s@[k]);
                }
                lemma_byte_is_applied(t, s@[i as int]);
                lemma_idx_of_is(s@, byte_is(t), i as int);
            }
            return Some(i);
        }
        i += 1;
    }
    proof {
        assert forall|k: int| 0 <= k < s@.len() implies !(byte_is(t)(s@[k])) by {
            lemma_byte_is_applied(t, s@[k]);
        }
        lemma_idx_of_is(s@, byte_is(t), s@.len() as int);
    }
    None
}

} // verus!
