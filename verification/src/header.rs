//! Header line parser: a line opens a display section when its first token
//! names a display and its second token is exactly `connected` or
//! `disconnected`. The remaining tokens may carry a `primary` flag and a
//! geometry token; unknown tokens are ignored.
use crate::geometry::{is_geometry_token, spec_is_geometry};
use crate::text::{ascii_bytes, ascii_of, bytes_eq, split_ws, spec_tokens, views_of};
use vstd::prelude::*;

verus! {

#[derive(Clone, Copy, PartialEq, Eq, Structural, Debug)]
pub enum DisplayState {
    Connected,
    Disconnected,
}

impl DisplayState {
    /// The state word as it appears in the source text.
    pub fn as_str(self) -> (r: &'static str)
        ensures
            r@ == spec_state_chars(self),
    {
        match self {
            DisplayState::Connected => "connected",
            DisplayState::Disconnected => "disconnected",
        }
    }

    /// The state word as bytes.
    pub fn as_word(self) -> (r: Vec<u8>)
        ensures
            r@ == spec_state_word(self),
    {
        match self {
            DisplayState::Connected => word_connected(),
            DisplayState::Disconnected => word_disconnected(),
        }
    }
}

pub open spec fn spec_state_chars(state: DisplayState) -> Seq<char> {
    match state {
        DisplayState::Connected => "connected"@,
        DisplayState::Disconnected => "disconnected"@,
    }
}

pub open spec fn spec_state_word(state: DisplayState) -> Seq<u8> {
    ascii_of(spec_state_chars(state))
}

/// Ephemeral result of parsing one header line.
pub struct HeaderInfo {
    pub name: Vec<u8>,
    pub state: DisplayState,
    pub primary: bool,
    pub geometry: Option<Vec<u8>>,
}

/// The view of an optional byte vector.
pub open spec fn opt_view(o: Option<Vec<u8>>) -> Option<Seq<u8>> {
    match o {
        Some(v) => Some(v@),
        None => None,
    }
}

/// Whether the tokens after the state word contain the literal `primary`.
pub open spec fn spec_has_primary(toks: Seq<Seq<u8>>) -> bool {
    exists|m: int| 2 <= m < toks.len() && #[trigger] toks[m] == ascii_of("primary"@)
}

/// The first geometry-shaped token at or after `from`, if any.
pub open spec fn spec_first_geometry(toks: Seq<Seq<u8>>, from: int) -> Option<Seq<u8>>
    decreases toks.len() - from,
{
    if from < 0 || from >= toks.len() {
        None
    } else if spec_is_geometry(toks[from]) {
        Some(toks[from])
    } else {
        spec_first_geometry(toks, from + 1)
    }
}

proof fn lemma_first_geometry_none_upto(toks: Seq<Seq<u8>>, from: int, upto: int)
    requires
        0 <= from <= upto <= toks.len(),
        forall|m: int| from <= m < upto ==> !spec_is_geometry(#[trigger] toks[m]),
    ensures
        spec_first_geometry(toks, from) == spec_first_geometry(toks, upto),
    decreases upto - from,
{
    if from < upto {
        lemma_first_geometry_none_upto(toks, from + 1, upto);
    }
}

/// The literal `primary` is not geometry-shaped: it starts with no digit.
proof fn lemma_primary_not_geometry()
    ensures
        !spec_is_geometry(ascii_of("primary"@)),
{
    reveal_strlit("primary");
    let t = ascii_of("primary"@);
    assert forall|i: int, j: int, k: int| !crate::geometry::geometry_split(t, i, j, k) by {
        if crate::geometry::geometry_split(t, i, j, k) {
            assert(t.subrange(0, i)[0] == t[0]);
            assert(crate::geometry::spec_is_digit(t[0]));
        }
    }
}

fn word_connected() -> (v: Vec<u8>)
    ensures
        v@ == ascii_of("connected"@),
{
    proof {
        reveal_strlit("connected");
        assert(vstd::string::is_ascii("connected"));
    }
    ascii_bytes("connected")
}

fn word_disconnected() -> (v: Vec<u8>)
    ensures
        v@ == ascii_of("disconnected"@),
{
    proof {
        reveal_strlit("disconnected");
        assert(vstd::string::is_ascii("disconnected"));
    }
    ascii_bytes("disconnected")
}

fn word_primary() -> (v: Vec<u8>)
    ensures
        v@ == ascii_of("primary"@),
{
    proof {
        reveal_strlit("primary");
        assert(vstd::string::is_ascii("primary"));
    }
    ascii_bytes("primary")
}

/// What `parse_header` promises of a returned header, over the line's
/// whitespace-separated tokens.
pub open spec fn spec_header_matches(h: HeaderInfo, toks: Seq<Seq<u8>>) -> bool {
    &&& toks.len() >= 2
    &&& h.name@ == toks[0]
    &&& (toks[1] == ascii_of("connected"@) || toks[1] == ascii_of("disconnected"@))
    &&& h.state == (if toks[1] == ascii_of("connected"@) {
        DisplayState::Connected
    } else {
        DisplayState::Disconnected
    })
    &&& h.primary == spec_has_primary(toks)
    &&& opt_view(h.geometry) == spec_first_geometry(toks, 2)
}

/// Whether a line is a header line at all.
pub open spec fn spec_is_header(line: Seq<u8>) -> bool {
    let toks = spec_tokens(line);
    toks.len() >= 2 && (toks[1] == ascii_of("connected"@) || toks[1] == ascii_of(
        "disconnected"@,
    ))
}

/// Parses one line as a section header: first token the display name,
/// second token exactly `connected` or `disconnected`, then an optional
/// `primary` flag and the first geometry-shaped token; all other tokens
/// are ignored. A line that does not fit is not an error, merely no header.
pub fn parse_header(line: &[u8]) -> (r: Option<HeaderInfo>)
    ensures
        match r {
            Some(h) => spec_is_header(line@) && spec_header_matches(h, spec_tokens(line@)),
            None => !spec_is_header(line@),
        },
{
    let toks = split_ws(line);
    let ghost tv = spec_tokens(line@);
    if toks.len() < 2 {
        return None;
    }
    let connected = word_connected();
    let disconnected = word_disconnected();
    let state = if bytes_eq(toks[1].as_slice(), connected.as_slice()) {
        DisplayState::Connected
    } else if bytes_eq(toks[1].as_slice(), disconnected.as_slice()) {
        DisplayState::Disconnected
    } else {
        proof {
            assert(toks@[1]@ == tv[1]);
        }
        return None;
    };
    let name = vstd::slice::slice_to_vec(toks[0].as_slice());
    let primary_w = word_primary();
    let mut primary = false;
    let mut geometry: Option<Vec<u8>> = None;
    let mut k: usize = 2;
    proof {
        assert(views_of(toks@) == tv);
        assert(tv[0] == toks@[0]@);
        assert(tv[1] == toks@[1]@);
    }
    while k < toks.len()
        invariant
            2 <= k <= toks@.len(),
            views_of(toks@) == tv,
            primary_w@ == ascii_of("primary"@),
            primary == exists|m: int| 2 <= m < k && #[trigger] tv[m] == ascii_of("primary"@),
            geometry is None ==> forall|m: int| 2 <= m < k ==> !spec_is_geometry(
                #[trigger] tv[m],
            ),
            geometry matches Some(g) ==> Some(g@) == spec_first_geometry(tv, 2),
        decreases toks@.len() - k,
    {
        proof {
            assert(tv[k as int] == toks@[k as int]@);
        }
        let is_primary_tok = bytes_eq(toks[k].as_slice(), primary_w.as_slice());
        if is_primary_tok {
            primary = true;
            proof {
                lemma_primary_not_geometry();
                assert(tv[k as int] == ascii_of("primary"@));
            }
        } else if geometry.is_none() && is_geometry_token(toks[k].as_slice()) {
            let g = vstd::slice::slice_to_vec(toks[k].as_slice());
            proof {
                lemma_first_geometry_none_upto(tv, 2, k as int);
                assert(spec_first_geometry(tv, k as int) == Some(tv[k as int]));
            }
            geometry = Some(g);
        }
        k += 1;
    }
    proof {
        if geometry is None {
            lemma_first_geometry_none_upto(tv, 2, tv.len() as int);
        }
    }
    Some(
        HeaderInfo {
            name,
            state,
            primary,
            geometry,
        },
    )
}

} // verus!
