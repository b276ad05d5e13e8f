//! Section segmenter: splits the verbose diagnostic text into ordered
//! per-display sections. A header line closes any open section and opens a
//! new one seeded with that line; other lines belong to the open section,
//! or to no section at all before the first header.
use crate::header::{
    opt_view, parse_header, spec_first_geometry, spec_has_primary, spec_header_matches,
    spec_is_header, DisplayState, HeaderInfo,
};
use crate::text::{bytes_eq, split_lines, spec_lines, spec_tokens, views_of};
use vstd::prelude::*;

verus! {

/// One per-display section of the source text.
pub struct DisplaySection {
    pub name: Vec<u8>,
    pub state: DisplayState,
    pub primary: bool,
    pub geometry: Option<Vec<u8>>,
    /// All raw lines of the section, the header line first.
    pub lines: Vec<Vec<u8>>,
}

/// The mathematical shape of a section.
#[verifier::ext_equal]
pub ghost struct SectionModel {
    pub name: Seq<u8>,
    pub state: DisplayState,
    pub primary: bool,
    pub geometry: Option<Seq<u8>>,
    pub lines: Seq<Seq<u8>>,
}

impl View for DisplaySection {
    type V = SectionModel;

    open spec fn view(&self) -> SectionModel {
        SectionModel {
            name: self.name@,
            state: self.state,
            primary: self.primary,
            geometry: opt_view(self.geometry),
            lines: views_of(self.lines@),
        }
    }
}

/// The views of a sequence of sections.
pub open spec fn section_views(ss: Seq<DisplaySection>) -> Seq<SectionModel> {
    ss.map_values(|s: DisplaySection| s@)
}

/// The section a header line opens, seeded with that line.
pub open spec fn spec_header_section(line: Seq<u8>) -> SectionModel {
    let toks = spec_tokens(line);
    SectionModel {
        name: toks[0],
        state: if toks[1] == crate::text::ascii_of("connected"@) {
            DisplayState::Connected
        } else {
            DisplayState::Disconnected
        },
        primary: spec_has_primary(toks),
        geometry: spec_first_geometry(toks, 2),
        lines: seq![line],
    }
}

pub open spec fn spec_section_with_line(s: SectionModel, line: Seq<u8>) -> SectionModel {
    SectionModel { lines: s.lines.push(line), ..s }
}

pub open spec fn opt_emit(cur: Option<SectionModel>) -> Seq<SectionModel> {
    match cur {
        Some(c) => seq![c],
        None => Seq::empty(),
    }
}

/// Segments `ls` with `cur` the open section carried in.
pub open spec fn spec_segment(ls: Seq<Seq<u8>>, cur: Option<SectionModel>) -> Seq<SectionModel>
    decreases ls.len(),
{
    if ls.len() == 0 {
        opt_emit(cur)
    } else if spec_is_header(ls[0]) {
        opt_emit(cur) + spec_segment(ls.drop_first(), Some(spec_header_section(ls[0])))
    } else {
        match cur {
            Some(c) => spec_segment(ls.drop_first(), Some(spec_section_with_line(c, ls[0]))),
            None => spec_segment(ls.drop_first(), None),
        }
    }
}

/// The ordered sections of the whole verbose text.
pub open spec fn spec_sections(text: Seq<u8>) -> Seq<SectionModel> {
    spec_segment(spec_lines(text), None)
}

pub open spec fn opt_section_view(o: Option<DisplaySection>) -> Option<SectionModel> {
    match o {
        Some(s) => Some(s@),
        None => None,
    }
}

/// Splits the verbose text into its ordered per-display sections.
pub fn parse_sections(verbose: &[u8]) -> (r: Vec<DisplaySection>)
    ensures
        section_views(r@) == spec_sections(verbose@),
{
    let lines = split_lines(verbose);
    let ghost lv = spec_lines(verbose@);
    let mut sections: Vec<DisplaySection> = Vec::new();
    let mut current: Option<DisplaySection> = None;
    let mut i: usize = 0;
    proof {
        assert(lv.skip(0) =~= lv);
        assert(section_views(sections@) + spec_segment(lv, None) =~= spec_segment(lv, None));
    }
    while i < lines.len()
        invariant
            0 <= i <= lines@.len(),
            views_of(lines@) == lv,
            spec_segment(lv, None) == section_views(sections@) + spec_segment(
                lv.skip(i as int),
                opt_section_view(current),
            ),
        decreases lines@.len() - i,
    {
        let ghost rest = lv.skip(i as int);
        proof {
            assert(rest[0] == lv[i as int]);
            assert(lv[i as int] == lines@[i as int]@);
            assert(rest.drop_first() =~= lv.skip(i + 1));
        }
        match parse_header(lines[i].as_slice()) {
            Some(h) => {
                let ghost old_secs = sections@;
                let ghost old_cur = opt_section_view(current);
                let prev = current;
                match prev {
                    Some(done) => {
                        sections.push(done);
                    },
                    None => {},
                }
                let mut seed: Vec<Vec<u8>> = Vec::new();
                seed.push(vstd::slice::slice_to_vec(lines[i].as_slice()));
                let sec = DisplaySection {
                    name: h.name,
                    state: h.state,
                    primary: h.primary,
                    geometry: h.geometry,
                    lines: seed,
                };
                proof {
                    assert(views_of(sec.lines@) =~= seq![lv[i as int]]);
                    assert(sec@ =~= spec_header_section(lv[i as int]));
                    assert(spec_segment(rest, old_cur) == opt_emit(old_cur) + spec_segment(
                        lv.skip(i + 1),
                        Some(sec@),
                    ));
                    match old_cur {
                        Some(c) => {
                            assert(section_views(sections@) =~= section_views(old_secs).push(
                                c,
                            ));
                            assert(section_views(old_secs) + (opt_emit(old_cur)
                                + spec_segment(lv.skip(i + 1), Some(sec@))) =~= section_views(
                                sections@,
                            ) + spec_segment(lv.skip(i + 1), Some(sec@)));
                        },
                        None => {
                            assert(section_views(old_secs) + (opt_emit(old_cur)
                                + spec_segment(lv.skip(i + 1), Some(sec@))) =~= section_views(
                                sections@,
                            ) + spec_segment(lv.skip(i + 1), Some(sec@)));
                        },
                    }
                }
                current = Some(sec);
            },
            None => {
                current = match current {
                    Some(mut sec) => {
                        let ghost before = sec@;
                        sec.lines.push(vstd::slice::slice_to_vec(lines[i].as_slice()));
                        proof {
                            assert(views_of(sec.lines@) =~= before.lines.push(lv[i as int]));
                            assert(sec@ =~= spec_section_with_line(before, lv[i as int]));
                        }
                        Some(sec)
                    },
                    None => None,
                };
            },
        }
        i += 1;
    }
    proof {
        assert(lv.skip(lv.len() as int) =~= Seq::<Seq<u8>>::empty());
    }
    match current {
        Some(sec) => {
            proof {
                assert(section_views(sections@.push(sec)) =~= section_views(sections@).push(
                    sec@,
                ));
                assert(section_views(sections@) + opt_emit(Some(sec@)) =~= section_views(
                    sections@.push(sec),
                ));
            }
            sections.push(sec);
        },
        None => {
            proof {
                assert(section_views(sections@) + opt_emit(None) =~= section_views(sections@));
            }
        },
    }
    sections
}

/// A section as the segmenter shapes it: its first line is its header
/// line, and its fields are exactly what that header line says.
pub open spec fn section_wf(m: SectionModel) -> bool {
    let toks = spec_tokens(m.lines[0]);
    &&& m.lines.len() >= 1
    &&& spec_is_header(m.lines[0])
    &&& m.name == toks[0]
    &&& m.state == (if toks[1] == crate::text::ascii_of("connected"@) {
        DisplayState::Connected
    } else {
        DisplayState::Disconnected
    })
    &&& m.primary == spec_has_primary(toks)
    &&& m.geometry == spec_first_geometry(toks, 2)
}

proof fn lemma_segment_wf(ls: Seq<Seq<u8>>, cur: Option<SectionModel>)
    requires
        cur matches Some(c) ==> section_wf(c),
    ensures
        forall|i: int|
            0 <= i < spec_segment(ls, cur).len() ==> section_wf(
                #[trigger] spec_segment(ls, cur)[i],
            ),
    decreases ls.len(),
{
    if ls.len() == 0 {
        assert forall|i: int|
            0 <= i < spec_segment(ls, cur).len() implies section_wf(
            #[trigger] spec_segment(ls, cur)[i],
        ) by {
            assert(spec_segment(ls, cur) == opt_emit(cur));
            assert(spec_segment(ls, cur)[i] == cur->Some_0);
        }
    } else if spec_is_header(ls[0]) {
        let opened = spec_header_section(ls[0]);
        assert(opened.lines[0] == ls[0]);
        assert(section_wf(opened));
        lemma_segment_wf(ls.drop_first(), Some(opened));
        let rest = spec_segment(ls.drop_first(), Some(opened));
        assert forall|i: int|
            0 <= i < spec_segment(ls, cur).len() implies section_wf(
            #[trigger] spec_segment(ls, cur)[i],
        ) by {
            if i >= opt_emit(cur).len() {
                assert(spec_segment(ls, cur)[i] == rest[i - opt_emit(cur).len()]);
            } else {
                assert(spec_segment(ls, cur)[i] == cur->Some_0);
            }
        }
    } else {
        match cur {
            Some(c) => {
                let grown = spec_section_with_line(c, ls[0]);
                assert(grown.lines[0] == c.lines[0]);
                assert(section_wf(grown));
                lemma_segment_wf(ls.drop_first(), Some(grown));
                assert forall|i: int|
                    0 <= i < spec_segment(ls, cur).len() implies section_wf(
                    #[trigger] spec_segment(ls, cur)[i],
                ) by {
                    assert(spec_segment(ls, cur) == spec_segment(ls.drop_first(), Some(grown)));
                    assert(section_wf(spec_segment(ls.drop_first(), Some(grown))[i]));
                }
            },
            None => {
                lemma_segment_wf(ls.drop_first(), None);
                assert forall|i: int|
                    0 <= i < spec_segment(ls, cur).len() implies section_wf(
                    #[trigger] spec_segment(ls, cur)[i],
                ) by {
                    assert(spec_segment(ls, cur) == spec_segment(ls.drop_first(), None));
                    assert(section_wf(spec_segment(ls.drop_first(), None)[i]));
                }
            },
        }
    }
}

/// Law: every section the segmenter yields carries its header line as
/// its first line, and its name, state, primary flag and geometry are
/// exactly those of that header line.
pub proof fn lemma_sections_well_formed(text: Seq<u8>)
    ensures
        forall|i: int|
            0 <= i < spec_sections(text).len() ==> section_wf(#[trigger] spec_sections(text)[i]),
{
    lemma_segment_wf(spec_lines(text), None);
}

proof fn lemma_segment_no_header(ls: Seq<Seq<u8>>)
    requires
        forall|i: int| 0 <= i < ls.len() ==> !spec_is_header(#[trigger] ls[i]),
    ensures
        spec_segment(ls, None) == Seq::<SectionModel>::empty(),
    decreases ls.len(),
{
    if ls.len() > 0 {
        assert forall|i: int| 0 <= i < ls.drop_first().len() implies !spec_is_header(
            #[trigger] ls.drop_first()[i],
        ) by {
            assert(ls.drop_first()[i] == ls[i + 1]);
        }
        lemma_segment_no_header(ls.drop_first());
    }
}

/// Law: text without a header line segments into no sections at all.
pub proof fn lemma_no_header_no_sections(text: Seq<u8>)
    requires
        forall|i: int|
            0 <= i < spec_lines(text).len() ==> !spec_is_header(#[trigger] spec_lines(text)[i]),
    ensures
        spec_sections(text) == Seq::<SectionModel>::empty(),
{
    lemma_segment_no_header(spec_lines(text));
}

/// The first section whose name matches, scanning front to back.
pub open spec fn spec_find_section(ss: Seq<SectionModel>, name: Seq<u8>) -> Option<SectionModel>
    decreases ss.len(),
{
    if ss.len() == 0 {
        None
    } else if ss[0].name == name {
        Some(ss[0])
    } else {
        spec_find_section(ss.drop_first(), name)
    }
}

/// Looks a display up by name; the first matching section wins.
pub fn find_section<'a>(sections: &'a Vec<DisplaySection>, name: &[u8]) -> (r: Option<
    &'a DisplaySection,
>)
    ensures
        match r {
            Some(sec) => spec_find_section(section_views(sections@), name@) == Some(sec@),
            None => spec_find_section(section_views(sections@), name@) is None,
        },
{
    let ghost ms = section_views(sections@);
    let mut i: usize = 0;
    proof {
        assert(ms.skip(0) =~= ms);
    }
    while i < sections.len()
        invariant
            0 <= i <= sections@.len(),
            ms == section_views(sections@),
            spec_find_section(ms, name@) == spec_find_section(ms.skip(i as int), name@),
        decreases sections@.len() - i,
    {
        proof {
            assert(ms.skip(i as int)[0] == ms[i as int]);
            assert(ms[i as int] == sections@[i as int]@);
            assert(ms.skip(i as int).drop_first() =~= ms.skip(i + 1));
        }
        if bytes_eq(sections[i].name.as_slice(), name) {
            return Some(&sections[i]);
        }
        i += 1;
    }
    proof {
        assert(ms.skip(ms.len() as int) =~= Seq::<SectionModel>::empty());
    }
    None
}

} // verus!
