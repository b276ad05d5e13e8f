//! Per-display queries and the entry lists behind the map-style
//! listings: each reader finds a section by name and extracts one field,
//! with the lookup and field errors the dispatch reports.
use crate::extract::{extract_connector_id, extract_edid_hex, spec_connector_id, spec_extract_edid};
use crate::header::DisplayState;
use crate::monitors::MonitorMap;
use crate::policy::pair_views;
use crate::sections::{section_views, spec_find_section, DisplaySection, SectionModel};
use crate::text::{
    ascii_bytes, ascii_of, escape_multiline, join_lines, spec_escape, spec_join_lines, views_of,
};
use vstd::prelude::*;

verus! {

#[derive(Clone, Copy, PartialEq, Eq, Structural, Debug)]
pub enum QueryError {
    /// No section has the requested name.
    DisplayNotFound,
    /// The display exists but is not connected.
    DisplayNotConnected,
    /// The display exists but lacks the requested field.
    FieldMissing,
    /// The display exists but its section text is empty.
    SectionEmpty,
}

/// The connection state of a display.
pub fn display_connected(sections: &Vec<DisplaySection>, name: &[u8]) -> (r: Result<
    DisplayState,
    QueryError,
>)
    ensures
        match r {
            Ok(state) => spec_find_section(section_views(sections@), name@) matches Some(m)
                && state == m.state,
            Err(QueryError::DisplayNotFound) => spec_find_section(
                section_views(sections@),
                name@,
            ) is None,
            Err(_) => false,
        },
{
    match crate::sections::find_section(sections, name) {
        Some(sec) => Ok(sec.state),
        None => Err(QueryError::DisplayNotFound),
    }
}

/// The full text of a display's section, its lines joined by line feeds;
/// an empty text is an error of its own.
pub fn display_section_text(sections: &Vec<DisplaySection>, name: &[u8]) -> (r: Result<
    Vec<u8>,
    QueryError,
>)
    ensures
        match r {
            Ok(text) => spec_find_section(section_views(sections@), name@) matches Some(m)
                && text@ == spec_join_lines(m.lines) && text@.len() > 0,
            Err(QueryError::DisplayNotFound) => spec_find_section(
                section_views(sections@),
                name@,
            ) is None,
            Err(QueryError::SectionEmpty) => spec_find_section(
                section_views(sections@),
                name@,
            ) matches Some(m) && spec_join_lines(m.lines).len() == 0,
            Err(_) => false,
        },
{
    match crate::sections::find_section(sections, name) {
        Some(sec) => {
            let text = join_lines(&sec.lines);
            if text.len() == 0 {
                Err(QueryError::SectionEmpty)
            } else {
                Ok(text)
            }
        },
        None => Err(QueryError::DisplayNotFound),
    }
}

/// The EDID hex blob of a display.
pub fn display_edid(sections: &Vec<DisplaySection>, name: &[u8]) -> (r: Result<
    Vec<u8>,
    QueryError,
>)
    ensures
        match r {
            Ok(hex) => spec_find_section(section_views(sections@), name@) matches Some(m)
                && spec_extract_edid(m.lines) == Some(hex@),
            Err(QueryError::DisplayNotFound) => spec_find_section(
                section_views(sections@),
                name@,
            ) is None,
            Err(QueryError::FieldMissing) => spec_find_section(
                section_views(sections@),
                name@,
            ) matches Some(m) && spec_extract_edid(m.lines) is None,
            Err(_) => false,
        },
{
    match crate::sections::find_section(sections, name) {
        Some(sec) => match extract_edid_hex(sec) {
            Some(hex) => Ok(hex),
            None => Err(QueryError::FieldMissing),
        },
        None => Err(QueryError::DisplayNotFound),
    }
}

/// The geometry of a connected display.
pub fn display_geometry(sections: &Vec<DisplaySection>, name: &[u8]) -> (r: Result<
    Vec<u8>,
    QueryError,
>)
    ensures
        match r {
            Ok(g) => spec_find_section(section_views(sections@), name@) matches Some(m)
                && m.state == DisplayState::Connected && m.geometry == Some(g@),
            Err(QueryError::DisplayNotFound) => spec_find_section(
                section_views(sections@),
                name@,
            ) is None,
            Err(QueryError::DisplayNotConnected) => spec_find_section(
                section_views(sections@),
                name@,
            ) matches Some(m) && m.state != DisplayState::Connected,
            Err(QueryError::FieldMissing) => spec_find_section(
                section_views(sections@),
                name@,
            ) matches Some(m) && m.state == DisplayState::Connected && m.geometry is None,
            Err(_) => false,
        },
{
    match crate::sections::find_section(sections, name) {
        Some(sec) => {
            if sec.state != DisplayState::Connected {
                return Err(QueryError::DisplayNotConnected);
            }
            match &sec.geometry {
                Some(g) => Ok(vstd::slice::slice_to_vec(g.as_slice())),
                None => Err(QueryError::FieldMissing),
            }
        },
        None => Err(QueryError::DisplayNotFound),
    }
}

/// The connector id of a display.
pub fn display_connector(sections: &Vec<DisplaySection>, name: &[u8]) -> (r: Result<
    Vec<u8>,
    QueryError,
>)
    ensures
        match r {
            Ok(c) => spec_find_section(section_views(sections@), name@) matches Some(m)
                && spec_connector_id(m.lines) == Some(c@),
            Err(QueryError::DisplayNotFound) => spec_find_section(
                section_views(sections@),
                name@,
            ) is None,
            Err(QueryError::FieldMissing) => spec_find_section(
                section_views(sections@),
                name@,
            ) matches Some(m) && spec_connector_id(m.lines) is None,
            Err(_) => false,
        },
{
    match crate::sections::find_section(sections, name) {
        Some(sec) => match extract_connector_id(sec) {
            Some(c) => Ok(c),
            None => Err(QueryError::FieldMissing),
        },
        None => Err(QueryError::DisplayNotFound),
    }
}

/// The raw header line of a display's section.
pub fn display_label_line(sections: &Vec<DisplaySection>, name: &[u8]) -> (r: Result<
    Vec<u8>,
    QueryError,
>)
    ensures
        match r {
            Ok(l) => spec_find_section(section_views(sections@), name@) matches Some(m)
                && m.lines.len() > 0 && l@ == m.lines[0],
            Err(QueryError::DisplayNotFound) => spec_find_section(
                section_views(sections@),
                name@,
            ) is None,
            Err(QueryError::FieldMissing) => spec_find_section(
                section_views(sections@),
                name@,
            ) matches Some(m) && m.lines.len() == 0,
            Err(_) => false,
        },
{
    match crate::sections::find_section(sections, name) {
        Some(sec) => {
            if sec.lines.len() == 0 {
                Err(QueryError::FieldMissing)
            } else {
                proof {
                    assert(sec@.lines[0] == sec.lines@[0]@);
                }
                Ok(vstd::slice::slice_to_vec(sec.lines[0].as_slice()))
            }
        },
        None => Err(QueryError::DisplayNotFound),
    }
}

/// The predicate holding of connected sections.
pub open spec fn connected_pred() -> spec_fn(SectionModel) -> bool {
    |m: SectionModel| m.state == DisplayState::Connected
}

/// The display names, all of them or the connected ones only.
pub open spec fn spec_display_names(ms: Seq<SectionModel>, connected_only: bool) -> Seq<Seq<u8>> {
    if connected_only {
        crate::commands::spec_section_names(ms.filter(connected_pred()))
    } else {
        crate::commands::spec_section_names(ms)
    }
}

/// Lists the display names in section order, optionally only those of
/// connected displays.
pub fn display_names(sections: &Vec<DisplaySection>, connected_only: bool) -> (r: Vec<Vec<u8>>)
    ensures
        views_of(r@) == spec_display_names(section_views(sections@), connected_only),
{
    let ghost ms = section_views(sections@);
    let mut out: Vec<Vec<u8>> = Vec::new();
    let mut i: usize = 0;
    proof {
        reveal(Seq::filter);
        assert(ms.subrange(0, 0) =~= Seq::<SectionModel>::empty());
        assert(views_of(out@) =~= spec_display_names(ms.subrange(0, 0), connected_only));
    }
    while i < sections.len()
        invariant
            0 <= i <= sections@.len(),
            ms == section_views(sections@),
            views_of(out@) == spec_display_names(ms.subrange(0, i as int), connected_only),
        decreases sections@.len() - i,
    {
        proof {
            reveal(Seq::filter);
            assert(ms[i as int] == sections@[i as int]@);
            let upto = ms.subrange(0, i + 1);
            assert(upto.drop_last() =~= ms.subrange(0, i as int));
            assert(upto.last() == ms[i as int]);
        }
        if !connected_only || sections[i].state == DisplayState::Connected {
            let name = vstd::slice::slice_to_vec(sections[i].name.as_slice());
            proof {
                assert(views_of(out@.push(name)) =~= views_of(out@).push(name@));
            }
            out.push(name);
        }
        i += 1;
    }
    proof {
        assert(ms.subrange(0, ms.len() as int) =~= ms);
    }
    out
}

/// The entry of a section in the connection-state listing.
pub open spec fn state_entry_fn() -> spec_fn(SectionModel) -> (Seq<u8>, Seq<u8>) {
    |m: SectionModel| (m.name, crate::header::spec_state_word(m.state))
}

/// Key/value entries for the connection-state listing.
pub fn connected_map_entries(sections: &Vec<DisplaySection>) -> (r: Vec<(Vec<u8>, Vec<u8>)>)
    ensures
        pair_views(r@) == section_views(sections@).map_values(state_entry_fn()),
{
    let ghost ms = section_views(sections@);
    let mut out: Vec<(Vec<u8>, Vec<u8>)> = Vec::new();
    let mut i: usize = 0;
    proof {
        assert(ms.subrange(0, 0) =~= Seq::<SectionModel>::empty());
        assert(pair_views(out@) =~= ms.subrange(0, 0).map_values(state_entry_fn()));
    }
    while i < sections.len()
        invariant
            0 <= i <= sections@.len(),
            ms == section_views(sections@),
            pair_views(out@) == ms.subrange(0, i as int).map_values(state_entry_fn()),
        decreases sections@.len() - i,
    {
        proof {
            assert(ms[i as int] == sections@[i as int]@);
            let upto = ms.subrange(0, i + 1);
            assert(upto.drop_last() =~= ms.subrange(0, i as int));
            assert(upto.last() == ms[i as int]);
        }
        let name = vstd::slice::slice_to_vec(sections[i].name.as_slice());
        let value = sections[i].state.as_word();
        let ghost e = (name@, value@);
        out.push((name, value));
        proof {
            assert(pair_views(out@) =~= pair_views(out@.drop_last()).push(e));
            assert(ms.subrange(0, i + 1).map_values(state_entry_fn()) =~= ms.subrange(
                0,
                i as int,
            ).map_values(state_entry_fn()).push(state_entry_fn()(ms[i as int])));
        }
        i += 1;
    }
    proof {
        assert(ms.subrange(0, ms.len() as int) =~= ms);
    }
    out
}

/// The entry of a section in the section-text listing: the value is the
/// whole section escaped onto one line.
pub open spec fn section_entry_fn() -> spec_fn(SectionModel) -> (Seq<u8>, Seq<u8>) {
    |m: SectionModel| (m.name, spec_escape(spec_join_lines(m.lines)))
}

/// Key/value entries for the section-text listing.
pub fn section_map_entries(sections: &Vec<DisplaySection>) -> (r: Vec<(Vec<u8>, Vec<u8>)>)
    ensures
        pair_views(r@) == section_views(sections@).map_values(section_entry_fn()),
{
    let ghost ms = section_views(sections@);
    let mut out: Vec<(Vec<u8>, Vec<u8>)> = Vec::new();
    let mut i: usize = 0;
    proof {
        assert(ms.subrange(0, 0) =~= Seq::<SectionModel>::empty());
        assert(pair_views(out@) =~= ms.subrange(0, 0).map_values(section_entry_fn()));
    }
    while i < sections.len()
        invariant
            0 <= i <= sections@.len(),
            ms == section_views(sections@),
            pair_views(out@) == ms.subrange(0, i as int).map_values(section_entry_fn()),
        decreases sections@.len() - i,
    {
        proof {
            assert(ms[i as int] == sections@[i as int]@);
            let upto = ms.subrange(0, i + 1);
            assert(upto.drop_last() =~= ms.subrange(0, i as int));
            assert(upto.last() == ms[i as int]);
        }
        let name = vstd::slice::slice_to_vec(sections[i].name.as_slice());
        let text = join_lines(&sections[i].lines);
        let value = escape_multiline(text.as_slice());
        let ghost e = (name@, value@);
        out.push((name, value));
        proof {
            assert(pair_views(out@) =~= pair_views(out@.drop_last()).push(e));
            assert(ms.subrange(0, i + 1).map_values(section_entry_fn()) =~= ms.subrange(
                0,
                i as int,
            ).map_values(section_entry_fn()).push(section_entry_fn()(ms[i as int])));
        }
        i += 1;
    }
    proof {
        assert(ms.subrange(0, ms.len() as int) =~= ms);
    }
    out
}

/// The entry of a section in the connector listing: a missing connector
/// id becomes an empty value.
pub open spec fn connector_entry_fn() -> spec_fn(SectionModel) -> (Seq<u8>, Seq<u8>) {
    |m: SectionModel|
        (
            m.name,
            match spec_connector_id(m.lines) {
                Some(v) => v,
                None => Seq::empty(),
            },
        )
}

/// Key/value entries for the connector listing.
pub fn connector_map_entries(sections: &Vec<DisplaySection>) -> (r: Vec<(Vec<u8>, Vec<u8>)>)
    ensures
        pair_views(r@) == section_views(sections@).map_values(connector_entry_fn()),
{
    let ghost ms = section_views(sections@);
    let mut out: Vec<(Vec<u8>, Vec<u8>)> = Vec::new();
    let mut i: usize = 0;
    proof {
        assert(ms.subrange(0, 0) =~= Seq::<SectionModel>::empty());
        assert(pair_views(out@) =~= ms.subrange(0, 0).map_values(connector_entry_fn()));
    }
    while i < sections.len()
        invariant
            0 <= i <= sections@.len(),
            ms == section_views(sections@),
            pair_views(out@) == ms.subrange(0, i as int).map_values(connector_entry_fn()),
        decreases sections@.len() - i,
    {
        proof {
            assert(ms[i as int] == sections@[i as int]@);
            let upto = ms.subrange(0, i + 1);
            assert(upto.drop_last() =~= ms.subrange(0, i as int));
            assert(upto.last() == ms[i as int]);
        }
        let name = vstd::slice::slice_to_vec(sections[i].name.as_slice());
        let value = match extract_connector_id(&sections[i]) {
            Some(c) => c,
            None => Vec::new(),
        };
        let ghost e = (name@, value@);
        out.push((name, value));
        proof {
            assert(pair_views(out@) =~= pair_views(out@.drop_last()).push(e));
            assert(ms.subrange(0, i + 1).map_values(connector_entry_fn()) =~= ms.subrange(
                0,
                i as int,
            ).map_values(connector_entry_fn()).push(connector_entry_fn()(ms[i as int])));
        }
        i += 1;
    }
    proof {
        assert(ms.subrange(0, ms.len() as int) =~= ms);
    }
    out
}

/// The predicate holding of sections the geometry listing shows:
/// connected displays that have a geometry.
pub open spec fn geometry_shown_pred() -> spec_fn(SectionModel) -> bool {
    |m: SectionModel| m.state == DisplayState::Connected && m.geometry is Some
}

/// The entry of a shown section in the geometry listing: the geometry,
/// with a `primary,` prefix on the primary display.
pub open spec fn geometry_entry_fn() -> spec_fn(SectionModel) -> (Seq<u8>, Seq<u8>) {
    |m: SectionModel|
        (
            m.name,
            match m.geometry {
                Some(g) => if m.primary {
                    ascii_of("primary,"@) + g
                } else {
                    g
                },
                None => Seq::empty(),
            },
        )
}

fn word_primary_comma() -> (v: Vec<u8>)
    ensures
        v@ == ascii_of("primary,"@),
{
    proof {
        reveal_strlit("primary,");
        assert(vstd::string::is_ascii("primary,"));
    }
    ascii_bytes("primary,")
}

/// Key/value entries for the geometry listing: disconnected displays and
/// those without a geometry are left out one by one, not an error.
pub fn geometry_map_entries(sections: &Vec<DisplaySection>) -> (r: Vec<(Vec<u8>, Vec<u8>)>)
    ensures
        pair_views(r@) == section_views(sections@).filter(geometry_shown_pred()).map_values(
            geometry_entry_fn(),
        ),
{
    let ghost ms = section_views(sections@);
    let mut out: Vec<(Vec<u8>, Vec<u8>)> = Vec::new();
    let mut i: usize = 0;
    proof {
        reveal(Seq::filter);
        assert(ms.subrange(0, 0) =~= Seq::<SectionModel>::empty());
        assert(pair_views(out@) =~= ms.subrange(0, 0).filter(geometry_shown_pred()).map_values(
            geometry_entry_fn(),
        ));
    }
    while i < sections.len()
        invariant
            0 <= i <= sections@.len(),
            ms == section_views(sections@),
            pair_views(out@) == ms.subrange(0, i as int).filter(geometry_shown_pred()).map_values(
                geometry_entry_fn(),
            ),
        decreases sections@.len() - i,
    {
        proof {
            reveal(Seq::filter);
            assert(ms[i as int] == sections@[i as int]@);
            let upto = ms.subrange(0, i + 1);
            assert(upto.drop_last() =~= ms.subrange(0, i as int));
            assert(upto.last() == ms[i as int]);
        }
        if sections[i].state == DisplayState::Connected {
            match &sections[i].geometry {
                Some(g) => {
                    let name = vstd::slice::slice_to_vec(sections[i].name.as_slice());
                    let value = if sections[i].primary {
                        let mut v = word_primary_comma();
                        v.extend_from_slice(g.as_slice());
                        v
                    } else {
                        vstd::slice::slice_to_vec(g.as_slice())
                    };
                    let ghost e = (name@, value@);
                    out.push((name, value));
                    proof {
                        assert(pair_views(out@) =~= pair_views(out@.drop_last()).push(e));
                        assert(e == geometry_entry_fn()(ms[i as int]));
                        assert(ms.subrange(0, i + 1).filter(geometry_shown_pred()).map_values(
                            geometry_entry_fn(),
                        ) =~= ms.subrange(0, i as int).filter(geometry_shown_pred()).map_values(
                            geometry_entry_fn(),
                        ).push(geometry_entry_fn()(ms[i as int])));
                    }
                },
                None => {},
            }
        }
        i += 1;
    }
    proof {
        assert(ms.subrange(0, ms.len() as int) =~= ms);
    }
    out
}

/// The entry of a section in the monitor listing: the monitor index of
/// its name, or an empty value when the map has none.
pub open spec fn monitor_entry_fn(mm: Map<Seq<u8>, Seq<u8>>) -> spec_fn(SectionModel) -> (
    Seq<u8>,
    Seq<u8>,
) {
    |m: SectionModel|
        (
            m.name,
            if mm.contains_key(m.name) {
                mm[m.name]
            } else {
                Seq::empty()
            },
        )
}

/// Key/value entries for the monitor listing.
pub fn monitor_map_entries(sections: &Vec<DisplaySection>, map: &MonitorMap) -> (r: Vec<
    (Vec<u8>, Vec<u8>),
>)
    requires
        map.wf(),
    ensures
        pair_views(r@) == section_views(sections@).map_values(monitor_entry_fn(map@)),
{
    let ghost ms = section_views(sections@);
    let mut out: Vec<(Vec<u8>, Vec<u8>)> = Vec::new();
    let mut i: usize = 0;
    proof {
        assert(ms.subrange(0, 0) =~= Seq::<SectionModel>::empty());
        assert(pair_views(out@) =~= ms.subrange(0, 0).map_values(monitor_entry_fn(map@)));
    }
    while i < sections.len()
        invariant
            0 <= i <= sections@.len(),
            ms == section_views(sections@),
            map.wf(),
            pair_views(out@) == ms.subrange(0, i as int).map_values(monitor_entry_fn(map@)),
        decreases sections@.len() - i,
    {
        proof {
            assert(ms[i as int] == sections@[i as int]@);
            let upto = ms.subrange(0, i + 1);
            assert(upto.drop_last() =~= ms.subrange(0, i as int));
            assert(upto.last() == ms[i as int]);
        }
        let name = vstd::slice::slice_to_vec(sections[i].name.as_slice());
        let value = match map.get(name.as_slice()) {
            Some(v) => v,
            None => Vec::new(),
        };
        let ghost e = (name@, value@);
        out.push((name, value));
        proof {
            assert(pair_views(out@) =~= pair_views(out@.drop_last()).push(e));
            assert(e == monitor_entry_fn(map@)(ms[i as int]));
            assert(ms.subrange(0, i + 1).map_values(monitor_entry_fn(map@)) =~= ms.subrange(
                0,
                i as int,
            ).map_values(monitor_entry_fn(map@)).push(monitor_entry_fn(map@)(ms[i as int])));
        }
        i += 1;
    }
    proof {
        assert(ms.subrange(0, ms.len() as int) =~= ms);
    }
    out
}

} // verus!
