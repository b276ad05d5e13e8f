//! Command-level logic: the argument lists handed to the external
//! reconfiguration command for single and dual layouts, and the per-query
//! readers the command dispatch uses.
use crate::sections::{section_views, spec_find_section, DisplaySection, SectionModel};
use crate::text::{ascii_bytes, ascii_of, contains_bytes, views_of};
use vstd::prelude::*;

verus! {

#[derive(Debug, PartialEq, Eq)]
pub enum CmdError {
    /// The named display has no section.
    DisplayNotFound(Vec<u8>),
    /// The two displays of a dual layout are the same.
    SameDisplays,
}

/// The names of the sections, in order.
pub open spec fn spec_section_names(ms: Seq<SectionModel>) -> Seq<Seq<u8>> {
    ms.map_values(|m: SectionModel| m.name)
}

/// The predicate holding of names outside the exclusion list.
pub open spec fn not_excluded(excl: Seq<Seq<u8>>) -> spec_fn(Seq<u8>) -> bool {
    |n: Seq<u8>| !excl.contains(n)
}

/// The section names that are not excluded, in order.
pub fn filtered_display_names(sections: &Vec<DisplaySection>, exclude: &Vec<Vec<u8>>) -> (r: Vec<
    Vec<u8>,
>)
    ensures
        views_of(r@) == spec_section_names(section_views(sections@)).filter(
            not_excluded(views_of(exclude@)),
        ),
{
    let ghost ms = section_views(sections@);
    let ghost names = spec_section_names(ms);
    let ghost pred = not_excluded(views_of(exclude@));
    let mut out: Vec<Vec<u8>> = Vec::new();
    let mut i: usize = 0;
    proof {
        reveal(Seq::filter);
        assert(names.subrange(0, 0) =~= Seq::<Seq<u8>>::empty());
        assert(views_of(out@) =~= names.subrange(0, 0).filter(pred));
    }
    while i < sections.len()
        invariant
            0 <= i <= sections@.len(),
            ms == section_views(sections@),
            names == spec_section_names(ms),
            pred == not_excluded(views_of(exclude@)),
            views_of(out@) == names.subrange(0, i as int).filter(pred),
        decreases sections@.len() - i,
    {
        proof {
            assert(ms[i as int] == sections@[i as int]@);
            assert(names[i as int] == ms[i as int].name);
        }
        let excluded = contains_bytes(exclude, sections[i].name.as_slice());
        proof {
            reveal(Seq::filter);
            let upto = names.subrange(0, i + 1);
            assert(upto.drop_last() =~= names.subrange(0, i as int));
            assert(upto.last() == names[i as int]);
        }
        if !excluded {
            let name = vstd::slice::slice_to_vec(sections[i].name.as_slice());
            proof {
                assert(views_of(out@.push(name)) =~= views_of(out@).push(name@));
            }
            out.push(name);
        }
        i += 1;
    }
    proof {
        assert(names.subrange(0, names.len() as int) =~= names);
    }
    out
}

/// The argument triples that switch the given displays off.
pub open spec fn spec_off_args(names: Seq<Seq<u8>>) -> Seq<Seq<u8>>
    decreases names.len(),
{
    if names.len() == 0 {
        Seq::empty()
    } else {
        spec_off_args(names.drop_last()) + seq![
            ascii_of("--output"@),
            names.last(),
            ascii_of("--off"@),
        ]
    }
}

fn word_output() -> (v: Vec<u8>)
    ensures
        v@ == ascii_of("--output"@),
{
    proof {
        reveal_strlit("--output");
        assert(vstd::string::is_ascii("--output"));
    }
    ascii_bytes("--output")
}

fn word_off() -> (v: Vec<u8>)
    ensures
        v@ == ascii_of("--off"@),
{
    proof {
        reveal_strlit("--off");
        assert(vstd::string::is_ascii("--off"));
    }
    ascii_bytes("--off")
}

fn word_primary_flag() -> (v: Vec<u8>)
    ensures
        v@ == ascii_of("--primary"@),
{
    proof {
        reveal_strlit("--primary");
        assert(vstd::string::is_ascii("--primary"));
    }
    ascii_bytes("--primary")
}

fn word_auto() -> (v: Vec<u8>)
    ensures
        v@ == ascii_of("--auto"@),
{
    proof {
        reveal_strlit("--auto");
        assert(vstd::string::is_ascii("--auto"));
    }
    ascii_bytes("--auto")
}

fn word_right_of() -> (v: Vec<u8>)
    ensures
        v@ == ascii_of("--right-of"@),
{
    proof {
        reveal_strlit("--right-of");
        assert(vstd::string::is_ascii("--right-of"));
    }
    ascii_bytes("--right-of")
}

/// Builds `--output <name> --off` for each given display.
pub fn build_off_args(displays: &Vec<Vec<u8>>) -> (r: Vec<Vec<u8>>)
    ensures
        views_of(r@) == spec_off_args(views_of(displays@)),
{
    let ghost dv = views_of(displays@);
    let mut args: Vec<Vec<u8>> = Vec::new();
    let mut i: usize = 0;
    proof {
        assert(dv.subrange(0, 0) =~= Seq::<Seq<u8>>::empty());
        assert(views_of(args@) =~= spec_off_args(dv.subrange(0, 0)));
    }
    while i < displays.len()
        invariant
            0 <= i <= displays@.len(),
            dv == views_of(displays@),
            views_of(args@) == spec_off_args(dv.subrange(0, i as int)),
        decreases displays@.len() - i,
    {
        let ghost before = views_of(args@);
        let output_w = word_output();
        let off_w = word_off();
        args.push(output_w);
        args.push(vstd::slice::slice_to_vec(displays[i].as_slice()));
        args.push(off_w);
        proof {
            let upto = dv.subrange(0, i + 1);
            assert(upto.drop_last() =~= dv.subrange(0, i as int));
            assert(upto.last() == dv[i as int]);
            assert(dv[i as int] == displays@[i as int]@);
            assert(views_of(args@) =~= before + seq![
                ascii_of("--output"@),
                dv[i as int],
                ascii_of("--off"@),
            ]);
        }
        i += 1;
    }
    proof {
        assert(dv.subrange(0, dv.len() as int) =~= dv);
    }
    args
}

/// The argument list that keeps one display as the primary, auto
/// configured, and switches every other named display off.
pub fn run_single_display_output(keep: &[u8], sections: &Vec<DisplaySection>) -> (r: Result<
    Vec<Vec<u8>>,
    CmdError,
>)
    ensures
        match r {
            Ok(args) => spec_find_section(section_views(sections@), keep@) is Some && views_of(
                args@,
            ) == seq![
                ascii_of("--output"@),
                keep@,
                ascii_of("--primary"@),
                ascii_of("--auto"@),
            ] + spec_off_args(
                spec_section_names(section_views(sections@)).filter(not_excluded(seq![keep@])),
            ),
            Err(CmdError::DisplayNotFound(d)) => d@ == keep@ && spec_find_section(
                section_views(sections@),
                keep@,
            ) is None,
            Err(CmdError::SameDisplays) => false,
        },
{
    if crate::sections::find_section(sections, keep).is_none() {
        return Err(CmdError::DisplayNotFound(vstd::slice::slice_to_vec(keep)));
    }
    let mut exclude: Vec<Vec<u8>> = Vec::new();
    exclude.push(vstd::slice::slice_to_vec(keep));
    proof {
        assert(views_of(exclude@) =~= seq![keep@]);
    }
    let off_targets = filtered_display_names(sections, &exclude);
    let mut args: Vec<Vec<u8>> = Vec::new();
    args.push(word_output());
    args.push(vstd::slice::slice_to_vec(keep));
    args.push(word_primary_flag());
    args.push(word_auto());
    let mut off_args = build_off_args(&off_targets);
    let ghost head = views_of(args@);
    let ghost tail = views_of(off_args@);
    args.append(&mut off_args);
    proof {
        assert(views_of(args@) =~= head + tail);
        assert(head =~= seq![
            ascii_of("--output"@),
            keep@,
            ascii_of("--primary"@),
            ascii_of("--auto"@),
        ]);
    }
    Ok(args)
}

/// The argument list that places two different displays side by side,
/// the left one primary, and switches every other named display off.
pub fn run_dual_display_output(left: &[u8], right: &[u8], sections: &Vec<DisplaySection>) -> (r:
    Result<Vec<Vec<u8>>, CmdError>)
    ensures
        match r {
            Ok(args) => left@ != right@ && spec_find_section(
                section_views(sections@),
                left@,
            ) is Some && spec_find_section(section_views(sections@), right@) is Some
                && views_of(args@) == seq![
                ascii_of("--output"@),
                left@,
                ascii_of("--primary"@),
                ascii_of("--auto"@),
                ascii_of("--output"@),
                right@,
                ascii_of("--auto"@),
                ascii_of("--right-of"@),
                left@,
            ] + spec_off_args(
                spec_section_names(section_views(sections@)).filter(
                    not_excluded(seq![left@, right@]),
                ),
            ),
            Err(CmdError::SameDisplays) => left@ == right@,
            Err(CmdError::DisplayNotFound(d)) => left@ != right@ && (d@ == left@
                && spec_find_section(section_views(sections@), left@) is None || d@ == right@
                && spec_find_section(section_views(sections@), left@) is Some
                && spec_find_section(section_views(sections@), right@) is None),
        },
{
    if crate::text::bytes_eq(left, right) {
        return Err(CmdError::SameDisplays);
    }
    if crate::sections::find_section(sections, left).is_none() {
        return Err(CmdError::DisplayNotFound(vstd::slice::slice_to_vec(left)));
    }
    if crate::sections::find_section(sections, right).is_none() {
        return Err(CmdError::DisplayNotFound(vstd::slice::slice_to_vec(right)));
    }
    let mut exclude: Vec<Vec<u8>> = Vec::new();
    exclude.push(vstd::slice::slice_to_vec(left));
    exclude.push(vstd::slice::slice_to_vec(right));
    proof {
        assert(views_of(exclude@) =~= seq![left@, right@]);
    }
    let off_targets = filtered_display_names(sections, &exclude);
    let mut args: Vec<Vec<u8>> = Vec::new();
    args.push(word_output());
    args.push(vstd::slice::slice_to_vec(left));
    args.push(word_primary_flag());
    args.push(word_auto());
    args.push(word_output());
    args.push(vstd::slice::slice_to_vec(right));
    args.push(word_auto());
    args.push(word_right_of());
    args.push(vstd::slice::slice_to_vec(left));
    let mut off_args = build_off_args(&off_targets);
    let ghost head = views_of(args@);
    let ghost tail = views_of(off_args@);
    args.append(&mut off_args);
    proof {
        assert(views_of(args@) =~= head + tail);
        assert(head =~= seq![
            ascii_of("--output"@),
            left@,
            ascii_of("--primary"@),
            ascii_of("--auto"@),
            ascii_of("--output"@),
            right@,
            ascii_of("--auto"@),
            ascii_of("--right-of"@),
            left@,
        ]);
    }
    Ok(args)
}

/// The argument at `index`, where the dispatch expects one.
pub fn expect_arg(args: &Vec<Vec<u8>>, index: usize) -> (r: Option<Vec<u8>>)
    ensures
        match r {
            Some(v) => index < args@.len() && v@ == views_of(args@)[index as int],
            None => index >= args@.len(),
        },
{
    if index < args.len() {
        proof {
            assert(views_of(args@)[index as int] == args@[index as int]@);
        }
        Some(vstd::slice::slice_to_vec(args[index].as_slice()))
    } else {
        None
    }
}

} // verus!
