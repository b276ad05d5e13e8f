//! Monitor map: parses a monitor listing into a mapping from display name
//! to monitor index string. A `Monitors:` first line is a header and is
//! skipped; each remaining non-blank line contributes its last token as
//! the name and its first token, cut at the first colon, as the index.
//! Later lines overwrite earlier ones on the same name.
use crate::text::{
    ascii_bytes, ascii_of, byte_is, bytes_eq, find_byte, idx_of, spec_has_prefix, spec_lines,
    spec_tokens, spec_trim_end, split_lines, split_ws, trim_end, views_of,
};
use vstd::prelude::*;

verus! {

/// What one listing line contributes: nothing for a blank line or one of
/// fewer than two tokens, else the pair of the last token (the name) and
/// the first token cut at its first colon (the index).
pub open spec fn spec_monitor_entry(line: Seq<u8>) -> Option<(Seq<u8>, Seq<u8>)> {
    let t = spec_trim_end(line);
    let toks = spec_tokens(t);
    if t.len() == 0 || toks.len() < 2 {
        None
    } else {
        let first = toks[0];
        let index = first.subrange(0, idx_of(first, byte_is(0x3au8)));
        Some((toks.last(), index))
    }
}

pub open spec fn spec_insert_monitor(m: Map<Seq<u8>, Seq<u8>>, line: Seq<u8>) -> Map<
    Seq<u8>,
    Seq<u8>,
> {
    match spec_monitor_entry(line) {
        Some(e) => m.insert(e.0, e.1),
        None => m,
    }
}

pub open spec fn spec_fold_monitors(ls: Seq<Seq<u8>>, m: Map<Seq<u8>, Seq<u8>>) -> Map<
    Seq<u8>,
    Seq<u8>,
>
    decreases ls.len(),
{
    if ls.len() == 0 {
        m
    } else {
        spec_fold_monitors(ls.drop_first(), spec_insert_monitor(m, ls[0]))
    }
}

/// The mapping a whole listing denotes; a `Monitors:` first line is a
/// header, not data.
pub open spec fn spec_monitor_map(text: Seq<u8>) -> Map<Seq<u8>, Seq<u8>> {
    let ls = spec_lines(text);
    if ls.len() == 0 {
        Map::empty()
    } else if spec_has_prefix(ls[0], ascii_of("Monitors:"@)) {
        spec_fold_monitors(ls.drop_first(), Map::empty())
    } else {
        spec_fold_monitors(ls, Map::empty())
    }
}

/// Mapping from display name to monitor index string; keys are unique,
/// the last insertion on a name wins.
pub struct MonitorMap {
    entries: Vec<(Vec<u8>, Vec<u8>)>,
}

/// The mapping a list of entries denotes, later entries overwriting.
pub open spec fn entries_map(es: Seq<(Vec<u8>, Vec<u8>)>) -> Map<Seq<u8>, Seq<u8>>
    decreases es.len(),
{
    if es.len() == 0 {
        Map::empty()
    } else {
        entries_map(es.drop_last()).insert(es.last().0@, es.last().1@)
    }
}

impl View for MonitorMap {
    type V = Map<Seq<u8>, Seq<u8>>;

    closed spec fn view(&self) -> Map<Seq<u8>, Seq<u8>> {
        entries_map(self.entries@)
    }
}

proof fn lemma_entries_map_dom(es: Seq<(Vec<u8>, Vec<u8>)>, k: Seq<u8>)
    ensures
        entries_map(es).contains_key(k) <==> exists|j: int|
            0 <= j < es.len() && (#[trigger] es[j].0)@ == k,
    decreases es.len(),
{
    if es.len() > 0 {
        lemma_entries_map_dom(es.drop_last(), k);
        if entries_map(es).contains_key(k) {
            if es.last().0@ == k {
                assert(es[es.len() - 1].0@ == k);
            } else {
                let j = choose|j: int| 0 <= j < es.drop_last().len() && (#[trigger] es.drop_last()[j].0)@ == k;
                assert(es[j].0@ == k);
            }
        }
        if exists|j: int| 0 <= j < es.len() && (#[trigger] es[j].0)@ == k {
            let j = choose|j: int| 0 <= j < es.len() && (#[trigger] es[j].0)@ == k;
            if j < es.len() - 1 {
                assert(es.drop_last()[j].0@ == k);
            }
        }
    }
}

/// With unique keys, the entry at `j` gives its key's value.
proof fn lemma_entries_map_at(es: Seq<(Vec<u8>, Vec<u8>)>, j: int)
    requires
        0 <= j < es.len(),
        forall|a: int, b: int|
            0 <= a < b < es.len() ==> (#[trigger] es[a].0)@ != (#[trigger] es[b].0)@,
    ensures
        entries_map(es).contains_key(es[j].0@),
        entries_map(es)[es[j].0@] == es[j].1@,
    decreases es.len(),
{
    if j == es.len() - 1 {
    } else {
        lemma_entries_map_at(es.drop_last(), j);
        assert(es.drop_last()[j] == es[j]);
        assert(es[es.len() - 1].0@ != es[j].0@);
    }
}

/// Updating the entry that holds a key denotes inserting over that key.
proof fn lemma_entries_map_update(es: Seq<(Vec<u8>, Vec<u8>)>, j: int, e: (Vec<u8>, Vec<u8>))
    requires
        0 <= j < es.len(),
        es[j].0@ == e.0@,
        forall|a: int, b: int|
            0 <= a < b < es.len() ==> (#[trigger] es[a].0)@ != (#[trigger] es[b].0)@,
    ensures
        entries_map(es.update(j, e)) == entries_map(es).insert(e.0@, e.1@),
    decreases es.len(),
{
    let updated = es.update(j, e);
    if j == es.len() - 1 {
        assert(updated.drop_last() =~= es.drop_last());
        assert(updated.last() == e);
        assert(entries_map(updated) =~= entries_map(es).insert(e.0@, e.1@));
    } else {
        assert(updated.drop_last() =~= es.drop_last().update(j, e));
        assert(es.drop_last()[j] == es[j]);
        lemma_entries_map_update(es.drop_last(), j, e);
        assert(updated.last() == es.last());
        assert(es[es.len() - 1].0@ != es[j].0@);
        assert(entries_map(updated) =~= entries_map(es).insert(e.0@, e.1@));
    }
}

impl MonitorMap {
    /// Keys are pairwise distinct.
    pub closed spec fn wf(&self) -> bool {
        forall|a: int, b: int|
            0 <= a < b < self.entries@.len() ==> (#[trigger] self.entries@[a].0)@
                != (#[trigger] self.entries@[b].0)@
    }

    pub fn new() -> (r: MonitorMap)
        ensures
            r.wf(),
            r@ == Map::<Seq<u8>, Seq<u8>>::empty(),
    {
        MonitorMap { entries: Vec::new() }
    }

    /// Inserts a pair; an existing entry on the same name is overwritten.
    pub fn insert(&mut self, name: Vec<u8>, index: Vec<u8>)
        requires
            old(self).wf(),
        ensures
            final(self).wf(),
            final(self)@ == old(self)@.insert(name@, index@),
    {
        let mut i: usize = 0;
        while i < self.entries.len()
            invariant
                0 <= i <= self.entries@.len(),
                old(self).wf(),
                self.entries@ == old(self).entries@,
                forall|j: int| 0 <= j < i ==> (#[trigger] self.entries@[j].0)@ != name@,
            decreases self.entries@.len() - i,
        {
            if bytes_eq(self.entries[i].0.as_slice(), name.as_slice()) {
                let ghost es = self.entries@;
                let ghost j = i as int;
                let ghost nv = name@;
                let ghost iv = index@;
                self.entries[i] = (name, index);
                proof {
                    assert(self.entries@ == es.update(j, self.entries@[j]));
                    assert(self.entries@[j].0@ == nv);
                    assert(self.entries@[j].1@ == iv);
                    lemma_entries_map_update(es, j, self.entries@[j]);
                    assert forall|a: int, b: int|
                        0 <= a < b < self.entries@.len() implies (
                    #[trigger] self.entries@[a].0)@ != (#[trigger] self.entries@[b].0)@ by {
                        assert(es[a].0@ != es[b].0@);
                        if a != j {
                            assert(self.entries@[a].0@ == es[a].0@);
                        }
                        if b != j {
                            assert(self.entries@[b].0@ == es[b].0@);
                        }
                        if a == j {
                            assert(self.entries@[a].0@ == es[j].0@);
                        }
                        if b == j {
                            assert(self.entries@[b].0@ == es[j].0@);
                        }
                    }
                }
                return ;
            }
            i += 1;
        }
        let ghost es = self.entries@;
        let ghost nv = name@;
        self.entries.push((name, index));
        proof {
            assert(self.entries@.drop_last() =~= es);
            assert forall|a: int, b: int|
                0 <= a < b < self.entries@.len() implies (#[trigger] self.entries@[a].0)@ != (
            #[trigger] self.entries@[b].0)@ by {
                if b < es.len() {
                    assert(self.entries@[a].0@ == es[a].0@);
                    assert(self.entries@[b].0@ == es[b].0@);
                } else {
                    assert(self.entries@[a].0@ == es[a].0@);
                    assert(self.entries@[b].0@ == nv);
                    assert(es[a].0@ != nv);
                }
            }
        }
    }

    /// Looks a display name up, returning its monitor index string.
    pub fn get(&self, name: &[u8]) -> (r: Option<Vec<u8>>)
        requires
            self.wf(),
        ensures
            match r {
                Some(v) => self@.contains_key(name@) && v@ == self@[name@],
                None => !self@.contains_key(name@),
            },
    {
        let mut i: usize = 0;
        while i < self.entries.len()
            invariant
                self.wf(),
                0 <= i <= self.entries@.len(),
                forall|j: int| 0 <= j < i ==> (#[trigger] self.entries@[j].0)@ != name@,
            decreases self.entries@.len() - i,
        {
            if bytes_eq(self.entries[i].0.as_slice(), name) {
                proof {
                    lemma_entries_map_at(self.entries@, i as int);
                }
                return Some(vstd::slice::slice_to_vec(self.entries[i].1.as_slice()));
            }
            i += 1;
        }
        proof {
            lemma_entries_map_dom(self.entries@, name@);
        }
        None
    }
}

fn word_monitors_label() -> (v: Vec<u8>)
    ensures
        v@ == ascii_of("Monitors:"@),
{
    proof {
        reveal_strlit("Monitors:");
        assert(vstd::string::is_ascii("Monitors:"));
    }
    ascii_bytes("Monitors:")
}

/// Feeds one listing line into the map: blank and single-token lines are
/// ignored; otherwise the last token maps to the first token cut at its
/// first colon, overwriting any earlier entry.
pub fn insert_monitor_line(map: &mut MonitorMap, line: &[u8])
    requires
        old(map).wf(),
    ensures
        final(map).wf(),
        final(map)@ == spec_insert_monitor(old(map)@, line@),
{
    let trimmed = trim_end(line);
    if trimmed.len() == 0 {
        return ;
    }
    let toks = split_ws(trimmed);
    if toks.len() < 2 {
        proof {
            assert(views_of(toks@).len() == toks@.len());
        }
        return ;
    }
    let first = &toks[0];
    let cut = match find_byte(first.as_slice(), 0x3a) {
        Some(c) => c,
        None => first.len(),
    };
    let index = vstd::slice::slice_to_vec(vstd::slice::slice_subrange(first.as_slice(), 0, cut));
    let name = vstd::slice::slice_to_vec(toks[toks.len() - 1].as_slice());
    proof {
        let tv = spec_tokens(spec_trim_end(line@));
        assert(tv[0] == toks@[0]@);
        assert(tv.last() == toks@[toks@.len() - 1]@);
        assert(index@ =~= tv[0].subrange(0, idx_of(tv[0], byte_is(0x3au8))));
    }
    map.insert(name, index);
}

/// Parses a whole monitor listing into a map; the last line wins on a
/// duplicated display name.
pub fn parse_monitor_map(text: &[u8]) -> (r: MonitorMap)
    ensures
        r.wf(),
        r@ == spec_monitor_map(text@),
{
    let lines = split_lines(text);
    let ghost lv = spec_lines(text@);
    let mut map = MonitorMap::new();
    let mut i: usize = 0;
    if lines.len() == 0 {
        return map;
    }
    let label = word_monitors_label();
    proof {
        assert(lv[0] == lines@[0]@);
    }
    if crate::text::has_prefix(lines[0].as_slice(), label.as_slice()) {
        i = 1;
        proof {
            assert(lv.skip(1) =~= lv.drop_first());
        }
    } else {
        proof {
            assert(lv.skip(0) =~= lv);
        }
    }
    let ghost data = lv.skip(i as int);
    let ghost goal = spec_fold_monitors(data, Map::empty());
    while i < lines.len()
        invariant
            0 <= i <= lines@.len(),
            lv == views_of(lines@),
            map.wf(),
            goal == spec_fold_monitors(lv.skip(i as int), map@),
        decreases lines@.len() - i,
    {
        proof {
            let rest = lv.skip(i as int);
            assert(rest[0] == lv[i as int]);
            assert(lv[i as int] == lines@[i as int]@);
            assert(rest.drop_first() =~= lv.skip(i + 1));
        }
        insert_monitor_line(&mut map, lines[i].as_slice());
        i += 1;
    }
    proof {
        assert(lv.skip(lv.len() as int) =~= Seq::<Seq<u8>>::empty());
    }
    map
}

} // verus!
