//! The watch over mounts: which mount units are up, and which of them have
//! gone from the kernel's list of mounts.

use vstd::prelude::*;

use crate::dep::{member_of, unique};
use crate::idset::{lemma_filter, with, without, UnitSet};
use crate::mount::{mount_point_in, mount_point_of_line, mount_point_to_unit_name, unit_name};
use crate::text::{split, split_str, Sep};
use crate::unit::UnitId;

verus! {

/// The condition of not being a member of `a`.
pub open spec fn absent_from(a: Seq<Seq<char>>) -> spec_fn(Seq<char>) -> bool {
    |p: Seq<char>| !a.contains(p)
}

/// The unit that stands for the mount that a line of the kernel's list
/// names, if it names one.
pub open spec fn unit_in() -> spec_fn(Seq<char>) -> Option<Seq<char>> {
    |line: Seq<char>|
        match mount_point_in(line) {
            Some(point) => Some(unit_name(point)),
            None => None,
        }
}

/// The units that stand for the mounts in the kernel's list `text`, each
/// once, in the order of the list.
pub open spec fn mounted(text: Seq<char>) -> Seq<Seq<char>> {
    unique(split(text, Sep::Char('\n')).filter_map(unit_in()))
}

/// The units that stand for the mounts in the kernel's list.
pub fn mounted_units(text: &str) -> (units: UnitSet)
    ensures
        units@ == mounted(text@),
{
    let lines = split_str(text, Sep::Char('\n'));
    let ghost all = lines.deep_view();
    let mut units = UnitSet::new();
    let mut i: usize = 0;
    assert(all.take(0).filter_map(unit_in()) =~= Seq::<Seq<char>>::empty());
    while i < lines.len()
        invariant
            i <= lines.len(),
            all == lines.deep_view(),
            units@ == unique(all.take(i as int).filter_map(unit_in())),
        decreases lines.len() - i,
    {
        let ghost seen = all.take(i as int).filter_map(unit_in());
        proof {
            assert(all[i as int] == lines[i as int]@);
            all.lemma_filter_map_take_succ(unit_in(), i as int);
        }
        match mount_point_of_line(lines[i].as_str()) {
            Some(point) => {
                let name = mount_point_to_unit_name(point.as_str());
                proof {
                    let grown = all.take(i + 1).filter_map(unit_in());
                    assert(grown =~= seen.push(name@));
                    assert(grown.drop_last() =~= seen);
                }
                units.insert(UnitId::new(name.as_str()));
            },
            None => {
                assert(all.take(i + 1).filter_map(unit_in()) =~= seen);
            },
        }
        i += 1;
    }
    assert(all.take(all.len() as int) =~= all);
    units
}

/// The mount units that are up.
#[derive(Debug)]
pub struct MountMonitorStore {
    map: UnitSet,
}

impl View for MountMonitorStore {
    type V = Seq<Seq<char>>;

    closed spec fn view(&self) -> Seq<Seq<char>> {
        self.map@
    }
}

impl MountMonitorStore {
    /// A watch over no unit.
    pub fn new() -> (store: MountMonitorStore)
        ensures
            store@ == Seq::<Seq<char>>::empty(),
    {
        MountMonitorStore { map: UnitSet::new() }
    }

    /// Whether `id` is watched.
    pub fn contains(&self, id: &UnitId) -> (r: bool)
        ensures
            r == self@.contains(id@),
    {
        self.map.contains(id)
    }

    /// Puts `id` under watch.
    pub fn register(&mut self, id: UnitId)
        ensures
            final(self)@ == with(old(self)@, id@),
    {
        self.map.insert(id);
    }

    /// Takes `id` from under watch.
    pub fn remove(&mut self, id: &UnitId)
        ensures
            final(self)@ == without(old(self)@, id@),
    {
        self.map.remove(id);
    }

    /// The kernel's list of mounts has changed and now holds the mounts of
    /// `mounted`. Hands back the watched units that are gone from it, in
    /// the order in which they came under watch, and watches them no
    /// longer.
    pub fn lost(&mut self, mounted: &UnitSet) -> (dead: Vec<UnitId>)
        ensures
            dead.deep_view() == old(self)@.filter(absent_from(mounted@)),
            final(self)@ == old(self)@.filter(member_of(mounted@)),
    {
        let ghost all = self.map@;
        let ghost gone = absent_from(mounted@);
        let ghost there = member_of(mounted@);
        let mut dead: Vec<UnitId> = Vec::new();
        let mut kept = UnitSet::new();
        let mut i: usize = 0;
        proof {
            use_type_invariant(&self.map);
            reveal(Seq::filter);
            assert(all.take(0).filter(gone) =~= Seq::<Seq<char>>::empty());
            assert(all.take(0).filter(there) =~= Seq::<Seq<char>>::empty());
        }
        while i < self.map.len()
            invariant
                i <= all.len(),
                all == self.map@,
                all.no_duplicates(),
                gone == absent_from(mounted@),
                there == member_of(mounted@),
                dead.deep_view() =~= all.take(i as int).filter(gone),
                kept@ == all.take(i as int).filter(there),
            decreases all.len() - i,
        {
            let ghost before = dead.deep_view();
            let id = self.map.get(i);
            proof {
                let seen = all.take(i as int);
                assert(all.take(i + 1) =~= seen.push(id@));
                seen.lemma_filter_push(id@, gone);
                seen.lemma_filter_push(id@, there);
                lemma_filter(seen, there);
                assert(!seen.contains(id@)) by {
                    if seen.contains(id@) {
                        let j = choose|j: int| 0 <= j < seen.len() && seen[j] == id@;
                        assert(all[j] == all[i as int]);
                    }
                }
            }
            if mounted.contains(id) {
                kept.insert(id.clone());
            } else {
                dead.push(id.clone());
                assert(dead.deep_view() =~= before.push(id@));
            }
            i += 1;
        }
        assert(all.take(all.len() as int) =~= all);
        self.map = kept;
        dead
    }
}

} // verus!
