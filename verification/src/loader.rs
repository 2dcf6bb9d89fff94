//! From the text of a unit file to the lists of a unit.

use vstd::prelude::*;

use crate::text::{entries, entries_of, Sep};
use crate::unit::{Deps, UnitDeps, UnitId};

verus! {

/// The names that `s` lists: the pieces between its commas, without the
/// white space around them, those that are empty left out.
pub open spec fn listed(s: Seq<char>) -> Seq<Seq<char>> {
    entries(s, Sep::Char(','))
}

/// The units that `s` lists, separated by commas. White space around a
/// name does not belong to it, and an empty piece names no unit.
pub fn str_to_unitentrys(s: &str) -> (units: Vec<UnitId>)
    ensures
        units.deep_view() == listed(s@),
{
    let found = entries_of(s, Sep::Char(','));
    let mut units: Vec<UnitId> = Vec::new();
    let mut i: usize = 0;
    while i < found.len()
        invariant
            i <= found.len(),
            units.deep_view() =~= found.deep_view().take(i as int),
        decreases found.len() - i,
    {
        let ghost before = units.deep_view();
        let unit = UnitId::new(found[i].as_str());
        units.push(unit);
        assert(units.deep_view() =~= before.push(found.deep_view()[i as int]));
        i += 1;
    }
    assert(found.deep_view().take(found.len() as int) =~= found.deep_view());
    units
}

/// The empty text.
pub fn empty_str() -> (s: String)
    ensures
        s@ == Seq::<char>::empty(),
{
    String::new()
}

/// The lists of a unit that names nobody.
pub fn empty_dep() -> (deps: UnitDeps)
    ensures
        deps.deep_view() == Deps::none(),
{
    UnitDeps::new()
}

impl UnitDeps {
    /// The lists that five lines of a unit file give, each a list of names
    /// separated by commas.
    pub fn from_strs(needs: &str, wants: &str, before: &str, after: &str, conflicts: &str) -> (deps:
        UnitDeps)
        ensures
            deps.deep_view() == (Deps {
                requires: listed(needs@),
                wants: listed(wants@),
                after: listed(after@),
                before: listed(before@),
                conflicts: listed(conflicts@),
            }),
    {
        let needs = str_to_unitentrys(needs);
        let wants = str_to_unitentrys(wants);
        let before = str_to_unitentrys(before);
        let after = str_to_unitentrys(after);
        let conflicts = str_to_unitentrys(conflicts);
        UnitDeps { requires: needs, wants, after, before, conflicts }
    }
}

} // verus!
