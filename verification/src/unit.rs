//! Unit identities and the ordered sets of them that the actors keep.

use vstd::prelude::*;

use crate::state::State;

verus! {

/// The identity of a unit: its name. Two identities are the same unit when
/// their names are the same text.
#[derive(Debug)]
pub struct UnitId {
    name: String,
}

impl View for UnitId {
    type V = Seq<char>;

    closed spec fn view(&self) -> Seq<char> {
        self.name@
    }
}

impl DeepView for UnitId {
    type V = Seq<char>;

    open spec fn deep_view(&self) -> Seq<char> {
        self@
    }
}

impl UnitId {
    /// The identity of the unit called `name`.
    pub fn new(name: &str) -> (id: UnitId)
        ensures
            id@ == name@,
    {
        UnitId { name: name.to_owned() }
    }

    /// The unit's name.
    pub fn name(&self) -> (name: &str)
        ensures
            name@ == self@,
    {
        self.name.as_str()
    }

    /// Whether both identities name the same unit.
    pub fn same(&self, other: &UnitId) -> (r: bool)
        ensures
            r == (self@ == other@),
    {
        self.name == other.name
    }
}

impl Clone for UnitId {
    fn clone(&self) -> (id: UnitId)
        ensures
            id@ == self@,
    {
        UnitId { name: self.name.clone() }
    }
}

impl PartialEq for UnitId {
    fn eq(&self, other: &UnitId) -> (r: bool) {
        self.name == other.name
    }
}

impl vstd::std_specs::cmp::PartialEqSpecImpl for UnitId {
    open spec fn obeys_eq_spec() -> bool {
        true
    }

    open spec fn eq_spec(&self, other: &UnitId) -> bool {
        self@ == other@
    }
}

impl Eq for UnitId {}

/// A copy of a list of identities.
pub fn dup_ids(ids: &Vec<UnitId>) -> (copy: Vec<UnitId>)
    ensures
        copy.deep_view() == ids.deep_view(),
{
    let mut copy: Vec<UnitId> = Vec::new();
    let mut i: usize = 0;
    while i < ids.len()
        invariant
            i <= ids.len(),
            copy.deep_view() =~= ids.deep_view().take(i as int),
        decreases ids.len() - i,
    {
        let ghost before = copy.deep_view();
        let id = ids[i].clone();
        copy.push(id);
        assert(copy.deep_view() =~= before.push(ids.deep_view()[i as int]));
        i += 1;
    }
    assert(ids.deep_view().take(ids.len() as int) =~= ids.deep_view());
    copy
}

/// What sort of thing a unit manages.
#[derive(Clone, Copy, Debug, Hash, PartialEq, Eq, Structural)]
pub enum UnitKind {
    Service,
    Timer,
    Mount,
    Target,
    Socket,
}

impl DeepView for UnitKind {
    type V = UnitKind;

    open spec fn deep_view(&self) -> UnitKind {
        *self
    }
}

impl UnitKind {
    /// The kind's name, which is also the suffix of a unit's file.
    pub open spec fn label(self) -> Seq<char> {
        match self {
            UnitKind::Service => "service"@,
            UnitKind::Timer => "timer"@,
            UnitKind::Mount => "mount"@,
            UnitKind::Target => "target"@,
            UnitKind::Socket => "socket"@,
        }
    }

    /// The kind's name.
    pub fn name(&self) -> (r: &'static str)
        ensures
            r@ == self.label(),
    {
        match self {
            UnitKind::Service => "service",
            UnitKind::Timer => "timer",
            UnitKind::Mount => "mount",
            UnitKind::Target => "target",
            UnitKind::Socket => "socket",
        }
    }

    /// The kind's name as an owned string.
    pub fn to_string(&self) -> (r: String)
        ensures
            r@ == self.label(),
    {
        self.name().to_owned()
    }
}

/// The five dependency lists of a unit, as names.
pub struct Deps {
    pub requires: Seq<Seq<char>>,
    pub wants: Seq<Seq<char>>,
    pub after: Seq<Seq<char>>,
    pub before: Seq<Seq<char>>,
    pub conflicts: Seq<Seq<char>>,
}

impl Deps {
    /// No dependency at all.
    pub open spec fn none() -> Deps {
        Deps {
            requires: Seq::empty(),
            wants: Seq::empty(),
            after: Seq::empty(),
            before: Seq::empty(),
            conflicts: Seq::empty(),
        }
    }
}

/// What a unit declares about other units.
///
/// `requires` and `wants` pull the peer in when the unit is started, the
/// first strictly and the second as far as it goes; `after` and `before`
/// order starts and pull nothing in; `conflicts` names peers that must not
/// run beside the unit.
#[derive(Debug)]
pub struct UnitDeps {
    pub requires: Vec<UnitId>,
    pub wants: Vec<UnitId>,
    pub after: Vec<UnitId>,
    pub before: Vec<UnitId>,
    pub conflicts: Vec<UnitId>,
}

impl DeepView for UnitDeps {
    type V = Deps;

    open spec fn deep_view(&self) -> Deps {
        Deps {
            requires: self.requires.deep_view(),
            wants: self.wants.deep_view(),
            after: self.after.deep_view(),
            before: self.before.deep_view(),
            conflicts: self.conflicts.deep_view(),
        }
    }
}

impl UnitDeps {
    /// No dependency at all.
    pub fn new() -> (deps: UnitDeps)
        ensures
            deps.deep_view() == Deps::none(),
    {
        let deps = UnitDeps {
            requires: Vec::new(),
            wants: Vec::new(),
            after: Vec::new(),
            before: Vec::new(),
            conflicts: Vec::new(),
        };
        assert(deps.requires.deep_view() =~= Seq::<Seq<char>>::empty());
        deps
    }

    /// A copy of the lists.
    pub fn dup(&self) -> (deps: UnitDeps)
        ensures
            deps.deep_view() == self.deep_view(),
    {
        UnitDeps {
            requires: dup_ids(&self.requires),
            wants: dup_ids(&self.wants),
            after: dup_ids(&self.after),
            before: dup_ids(&self.before),
            conflicts: dup_ids(&self.conflicts),
        }
    }
}

impl Default for UnitDeps {
    fn default() -> (deps: UnitDeps)
        ensures
            deps.deep_view() == Deps::none(),
    {
        UnitDeps::new()
    }
}

/// What every unit has, as plain values.
pub struct Common {
    pub name: Seq<char>,
    pub description: Seq<char>,
    pub documentation: Seq<char>,
    pub deps: Deps,
}

/// What every unit has, whatever its kind.
#[derive(Debug)]
pub struct UnitCommon {
    pub name: String,
    pub description: String,
    pub documentation: String,
    pub deps: UnitDeps,
}

impl DeepView for UnitCommon {
    type V = Common;

    open spec fn deep_view(&self) -> Common {
        Common {
            name: self.name@,
            description: self.description@,
            documentation: self.documentation@,
            deps: self.deps.deep_view(),
        }
    }
}

impl UnitCommon {
    /// A copy.
    pub fn dup(&self) -> (common: UnitCommon)
        ensures
            common.deep_view() == self.deep_view(),
    {
        UnitCommon {
            name: self.name.clone(),
            description: self.description.clone(),
            documentation: self.documentation.clone(),
            deps: self.deps.dup(),
        }
    }
}

/// A unit's description as the engine reads it, as plain values.
pub struct Desc {
    pub common: Common,
    pub kind: UnitKind,
}

/// A unit as the engine sees it: what is common to all units, and the kind.
/// What the kind's backend needs beyond that stays with the backend.
#[derive(Debug)]
pub struct UnitDesc {
    pub common: UnitCommon,
    pub kind: UnitKind,
}

impl DeepView for UnitDesc {
    type V = Desc;

    open spec fn deep_view(&self) -> Desc {
        Desc { common: self.common.deep_view(), kind: self.kind }
    }
}

impl UnitDesc {
    /// The unit's identity.
    pub fn id(&self) -> (id: UnitId)
        ensures
            id@ == self.common.name@,
    {
        UnitId { name: self.common.name.clone() }
    }

    /// A copy.
    pub fn dup(&self) -> (desc: UnitDesc)
        ensures
            desc.deep_view() == self.deep_view(),
    {
        UnitDesc { common: self.common.dup(), kind: self.kind }
    }
}

/// A unit of one kind: what is common to all units, and what its backend
/// needs.
#[derive(Debug)]
pub struct UnitImpl<KindImpl> {
    pub common: UnitCommon,
    pub sub: KindImpl,
}

impl<KindImpl> UnitImpl<KindImpl> {
    /// The unit's name.
    pub fn name(&self) -> (r: &str)
        ensures
            r@ == self.common.name@,
    {
        self.common.name.as_str()
    }

    /// What the unit is, in a sentence.
    pub fn description(&self) -> (r: &str)
        ensures
            r@ == self.common.description@,
    {
        self.common.description.as_str()
    }

    /// Where to read more about the unit.
    pub fn documentation(&self) -> (r: &str)
        ensures
            r@ == self.common.documentation@,
    {
        self.common.documentation.as_str()
    }

    /// The unit's dependency lists.
    pub fn deps(&self) -> (r: &UnitDeps)
        ensures
            r == &self.common.deps,
    {
        &self.common.deps
    }

    /// The unit's identity.
    pub fn id(&self) -> (id: UnitId)
        ensures
            id@ == self.common.name@,
    {
        UnitId { name: self.common.name.clone() }
    }

    /// The unit as the engine sees it, given its kind.
    pub fn desc(&self, kind: UnitKind) -> (desc: UnitDesc)
        ensures
            desc.deep_view() == (Desc { common: self.common.deep_view(), kind }),
    {
        UnitDesc { common: self.common.dup(), kind }
    }
}

/// What a running backend reports to the guard that owns it.
#[derive(Debug)]
pub enum RtMsg {
    /// Nothing of note; ask again.
    Yield,
    /// The unit has left the running state for the given one.
    Exit(State),
    /// The named unit is to be started on this unit's behalf.
    TriggerStart(UnitId),
}

/// A backend report, as plain values.
pub enum Report {
    Yield,
    Exit(State),
    TriggerStart(Seq<char>),
}

impl DeepView for RtMsg {
    type V = Report;

    open spec fn deep_view(&self) -> Report {
        match self {
            RtMsg::Yield => Report::Yield,
            RtMsg::Exit(s) => Report::Exit(*s),
            RtMsg::TriggerStart(id) => Report::TriggerStart(id@),
        }
    }
}

} // verus!
