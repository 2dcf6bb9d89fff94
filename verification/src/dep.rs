//! The dependency resolver.
//!
//! It keeps two tables. The reverse graph says of each unit who depends on
//! it. The start list says of each unit that waits to be started what
//! still blocks it. Every change of a unit's state is looked up in the
//! first and carried out on the second.

use vstd::prelude::*;

use crate::guard::{has_live, Guard, GuardStore};
use crate::idset::{lemma_with, lemma_without, with, without, UnitSet};
use crate::state::State;
use crate::state_store::{StateStore, States};
use crate::store::UnitStore;
use crate::table::Table;
use crate::unit::{Deps, UnitDeps, UnitId};

verus! {

/// One of the four relations that the resolver follows.
#[derive(Clone, Copy, Debug, PartialEq, Eq, Structural)]
pub enum Edge {
    Requires,
    Wants,
    After,
    Conflicts,
}

/// The members of `s`, each once, in the order of their first occurrence.
pub open spec fn unique(s: Seq<Seq<char>>) -> Seq<Seq<char>>
    decreases s.len(),
{
    if s.len() == 0 {
        Seq::empty()
    } else {
        with(unique(s.drop_last()), s.last())
    }
}

/// `unique` yields the same members, without repetition.
pub proof fn lemma_unique(s: Seq<Seq<char>>)
    ensures
        unique(s).no_duplicates(),
        forall|x: Seq<char>| #[trigger] unique(s).contains(x) <==> s.contains(x),
    decreases s.len(),
{
    if s.len() > 0 {
        let t = s.drop_last();
        let u = unique(t);
        lemma_unique(t);
        assert forall|x: Seq<char>| #[trigger] unique(s).contains(x) <==> s.contains(x) by {
            if unique(s).contains(x) {
                let j = choose|j: int| 0 <= j < unique(s).len() && unique(s)[j] == x;
                if j < u.len() {
                    assert(u[j] == x);
                    assert(u.contains(x));
                    let k = choose|k: int| 0 <= k < t.len() && t[k] == x;
                    assert(s[k] == x);
                } else {
                    assert(s[s.len() - 1] == x);
                }
            }
            if s.contains(x) {
                let k = choose|k: int| 0 <= k < s.len() && s[k] == x;
                if k < t.len() {
                    assert(t[k] == x);
                    assert(u.contains(x));
                    let j = choose|j: int| 0 <= j < u.len() && u[j] == x;
                    assert(unique(s)[j] == x);
                } else if !u.contains(x) {
                    assert(unique(s)[u.len() as int] == x);
                }
            }
        }
    }
}

/// What still blocks a unit's start, as names.
pub struct Waiter {
    pub requires: Seq<Seq<char>>,
    pub wants: Seq<Seq<char>>,
    pub after: Seq<Seq<char>>,
    pub conflicts: Seq<Seq<char>>,
}

impl Waiter {
    /// The blockers along `edge`.
    pub open spec fn get(self, edge: Edge) -> Seq<Seq<char>> {
        match edge {
            Edge::Requires => self.requires,
            Edge::Wants => self.wants,
            Edge::After => self.after,
            Edge::Conflicts => self.conflicts,
        }
    }

    /// Nothing blocks the start.
    pub open spec fn ready(self) -> bool {
        self.requires.len() == 0 && self.wants.len() == 0 && self.after.len() == 0
            && self.conflicts.len() == 0
    }

    /// The waiter without the blocker `id` along `edge`.
    pub open spec fn clear(self, edge: Edge, id: Seq<char>) -> Waiter {
        match edge {
            Edge::Requires => Waiter { requires: without(self.requires, id), ..self },
            Edge::Wants => Waiter { wants: without(self.wants, id), ..self },
            Edge::After => Waiter { after: without(self.after, id), ..self },
            Edge::Conflicts => Waiter { conflicts: without(self.conflicts, id), ..self },
        }
    }
}

/// What blocks a unit that waits to be started.
///
/// Each set only shrinks; when all four are empty the unit is let go.
#[derive(Debug)]
pub struct DepInfo {
    requires: UnitSet,
    wants: UnitSet,
    after: UnitSet,
    conflicts: UnitSet,
}

impl DeepView for DepInfo {
    type V = Waiter;

    closed spec fn deep_view(&self) -> Waiter {
        Waiter {
            requires: self.requires@,
            wants: self.wants@,
            after: self.after@,
            conflicts: self.conflicts@,
        }
    }
}

/// The names in `ids`, each once.
fn set_of(ids: &Vec<UnitId>) -> (set: UnitSet)
    ensures
        set@ == unique(ids.deep_view()),
{
    let mut set = UnitSet::new();
    let mut i: usize = 0;
    while i < ids.len()
        invariant
            i <= ids.len(),
            set@ == unique(ids.deep_view().take(i as int)),
        decreases ids.len() - i,
    {
        let ghost t = ids.deep_view().take(i as int);
        let ghost x = ids.deep_view()[i as int];
        assert(ids.deep_view().take(i + 1).drop_last() =~= t);
        set.insert(ids[i].clone());
        i += 1;
    }
    assert(ids.deep_view().take(ids.len() as int) =~= ids.deep_view());
    set
}

impl DepInfo {
    /// Everything that `value` names as a possible blocker, before any of
    /// it has been found to be out of the way.
    pub fn from(value: &UnitDeps) -> (info: DepInfo)
        ensures
            info.deep_view() == (Waiter {
                requires: unique(value.deep_view().requires),
                wants: unique(value.deep_view().wants),
                after: unique(value.deep_view().after),
                conflicts: unique(value.deep_view().conflicts),
            }),
    {
        DepInfo {
            requires: set_of(&value.requires),
            wants: set_of(&value.wants),
            after: set_of(&value.after),
            conflicts: set_of(&value.conflicts),
        }
    }

    /// The blockers along `edge`.
    pub fn get(&self, edge: Edge) -> (set: &UnitSet)
        ensures
            set@ == self.deep_view().get(edge),
    {
        match edge {
            Edge::Requires => &self.requires,
            Edge::Wants => &self.wants,
            Edge::After => &self.after,
            Edge::Conflicts => &self.conflicts,
        }
    }

    /// Whether nothing blocks the start any more.
    pub fn can_start(&self) -> (r: bool)
        ensures
            r == self.deep_view().ready(),
    {
        self.after.is_empty() && self.requires.is_empty() && self.wants.is_empty()
            && self.conflicts.is_empty()
    }

    /// Takes the blocker `id` along `edge` out.
    pub fn clear(&mut self, edge: Edge, id: &UnitId)
        ensures
            final(self).deep_view() == old(self).deep_view().clear(edge, id@),
    {
        match edge {
            Edge::Requires => {
                self.requires.remove(id);
            },
            Edge::Wants => {
                self.wants.remove(id);
            },
            Edge::After => {
                self.after.remove(id);
            },
            Edge::Conflicts => {
                self.conflicts.remove(id);
            },
        }
    }
}

/// Who depends on a unit, as names.
pub struct Reverse {
    pub required_by: Seq<Seq<char>>,
    pub wanted_by: Seq<Seq<char>>,
    pub before: Seq<Seq<char>>,
    pub conflicts: Seq<Seq<char>>,
}

impl Reverse {
    /// Nobody.
    pub open spec fn none() -> Reverse {
        Reverse {
            required_by: Seq::empty(),
            wanted_by: Seq::empty(),
            before: Seq::empty(),
            conflicts: Seq::empty(),
        }
    }

    /// Nobody depends on the unit.
    pub open spec fn vacant(self) -> bool {
        self.required_by.len() == 0 && self.wanted_by.len() == 0 && self.before.len() == 0
            && self.conflicts.len() == 0
    }

    /// Those who name the unit along `edge`.
    pub open spec fn get(self, edge: Edge) -> Seq<Seq<char>> {
        match edge {
            Edge::Requires => self.required_by,
            Edge::Wants => self.wanted_by,
            Edge::After => self.before,
            Edge::Conflicts => self.conflicts,
        }
    }

    /// Those that are to start after the unit and also require or want
    /// it, in the order in which they were noted as to start after it.
    pub open spec fn followers(self) -> Seq<Seq<char>> {
        self.before.filter(member_of_either(self.required_by, self.wanted_by))
    }

    /// Those that are to start after the unit and also conflict with it,
    /// in the order in which they were noted as to start after it.
    pub open spec fn rivals_behind(self) -> Seq<Seq<char>> {
        self.before.filter(member_of(self.conflicts))
    }

    /// The same with `s` as those who name the unit along `edge`.
    pub open spec fn put(self, edge: Edge, s: Seq<Seq<char>>) -> Reverse {
        match edge {
            Edge::Requires => Reverse { required_by: s, ..self },
            Edge::Wants => Reverse { wanted_by: s, ..self },
            Edge::After => Reverse { before: s, ..self },
            Edge::Conflicts => Reverse { conflicts: s, ..self },
        }
    }
}

/// Who depends on a unit: those that require it, those that want it, those
/// that are to start after it, and those that conflict with it.
///
/// That the unit itself is to start after others is not kept here: it
/// blocks the unit, not the others, and stands in the unit's own waiter.
#[derive(Debug)]
pub struct ReverseDepInfo {
    required_by: UnitSet,
    wanted_by: UnitSet,
    before: UnitSet,
    conflicts: UnitSet,
}

impl DeepView for ReverseDepInfo {
    type V = Reverse;

    closed spec fn deep_view(&self) -> Reverse {
        Reverse {
            required_by: self.required_by@,
            wanted_by: self.wanted_by@,
            before: self.before@,
            conflicts: self.conflicts@,
        }
    }
}

impl Default for ReverseDepInfo {
    fn default() -> (info: ReverseDepInfo)
        ensures
            info.deep_view() == Reverse::none(),
    {
        ReverseDepInfo {
            required_by: UnitSet::new(),
            wanted_by: UnitSet::new(),
            before: UnitSet::new(),
            conflicts: UnitSet::new(),
        }
    }
}

impl ReverseDepInfo {
    /// Whether nobody depends on the unit.
    pub fn is_empty(&self) -> (r: bool)
        ensures
            r == self.deep_view().vacant(),
    {
        self.required_by.is_empty() && self.wanted_by.is_empty() && self.before.is_empty()
            && self.conflicts.is_empty()
    }

    /// Those who name the unit along `edge`.
    pub fn get(&self, edge: Edge) -> (set: &UnitSet)
        ensures
            set@ == self.deep_view().get(edge),
    {
        match edge {
            Edge::Requires => &self.required_by,
            Edge::Wants => &self.wanted_by,
            Edge::After => &self.before,
            Edge::Conflicts => &self.conflicts,
        }
    }

    /// Those that are to start after the unit and also require or want
    /// it, if `wanted` is set, or also conflict with it, if it is not.
    fn behind(&self, wanted: bool) -> (peers: UnitSet)
        ensures
            peers@ == if wanted {
                self.deep_view().followers()
            } else {
                self.deep_view().rivals_behind()
            },
    {
        let mut peers = UnitSet::new();
        let ghost pred = if wanted {
            member_of_either(self.required_by@, self.wanted_by@)
        } else {
            member_of(self.conflicts@)
        };
        let ghost all = self.before@;
        proof {
            use_type_invariant(&self.before);
            reveal(Seq::filter);
            assert(all.take(0).filter(pred) =~= Seq::<Seq<char>>::empty());
        }
        let mut i: usize = 0;
        while i < self.before.len()
            invariant
                i <= all.len(),
                all == self.before@,
                all.no_duplicates(),
                pred == if wanted {
                    member_of_either(self.required_by@, self.wanted_by@)
                } else {
                    member_of(self.conflicts@)
                },
                peers@ == all.take(i as int).filter(pred),
            decreases all.len() - i,
        {
            let p = self.before.get(i);
            let touched = if wanted {
                self.required_by.contains(p) || self.wanted_by.contains(p)
            } else {
                self.conflicts.contains(p)
            };
            proof {
                let seen = all.take(i as int);
                assert(all.take(i + 1) =~= seen.push(p@));
                seen.lemma_filter_push(p@, pred);
                crate::idset::lemma_filter(seen, pred);
                assert(!seen.contains(p@)) by {
                    if seen.contains(p@) {
                        let j = choose|j: int| 0 <= j < seen.len() && seen[j] == p@;
                        assert(all[j] == all[i as int]);
                    }
                }
            }
            if touched {
                peers.insert(p.clone());
            }
            i += 1;
        }
        assert(all.take(all.len() as int) =~= all);
        peers
    }

    /// Those that are to start after the unit and also require or want it.
    pub fn followers(&self) -> (peers: UnitSet)
        ensures
            peers@ == self.deep_view().followers(),
    {
        self.behind(true)
    }

    /// Those that are to start after the unit and also conflict with it.
    pub fn rivals_behind(&self) -> (peers: UnitSet)
        ensures
            peers@ == self.deep_view().rivals_behind(),
    {
        self.behind(false)
    }

    /// Notes that `id` names the unit along `edge`.
    pub fn link(&mut self, edge: Edge, id: UnitId)
        ensures
            final(self).deep_view() == old(self).deep_view().put(
                edge,
                with(old(self).deep_view().get(edge), id@),
            ),
    {
        match edge {
            Edge::Requires => {
                self.required_by.insert(id);
            },
            Edge::Wants => {
                self.wanted_by.insert(id);
            },
            Edge::After => {
                self.before.insert(id);
            },
            Edge::Conflicts => {
                self.conflicts.insert(id);
            },
        }
    }

    /// Notes that `id` no longer names the unit along `edge`.
    pub fn unlink(&mut self, edge: Edge, id: &UnitId)
        ensures
            final(self).deep_view() == old(self).deep_view().put(
                edge,
                without(old(self).deep_view().get(edge), id@),
            ),
    {
        match edge {
            Edge::Requires => {
                self.required_by.remove(id);
            },
            Edge::Wants => {
                self.wanted_by.remove(id);
            },
            Edge::After => {
                self.before.remove(id);
            },
            Edge::Conflicts => {
                self.conflicts.remove(id);
            },
        }
    }
}

/// The entry of `v` in the reverse graph; nobody, if it has none.
pub open spec fn entry(rev: Map<Seq<char>, Reverse>, v: Seq<char>) -> Reverse {
    if rev.contains_key(v) {
        rev[v]
    } else {
        Reverse::none()
    }
}

/// The reverse graph after `unit0` was noted with each member of `src` as
/// naming it along `edge`. Entries are made where there were none.
pub open spec fn linked(
    rev: Map<Seq<char>, Reverse>,
    src: Seq<Seq<char>>,
    unit0: Seq<char>,
    edge: Edge,
) -> Map<Seq<char>, Reverse> {
    Map::new(
        |v: Seq<char>| rev.contains_key(v) || src.contains(v),
        |v: Seq<char>|
            if src.contains(v) {
                entry(rev, v).put(edge, with(entry(rev, v).get(edge), unit0))
            } else {
                rev[v]
            },
    )
}

/// The entry of `v` once `unit0` no longer names it along `edge`.
pub open spec fn loosened(rev: Map<Seq<char>, Reverse>, v: Seq<char>, unit0: Seq<char>, edge: Edge)
    -> Reverse {
    rev[v].put(edge, without(rev[v].get(edge), unit0))
}

/// The reverse graph after `unit0` was struck from each member of `src`
/// as naming it along `edge`. Entries that this leaves empty are dropped.
pub open spec fn unlinked(
    rev: Map<Seq<char>, Reverse>,
    src: Seq<Seq<char>>,
    unit0: Seq<char>,
    edge: Edge,
) -> Map<Seq<char>, Reverse> {
    Map::new(
        |v: Seq<char>|
            rev.contains_key(v) && !(src.contains(v) && loosened(rev, v, unit0, edge).vacant()),
        |v: Seq<char>|
            if src.contains(v) {
                loosened(rev, v, unit0, edge)
            } else {
                rev[v]
            },
    )
}

/// Notes `unit0` with each unit of `src` as naming it along `edge`.
pub fn reverse_map_insert(
    unit0: &UnitId,
    src: &Vec<UnitId>,
    target: &mut Table<ReverseDepInfo>,
    edge: Edge,
)
    ensures
        final(target)@ == linked(old(target)@, src.deep_view(), unit0@, edge),
{
    let ghost names = src.deep_view();
    let ghost start = target@;
    let mut i: usize = 0;
    assert(target@ =~= linked(start, names.take(0), unit0@, edge));
    while i < src.len()
        invariant
            i <= src.len(),
            names == src.deep_view(),
            target@ == linked(start, names.take(i as int), unit0@, edge),
        decreases src.len() - i,
    {
        let ghost seen = names.take(i as int);
        let ghost now = target@;
        let ghost v = names[i as int];
        let unit = &src[i];
        let mut item = match target.remove(unit) {
            Some(item) => item,
            None => ReverseDepInfo::default(),
        };
        item.link(edge, unit0.clone());
        target.insert(unit.clone(), item);
        proof {
            let grown = names.take(i + 1);
            assert(grown =~= seen.push(v));
            assert forall|x: Seq<char>| grown.contains(x) <==> seen.contains(x) || x == v by {
                if grown.contains(x) {
                    let j = choose|j: int| 0 <= j < grown.len() && grown[j] == x;
                    if j < seen.len() {
                        assert(seen[j] == x);
                    }
                }
                if seen.contains(x) {
                    let j = choose|j: int| 0 <= j < seen.len() && seen[j] == x;
                    assert(grown[j] == x);
                }
                assert(grown[i as int] == v);
            }
            let held = entry(start, v).get(edge);
            assert(with(held, unit0@).contains(unit0@)) by {
                if !held.contains(unit0@) {
                    assert(held.push(unit0@)[held.len() as int] == unit0@);
                }
            }
            assert(target@ =~= linked(start, grown, unit0@, edge));
        }
        i += 1;
    }
    assert(names.take(src.len() as int) =~= names);
}

/// Strikes `unit0` from each unit of `src` as naming it along `edge`, and
/// drops the entries that are left empty.
pub fn reverse_map_remove(
    unit0: &UnitId,
    src: &Vec<UnitId>,
    target: &mut Table<ReverseDepInfo>,
    edge: Edge,
)
    ensures
        final(target)@ == unlinked(old(target)@, src.deep_view(), unit0@, edge),
{
    let ghost names = src.deep_view();
    let ghost start = target@;
    let mut i: usize = 0;
    assert(target@ =~= unlinked(start, names.take(0), unit0@, edge));
    while i < src.len()
        invariant
            i <= src.len(),
            names == src.deep_view(),
            target@ == unlinked(start, names.take(i as int), unit0@, edge),
        decreases src.len() - i,
    {
        let ghost seen = names.take(i as int);
        let ghost v = names[i as int];
        let unit = &src[i];
        match target.remove(unit) {
            Some(item) => {
                let mut item = item;
                item.unlink(edge, unit0);
                if !item.is_empty() {
                    target.insert(unit.clone(), item);
                }
            },
            None => {},
        }
        proof {
            let grown = names.take(i + 1);
            assert(grown =~= seen.push(v));
            assert forall|x: Seq<char>| grown.contains(x) <==> seen.contains(x) || x == v by {
                if grown.contains(x) {
                    let j = choose|j: int| 0 <= j < grown.len() && grown[j] == x;
                    if j < seen.len() {
                        assert(seen[j] == x);
                    }
                }
                if seen.contains(x) {
                    let j = choose|j: int| 0 <= j < seen.len() && seen[j] == x;
                    assert(grown[j] == x);
                }
                assert(grown[i as int] == v);
            }
            if seen.contains(v) && start.contains_key(v) {
                let r = start[v];
                let once = loosened(start, v, unit0@, edge);
                lemma_without(r.get(edge), unit0@);
                crate::idset::lemma_without_absent(once.get(edge), unit0@);
            }
            assert(target@ =~= unlinked(start, grown, unit0@, edge));
        }
        i += 1;
    }
    assert(names.take(src.len() as int) =~= names);
}

/// What the resolver sends to the guard registry, as plain values.
pub enum Notice {
    DepsReady(Seq<char>),
    DepsFailed(Seq<char>),
    Stop(Seq<char>),
}

/// What the resolver sends to the guard registry.
#[derive(Debug)]
pub enum DepOut {
    /// Nothing blocks the start of this unit any more.
    DepsReady(UnitId),
    /// A unit that this one requires has failed: it is not to start.
    DepsFailed(UnitId),
    /// This unit is to be stopped.
    Stop(UnitId),
}

impl DeepView for DepOut {
    type V = Notice;

    open spec fn deep_view(&self) -> Notice {
        match self {
            DepOut::DepsReady(id) => Notice::DepsReady(id@),
            DepOut::DepsFailed(id) => Notice::DepsFailed(id@),
            DepOut::Stop(id) => Notice::Stop(id@),
        }
    }
}

/// The three things that the resolver says about a unit.
#[derive(Clone, Copy, Debug, PartialEq, Eq, Structural)]
pub enum Word {
    Ready,
    Failed,
    Stop,
}

/// The notice that says `word` about a unit.
pub open spec fn say(word: Word) -> spec_fn(Seq<char>) -> Notice {
    |id: Seq<char>|
        match word {
            Word::Ready => Notice::DepsReady(id),
            Word::Failed => Notice::DepsFailed(id),
            Word::Stop => Notice::Stop(id),
        }
}

/// The condition of being a member of `a`.
pub open spec fn member_of(a: Seq<Seq<char>>) -> spec_fn(Seq<char>) -> bool {
    |p: Seq<char>| a.contains(p)
}

/// The condition of being a member of `a` or of `b`.
pub open spec fn member_of_either(a: Seq<Seq<char>>, b: Seq<Seq<char>>) -> spec_fn(
    Seq<char>,
) -> bool {
    |p: Seq<char>| a.contains(p) || b.contains(p)
}

/// The condition of waiting with `id` as a conflict that blocks.
pub open spec fn waits_on_conflict(start: Map<Seq<char>, Waiter>, id: Seq<char>) -> spec_fn(
    Seq<char>,
) -> bool {
    |p: Seq<char>| start.contains_key(p) && start[p].conflicts.contains(id)
}

/// The condition of waiting with nothing left to block once `id` is out of
/// the way along `edge`.
pub open spec fn lets_go(start: Map<Seq<char>, Waiter>, edge: Edge, id: Seq<char>) -> spec_fn(
    Seq<char>,
) -> bool {
    |p: Seq<char>| start.contains_key(p) && start[p].clear(edge, id).ready()
}

/// Those of `peers` that are let go when `id` gets out of their way along
/// `edge`, in the order of `peers`.
pub open spec fn released(
    start: Map<Seq<char>, Waiter>,
    peers: Seq<Seq<char>>,
    edge: Edge,
    id: Seq<char>,
) -> Seq<Seq<char>> {
    peers.filter(lets_go(start, edge, id))
}

/// The start list after `id` got out of the way of `peers` along `edge`:
/// their waiters no longer name it, and those that name nothing any more
/// are gone.
pub open spec fn relieved(
    start: Map<Seq<char>, Waiter>,
    peers: Seq<Seq<char>>,
    edge: Edge,
    id: Seq<char>,
) -> Map<Seq<char>, Waiter> {
    Map::new(
        |p: Seq<char>|
            start.contains_key(p) && !(peers.contains(p) && start[p].clear(edge, id).ready()),
        |p: Seq<char>|
            if peers.contains(p) {
                start[p].clear(edge, id)
            } else {
                start[p]
            },
    )
}

/// Whether a peer named along `edge` blocks a start as things stand: a
/// required peer as long as it has no guard at work; a wanted peer as long
/// as it is loaded and has no guard at work; a peer to start after as long
/// as it is loaded and not active; a conflicting peer as long as it has a
/// guard at work. A wanted peer or a peer to start after that is not loaded
/// is not waited for.
pub open spec fn blocks(
    edge: Edge,
    loaded: Set<Seq<char>>,
    guards: Map<Seq<char>, Guard>,
    states: States,
) -> spec_fn(Seq<char>) -> bool {
    |p: Seq<char>|
        match edge {
            Edge::Requires => !has_live(guards, p),
            Edge::Wants => loaded.contains(p) && !has_live(guards, p),
            Edge::After => loaded.contains(p) && states.get(p) != State::Active,
            Edge::Conflicts => has_live(guards, p),
        }
}

/// Whether a unit with the lists `deps` requires a unit that is not
/// loaded.
pub open spec fn lacks(deps: Deps, loaded: Set<Seq<char>>) -> bool {
    exists|p: Seq<char>| #[trigger] deps.requires.contains(p) && !loaded.contains(p)
}

/// What blocks the start of a unit with the lists `deps` as things stand.
pub open spec fn blockers(
    deps: Deps,
    loaded: Set<Seq<char>>,
    guards: Map<Seq<char>, Guard>,
    states: States,
) -> Waiter {
    Waiter {
        requires: unique(deps.requires).filter(blocks(Edge::Requires, loaded, guards, states)),
        wants: unique(deps.wants).filter(blocks(Edge::Wants, loaded, guards, states)),
        after: unique(deps.after).filter(blocks(Edge::After, loaded, guards, states)),
        conflicts: unique(deps.conflicts).filter(blocks(Edge::Conflicts, loaded, guards, states)),
    }
}

/// Whether a unit with the lists `deps` requires a unit that is not
/// loaded.
fn lacking(deps: &UnitDeps, units: &UnitStore) -> (r: bool)
    ensures
        r == lacks(deps.deep_view(), units@.dom()),
{
    let ghost needs = deps.deep_view().requires;
    let mut i: usize = 0;
    while i < deps.requires.len()
        invariant
            i <= deps.requires.len(),
            needs == deps.requires.deep_view(),
            forall|j: int| 0 <= j < i ==> units@.dom().contains(#[trigger] needs[j]),
        decreases deps.requires.len() - i,
    {
        if !units.contains(&deps.requires[i]) {
            proof {
                let p = needs[i as int];
                assert(p == deps.requires[i as int]@);
                assert(deps.deep_view().requires.contains(p) && !units@.dom().contains(p));
            }
            return true;
        }
        i += 1;
    }
    assert forall|p: Seq<char>| #[trigger] needs.contains(p) implies units@.dom().contains(p) by {
        let j = choose|j: int| 0 <= j < needs.len() && needs[j] == p;
        assert(units@.dom().contains(needs[j]));
    }
    false
}

/// The members of `set` that block a start along `edge` as things stand.
fn still_blocking(
    set: &UnitSet,
    edge: Edge,
    units: &UnitStore,
    guards: &GuardStore,
    states: &StateStore,
) -> (kept: UnitSet)
    ensures
        kept@ == set@.filter(blocks(edge, units@.dom(), guards@, states@)),
{
    let ghost pred = blocks(edge, units@.dom(), guards@, states@);
    let mut kept = UnitSet::new();
    let mut i: usize = 0;
    proof {
        use_type_invariant(set);
        reveal(Seq::filter);
        assert(set@.take(0).filter(pred) =~= Seq::<Seq<char>>::empty());
    }
    while i < set.len()
        invariant
            i <= set@.len(),
            pred == blocks(edge, units@.dom(), guards@, states@),
            set@.no_duplicates(),
            kept@ == set@.take(i as int).filter(pred),
        decreases set@.len() - i,
    {
        let p = set.get(i);
        let blocking = match edge {
            Edge::Requires => !guards.is_live(p),
            Edge::Wants => units.contains(p) && !guards.is_live(p),
            Edge::After => units.contains(p) && !states.get(p).is_active(),
            Edge::Conflicts => guards.is_live(p),
        };
        proof {
            let seen = set@.take(i as int);
            assert(set@.take(i + 1) =~= seen.push(p@));
            seen.lemma_filter_push(p@, pred);
            crate::idset::lemma_filter(seen, pred);
            assert(!seen.contains(p@)) by {
                if seen.contains(p@) {
                    let j = choose|j: int| 0 <= j < seen.len() && seen[j] == p@;
                    assert(set@[j] == set@[i as int]);
                }
            }
        }
        if blocking {
            kept.insert(p.clone());
        }
        i += 1;
    }
    assert(set@.take(set@.len() as int) =~= set@);
    kept
}

/// The notice that says `word` about each member of `set`, in its order.
fn tell(set: &UnitSet, word: Word) -> (out: Vec<DepOut>)
    ensures
        out.deep_view() == set@.map_values(say(word)),
{
    let mut out: Vec<DepOut> = Vec::new();
    let mut i: usize = 0;
    while i < set.len()
        invariant
            i <= set@.len(),
            out.deep_view() =~= set@.take(i as int).map_values(say(word)),
        decreases set@.len() - i,
    {
        let ghost before = out.deep_view();
        let p = set.get(i).clone();
        let notice = match word {
            Word::Ready => DepOut::DepsReady(p),
            Word::Failed => DepOut::DepsFailed(p),
            Word::Stop => DepOut::Stop(p),
        };
        assert(notice.deep_view() == say(word)(set@[i as int]));
        out.push(notice);
        assert(out.deep_view() =~= before.push(say(word)(set@[i as int])));
        i += 1;
    }
    assert(set@.take(set@.len() as int) =~= set@);
    out
}

/// Gets `id` out of the way of `peers` along `edge`, and says which of
/// them that lets go.
fn relieve(start_list: &mut Table<DepInfo>, peers: &UnitSet, edge: Edge, id: &UnitId) -> (out: Vec<
    DepOut,
>)
    ensures
        final(start_list)@ == relieved(old(start_list)@, peers@, edge, id@),
        out.deep_view() == released(old(start_list)@, peers@, edge, id@).map_values(
            say(Word::Ready),
        ),
{
    let ghost start = start_list@;
    let ghost pred = lets_go(start, edge, id@);
    let mut out: Vec<DepOut> = Vec::new();
    let mut i: usize = 0;
    proof {
        use_type_invariant(peers);
        reveal(Seq::filter);
        assert(peers@.take(0).filter(pred) =~= Seq::<Seq<char>>::empty());
        assert(start_list@ =~= relieved(start, peers@.take(0), edge, id@));
    }
    while i < peers.len()
        invariant
            i <= peers@.len(),
            peers@.no_duplicates(),
            pred == lets_go(start, edge, id@),
            start_list@ == relieved(start, peers@.take(i as int), edge, id@),
            out.deep_view() =~= peers@.take(i as int).filter(pred).map_values(say(Word::Ready)),
        decreases peers@.len() - i,
    {
        let ghost seen = peers@.take(i as int);
        let ghost before = out.deep_view();
        let p = peers.get(i);
        proof {
            assert(peers@.take(i + 1) =~= seen.push(p@));
            seen.lemma_filter_push(p@, pred);
            assert(!seen.contains(p@)) by {
                if seen.contains(p@) {
                    let j = choose|j: int| 0 <= j < seen.len() && seen[j] == p@;
                    assert(peers@[j] == peers@[i as int]);
                }
            }
        }
        match start_list.remove(p) {
            Some(waiter) => {
                let mut waiter = waiter;
                waiter.clear(edge, id);
                if waiter.can_start() {
                    out.push(DepOut::DepsReady(p.clone()));
                    assert(out.deep_view() =~= before.push(say(Word::Ready)(p@)));
                } else {
                    start_list.insert(p.clone(), waiter);
                }
            },
            None => {},
        }
        proof {
            let grown = peers@.take(i + 1);
            assert forall|x: Seq<char>| grown.contains(x) <==> seen.contains(x) || x == p@ by {
                if grown.contains(x) {
                    let j = choose|j: int| 0 <= j < grown.len() && grown[j] == x;
                    if j < seen.len() {
                        assert(seen[j] == x);
                    }
                }
                if seen.contains(x) {
                    let j = choose|j: int| 0 <= j < seen.len() && seen[j] == x;
                    assert(grown[j] == x);
                }
                assert(grown[i as int] == p@);
            }
            assert(start_list@ =~= relieved(start, grown, edge, id@));
        }
        i += 1;
    }
    assert(peers@.take(peers@.len() as int) =~= peers@);
    out
}

/// Takes the members of `peers` off the start list.
fn call_off(start_list: &mut Table<DepInfo>, peers: &UnitSet)
    ensures
        final(start_list)@ == old(start_list)@.remove_keys(peers@.to_set()),
{
    let ghost start = start_list@;
    let mut i: usize = 0;
    assert(start_list@ =~= start.remove_keys(peers@.take(0).to_set()));
    while i < peers.len()
        invariant
            i <= peers@.len(),
            start_list@ == start.remove_keys(peers@.take(i as int).to_set()),
        decreases peers@.len() - i,
    {
        let ghost seen = peers@.take(i as int);
        let unit = peers.get(i);
        start_list.remove(unit);
        proof {
            let grown = peers@.take(i + 1);
            assert(grown =~= seen.push(unit@));
            assert forall|x: Seq<char>| grown.contains(x) <==> seen.contains(x) || x == unit@ by {
                if grown.contains(x) {
                    let j = choose|j: int| 0 <= j < grown.len() && grown[j] == x;
                    if j < seen.len() {
                        assert(seen[j] == x);
                    }
                }
                if seen.contains(x) {
                    let j = choose|j: int| 0 <= j < seen.len() && seen[j] == x;
                    assert(grown[j] == x);
                }
                assert(grown[i as int] == unit@);
            }
            assert(start_list@ =~= start.remove_keys(grown.to_set()));
        }
        i += 1;
    }
    assert(peers@.take(peers@.len() as int) =~= peers@);
}

/// The resolver's tables, as plain values.
pub struct Graph {
    /// What still blocks each unit that waits to be started.
    pub start_list: Map<Seq<char>, Waiter>,
    /// Who depends on each unit that anybody depends on.
    pub reverse: Map<Seq<char>, Reverse>,
}

impl Graph {
    /// No unit waits, no unit depends on another.
    pub open spec fn empty() -> Graph {
        Graph { start_list: Map::empty(), reverse: Map::empty() }
    }

    /// The tables after the unit `id` was loaded with the lists `deps`:
    /// it stands with each unit it names as one that names it. That it is
    /// to start before others is not noted: whoever is to start after it
    /// says so itself.
    pub open spec fn load(self, id: Seq<char>, deps: Deps) -> Graph {
        let r0 = linked(self.reverse, deps.requires, id, Edge::Requires);
        let r1 = linked(r0, deps.wants, id, Edge::Wants);
        let r2 = linked(r1, deps.after, id, Edge::After);
        let r3 = linked(r2, deps.conflicts, id, Edge::Conflicts);
        Graph { start_list: self.start_list, reverse: r3 }
    }

    /// The tables after the lists of the unit `id` were changed from
    /// `was` to `new`: it is struck where `was` had put it, and noted
    /// where `new` puts it.
    pub open spec fn update(self, id: Seq<char>, was: Deps, new: Deps) -> Graph {
        let r0 = unlinked(self.reverse, was.requires, id, Edge::Requires);
        let r1 = unlinked(r0, was.wants, id, Edge::Wants);
        let r2 = unlinked(r1, was.after, id, Edge::After);
        let r3 = unlinked(r2, was.conflicts, id, Edge::Conflicts);
        (Graph { start_list: self.start_list, reverse: r3 }).load(id, new)
    }

    /// The tables after a guard for `id` asked to be told when it may
    /// start: the unit waits for what blocks it, unless it waits already,
    /// requires a unit that is not loaded, or nothing blocks it.
    pub open spec fn add_to_start_list(
        self,
        id: Seq<char>,
        deps: Deps,
        loaded: Set<Seq<char>>,
        guards: Map<Seq<char>, Guard>,
        states: States,
    ) -> Graph {
        if self.start_list.contains_key(id) || lacks(deps, loaded) || blockers(
            deps,
            loaded,
            guards,
            states,
        ).ready() {
            self
        } else {
            Graph {
                start_list: self.start_list.insert(id, blockers(deps, loaded, guards, states)),
                reverse: self.reverse,
            }
        }
    }

    /// The start list after the unit `id` became active: it is out of the
    /// way of those that require it, then of those that want it, then of
    /// the start of those that were to start after it and require or want
    /// it.
    pub open spec fn relieved_by_active(self, id: Seq<char>) -> Map<Seq<char>, Waiter> {
        let rev = self.reverse[id];
        let a = relieved(self.start_list, rev.required_by, Edge::Requires, id);
        let b = relieved(a, rev.wanted_by, Edge::Wants, id);
        relieved(b, rev.followers(), Edge::After, id)
    }

    /// Those that are let go when the unit `id` becomes active, in the
    /// order in which it gets out of their way.
    pub open spec fn released_by_active(self, id: Seq<char>) -> Seq<Seq<char>> {
        let rev = self.reverse[id];
        let a = relieved(self.start_list, rev.required_by, Edge::Requires, id);
        let b = relieved(a, rev.wanted_by, Edge::Wants, id);
        released(self.start_list, rev.required_by, Edge::Requires, id) + released(
            a,
            rev.wanted_by,
            Edge::Wants,
            id,
        ) + released(b, rev.followers(), Edge::After, id)
    }

    /// The start list after the unit `id` has failed: it waits no longer
    /// itself, nor do those that require it; and it is out of the way of
    /// those that want it and of the start of those that were to start
    /// after it, as if it were not there.
    pub open spec fn relieved_by_failed(self, id: Seq<char>) -> Map<Seq<char>, Waiter> {
        let rev = self.reverse[id];
        let dropped = self.start_list.remove(id).remove_keys(rev.required_by.to_set());
        let a = relieved(dropped, rev.wanted_by, Edge::Wants, id);
        relieved(a, rev.before, Edge::After, id)
    }

    /// Those that are let go when the unit `id` fails, in the order in
    /// which it gets out of their way.
    pub open spec fn released_by_failed(self, id: Seq<char>) -> Seq<Seq<char>> {
        let rev = self.reverse[id];
        let dropped = self.start_list.remove(id).remove_keys(rev.required_by.to_set());
        let a = relieved(dropped, rev.wanted_by, Edge::Wants, id);
        released(dropped, rev.wanted_by, Edge::Wants, id) + released(
            a,
            rev.before,
            Edge::After,
            id,
        )
    }

    /// The start list once the unit `id`, seen to change its state to `s`,
    /// waits no longer itself: a unit that is seen `Stopped` or `Failed`
    /// is not about to start, so if it was waiting, its start was called
    /// off.
    pub open spec fn withdrawn(self, id: Seq<char>, s: State) -> Map<Seq<char>, Waiter> {
        if s == State::Stopped || s == State::Failed {
            self.start_list.remove(id)
        } else {
            self.start_list
        }
    }

    /// The tables after the unit `id` was seen to change its state to `s`.
    ///
    /// The unit itself waits no longer if it is seen `Stopped` or
    /// `Failed`. Beyond that a unit on which nobody depends changes
    /// nothing. On `Failed`, those that require the unit wait no longer,
    /// and the unit is out of the way of those that want it or were to
    /// start after it. On `Active`, the unit is out of the way of those
    /// that require or want it. On `Stopped`, it is out of the way of the
    /// start of those that were to start after it and conflict with it. On
    /// `Stopping`, it is out of the way of those that conflict with it.
    pub open spec fn state_change(self, id: Seq<char>, s: State) -> Graph {
        let start = self.withdrawn(id, s);
        if !self.reverse.contains_key(id) {
            Graph { start_list: start, reverse: self.reverse }
        } else {
            let rev = self.reverse[id];
            match s {
                State::Failed => Graph {
                    start_list: self.relieved_by_failed(id),
                    reverse: self.reverse,
                },
                State::Active => Graph {
                    start_list: self.relieved_by_active(id),
                    reverse: self.reverse,
                },
                State::Stopped => Graph {
                    start_list: relieved(start, rev.rivals_behind(), Edge::After, id),
                    reverse: self.reverse,
                },
                State::Stopping => Graph {
                    start_list: relieved(start, rev.conflicts, Edge::Conflicts, id),
                    reverse: self.reverse,
                },
                State::Starting | State::Uninit => self,
            }
        }
    }

    /// What goes out when the unit `id` is seen to change its state to
    /// `s`, in order.
    ///
    /// On `Starting`, a stop for each unit that conflicts with it and
    /// waits for it to be gone. On `Active` and `Stopped`, the word that
    /// they may start for those whom this lets go. On `Stopping`, a stop
    /// for each unit that requires it, then the word that they may start
    /// for those whom this lets go. On `Failed`, the word that they are
    /// not to start for those that require it, then the word that they may
    /// start for those whom this lets go.
    pub open spec fn state_change_out(self, id: Seq<char>, s: State) -> Seq<Notice> {
        if !self.reverse.contains_key(id) {
            Seq::empty()
        } else {
            let rev = self.reverse[id];
            match s {
                State::Starting => rev.conflicts.filter(
                    waits_on_conflict(self.start_list, id),
                ).map_values(say(Word::Stop)),
                State::Active => self.released_by_active(id).map_values(say(Word::Ready)),
                State::Stopped => released(
                    self.withdrawn(id, s),
                    rev.rivals_behind(),
                    Edge::After,
                    id,
                ).map_values(say(Word::Ready)),
                State::Stopping => rev.required_by.map_values(say(Word::Stop)) + released(
                    self.start_list,
                    rev.conflicts,
                    Edge::Conflicts,
                    id,
                ).map_values(say(Word::Ready)),
                State::Failed => rev.required_by.map_values(say(Word::Failed))
                    + self.released_by_failed(id).map_values(say(Word::Ready)),
                State::Uninit => Seq::empty(),
            }
        }
    }

    /// What goes out when a guard for `id` asks to be told when it may
    /// start: nothing if it waits already; else the word that it is not to
    /// start, if it requires a unit that is not loaded; else the word that
    /// it may, if nothing blocks it.
    pub open spec fn add_to_start_list_out(
        self,
        id: Seq<char>,
        deps: Deps,
        loaded: Set<Seq<char>>,
        guards: Map<Seq<char>, Guard>,
        states: States,
    ) -> Seq<Notice> {
        if self.start_list.contains_key(id) {
            seq![]
        } else if lacks(deps, loaded) {
            seq![Notice::DepsFailed(id)]
        } else if blockers(deps, loaded, guards, states).ready() {
            seq![Notice::DepsReady(id)]
        } else {
            seq![]
        }
    }
}

/// The dependency resolver.
#[derive(Debug)]
pub struct DepStore {
    start_list: Table<DepInfo>,
    reverse_map: Table<ReverseDepInfo>,
}

impl View for DepStore {
    type V = Graph;

    closed spec fn view(&self) -> Graph {
        Graph { start_list: self.start_list@, reverse: self.reverse_map@ }
    }
}

impl DepStore {
    /// A resolver that knows no unit.
    pub fn new() -> (store: DepStore)
        ensures
            store@ == Graph::empty(),
    {
        DepStore { start_list: Table::new(), reverse_map: Table::new() }
    }

    /// What still blocks the start of `id`, if it waits to be started.
    pub fn waiter(&self, id: &UnitId) -> (r: Option<&DepInfo>)
        ensures
            match r {
                Some(info) => self@.start_list.contains_key(id@) && info.deep_view()
                    == self@.start_list[id@],
                None => !self@.start_list.contains_key(id@),
            },
    {
        self.start_list.get(id)
    }

    /// Who depends on `id`, if anybody does.
    pub fn dependents(&self, id: &UnitId) -> (r: Option<&ReverseDepInfo>)
        ensures
            match r {
                Some(info) => self@.reverse.contains_key(id@) && info.deep_view()
                    == self@.reverse[id@],
                None => !self@.reverse.contains_key(id@),
            },
    {
        self.reverse_map.get(id)
    }

    /// Takes in the lists of a unit that was not loaded before.
    pub fn load(&mut self, id: &UnitId, deps: &UnitDeps)
        ensures
            final(self)@ == old(self)@.load(id@, deps.deep_view()),
    {
        reverse_map_insert(id, &deps.requires, &mut self.reverse_map, Edge::Requires);
        reverse_map_insert(id, &deps.wants, &mut self.reverse_map, Edge::Wants);
        reverse_map_insert(id, &deps.after, &mut self.reverse_map, Edge::After);
        reverse_map_insert(id, &deps.conflicts, &mut self.reverse_map, Edge::Conflicts);
    }

    /// Takes in the new lists of a unit in place of its old ones.
    pub fn update(&mut self, id: &UnitId, was: &UnitDeps, new: &UnitDeps)
        ensures
            final(self)@ == old(self)@.update(id@, was.deep_view(), new.deep_view()),
    {
        reverse_map_remove(id, &was.requires, &mut self.reverse_map, Edge::Requires);
        reverse_map_remove(id, &was.wants, &mut self.reverse_map, Edge::Wants);
        reverse_map_remove(id, &was.after, &mut self.reverse_map, Edge::After);
        reverse_map_remove(id, &was.conflicts, &mut self.reverse_map, Edge::Conflicts);
        self.load(id, new);
    }

    /// A guard for `id` was made and asks to be told when the unit may
    /// start. `units`, `guards` and `states` say how things stand with the
    /// peers.
    ///
    /// A unit that waits already is left as it is. A unit that requires a
    /// unit which is not loaded is told that it is not to start. Otherwise
    /// what blocks the unit is worked out; if that is nothing, the word
    /// that it may start goes out at once, and else the unit is put on the
    /// start list.
    pub fn add_to_start_list(
        &mut self,
        id: UnitId,
        deps: &UnitDeps,
        units: &UnitStore,
        guards: &GuardStore,
        states: &StateStore,
    ) -> (out: Vec<DepOut>)
        ensures
            final(self)@ == old(self)@.add_to_start_list(
                id@,
                deps.deep_view(),
                units@.dom(),
                guards@,
                states@,
            ),
            out.deep_view() == old(self)@.add_to_start_list_out(
                id@,
                deps.deep_view(),
                units@.dom(),
                guards@,
                states@,
            ),
    {
        let mut out: Vec<DepOut> = Vec::new();
        if self.start_list.contains_key(&id) {
            assert(out.deep_view() =~= Seq::<Notice>::empty());
            return out;
        }
        if lacking(deps, units) {
            let ghost notice = Notice::DepsFailed(id@);
            out.push(DepOut::DepsFailed(id));
            assert(out.deep_view() =~= seq![notice]);
            return out;
        }
        let mut dep_info = DepInfo::from(deps);
        dep_info.requires = still_blocking(
            &dep_info.requires,
            Edge::Requires,
            units,
            guards,
            states,
        );
        dep_info.wants = still_blocking(&dep_info.wants, Edge::Wants, units, guards, states);
        dep_info.after = still_blocking(&dep_info.after, Edge::After, units, guards, states);
        dep_info.conflicts = still_blocking(
            &dep_info.conflicts,
            Edge::Conflicts,
            units,
            guards,
            states,
        );
        if dep_info.can_start() {
            let ghost notice = Notice::DepsReady(id@);
            out.push(DepOut::DepsReady(id));
            assert(out.deep_view() =~= seq![notice]);
        } else {
            self.start_list.insert(id, dep_info);
            assert(out.deep_view() =~= Seq::<Notice>::empty());
        }
        out
    }

    /// The unit `id` was seen to change its state to `s`: relieves those
    /// that waited for that, and says what is to be told to whom.
    pub fn state_change(&mut self, id: &UnitId, s: State) -> (out: Vec<DepOut>)
        ensures
            final(self)@ == old(self)@.state_change(id@, s),
            out.deep_view() == old(self)@.state_change_out(id@, s),
    {
        let mut out: Vec<DepOut> = Vec::new();
        match s {
            State::Stopped | State::Failed => {
                self.start_list.remove(id);
            },
            _ => {},
        }
        let reverse_dep = match self.reverse_map.get(id) {
            Some(reverse_dep) => reverse_dep,
            None => {
                assert(out.deep_view() =~= Seq::<Notice>::empty());
                return out;
            },
        };
        let ghost start = self.start_list@;
        let ghost rev = reverse_dep.deep_view();
        match s {
            State::Uninit => {
                assert(out.deep_view() =~= Seq::<Notice>::empty());
            },
            State::Starting => {
                let conflicts = reverse_dep.get(Edge::Conflicts);
                let ghost pred = waits_on_conflict(start, id@);
                let mut i: usize = 0;
                proof {
                    reveal(Seq::filter);
                    assert(conflicts@.take(0).filter(pred) =~= Seq::<Seq<char>>::empty());
                }
                while i < conflicts.len()
                    invariant
                        i <= conflicts@.len(),
                        self.start_list@ == start,
                        pred == waits_on_conflict(start, id@),
                        out.deep_view() =~= conflicts@.take(i as int).filter(pred).map_values(
                            say(Word::Stop),
                        ),
                    decreases conflicts@.len() - i,
                {
                    let ghost seen = conflicts@.take(i as int);
                    let ghost before = out.deep_view();
                    let unit = conflicts.get(i);
                    proof {
                        assert(conflicts@.take(i + 1) =~= seen.push(unit@));
                        seen.lemma_filter_push(unit@, pred);
                    }
                    let waits = match self.start_list.get(unit) {
                        Some(waiter) => waiter.conflicts.contains(id),
                        None => false,
                    };
                    if waits {
                        out.push(DepOut::Stop(unit.clone()));
                        assert(out.deep_view() =~= before.push(say(Word::Stop)(unit@)));
                    }
                    i += 1;
                }
                assert(conflicts@.take(conflicts@.len() as int) =~= conflicts@);
            },
            State::Active => {
                out = relieve(
                    &mut self.start_list,
                    reverse_dep.get(Edge::Requires),
                    Edge::Requires,
                    id,
                );
                let ghost first = out.deep_view();
                let mut more = relieve(
                    &mut self.start_list,
                    reverse_dep.get(Edge::Wants),
                    Edge::Wants,
                    id,
                );
                let ghost second = more.deep_view();
                out.append(&mut more);
                let peers = reverse_dep.followers();
                let mut last = relieve(&mut self.start_list, &peers, Edge::After, id);
                let ghost third = last.deep_view();
                out.append(&mut last);
                assert(out.deep_view() =~= first + second + third);
                assert(out.deep_view() =~= old(self)@.released_by_active(id@).map_values(
                    say(Word::Ready),
                ));
            },
            State::Stopped => {
                let peers = reverse_dep.rivals_behind();
                out = relieve(&mut self.start_list, &peers, Edge::After, id);
            },
            State::Stopping => {
                out = tell(reverse_dep.get(Edge::Requires), Word::Stop);
                let ghost stops = out.deep_view();
                let mut go = relieve(
                    &mut self.start_list,
                    reverse_dep.get(Edge::Conflicts),
                    Edge::Conflicts,
                    id,
                );
                let ghost goes = go.deep_view();
                out.append(&mut go);
                assert(out.deep_view() =~= stops + goes);
            },
            State::Failed => {
                let required_by = reverse_dep.get(Edge::Requires);
                call_off(&mut self.start_list, required_by);
                out = tell(required_by, Word::Failed);
                let ghost fails = out.deep_view();
                let mut wanted = relieve(
                    &mut self.start_list,
                    reverse_dep.get(Edge::Wants),
                    Edge::Wants,
                    id,
                );
                let ghost first = wanted.deep_view();
                out.append(&mut wanted);
                let mut behind = relieve(
                    &mut self.start_list,
                    reverse_dep.get(Edge::After),
                    Edge::After,
                    id,
                );
                let ghost second = behind.deep_view();
                out.append(&mut behind);
                assert(out.deep_view() =~= fails + (first + second));
                assert(first + second =~= old(self)@.released_by_failed(id@).map_values(
                    say(Word::Ready),
                ));
            },
        }
        out
    }
}

/// The list of `deps` along `edge`.
pub open spec fn list(deps: Deps, edge: Edge) -> Seq<Seq<char>> {
    match edge {
        Edge::Requires => deps.requires,
        Edge::Wants => deps.wants,
        Edge::After => deps.after,
        Edge::Conflicts => deps.conflicts,
    }
}

/// Whether `u` is loaded and names `v` along `edge`.
pub open spec fn names(loaded: Map<Seq<char>, Deps>, u: Seq<char>, v: Seq<char>, edge: Edge)
    -> bool {
    loaded.contains_key(u) && list(loaded[u], edge).contains(v)
}

/// Whether the reverse graph `rev` is the inverse of the lists in
/// `loaded`: a unit stands with another as naming it along a relation
/// exactly if it is loaded and names it so, it stands there once, and the
/// graph has an entry exactly for the units that somebody names.
pub open spec fn is_inverse(rev: Map<Seq<char>, Reverse>, loaded: Map<Seq<char>, Deps>) -> bool {
    &&& forall|v: Seq<char>, u: Seq<char>, edge: Edge| #[trigger]
        entry(rev, v).get(edge).contains(u) <==> names(loaded, u, v, edge)
    &&& forall|v: Seq<char>, edge: Edge| #[trigger] entry(rev, v).get(edge).no_duplicates()
    &&& forall|v: Seq<char>| #[trigger] rev.contains_key(v) ==> !rev[v].vacant()
}

/// What `linked` does to each entry.
proof fn lemma_linked(rev: Map<Seq<char>, Reverse>, src: Seq<Seq<char>>, id: Seq<char>, edge: Edge)
    ensures
        forall|v: Seq<char>, e: Edge| #[trigger]
            entry(linked(rev, src, id, edge), v).get(e) == if e == edge && src.contains(v) {
                with(entry(rev, v).get(e), id)
            } else {
                entry(rev, v).get(e)
            },
        forall|v: Seq<char>| #[trigger]
            linked(rev, src, id, edge).contains_key(v) <==> rev.contains_key(v) || src.contains(v),
        (forall|v: Seq<char>| #[trigger] rev.contains_key(v) ==> !rev[v].vacant()) ==> (forall|
            v: Seq<char>,
        | #[trigger]
            linked(rev, src, id, edge).contains_key(v) ==> !linked(rev, src, id, edge)[v].vacant()),
{
    let out = linked(rev, src, id, edge);
    assert forall|v: Seq<char>| #[trigger] out.contains_key(v) && (rev.contains_key(v)
        ==> !rev[v].vacant()) implies !out[v].vacant() by {
        if src.contains(v) {
            lemma_with(entry(rev, v).get(edge), id);
        }
    }
}

/// What `unlinked` does to each entry.
proof fn lemma_unlinked(
    rev: Map<Seq<char>, Reverse>,
    src: Seq<Seq<char>>,
    id: Seq<char>,
    edge: Edge,
)
    ensures
        forall|v: Seq<char>, e: Edge| #[trigger]
            entry(unlinked(rev, src, id, edge), v).get(e) == if e == edge && src.contains(v) {
                without(entry(rev, v).get(e), id)
            } else {
                entry(rev, v).get(e)
            },
        (forall|v: Seq<char>| #[trigger] rev.contains_key(v) ==> !rev[v].vacant()) ==> (forall|
            v: Seq<char>,
        | #[trigger]
            unlinked(rev, src, id, edge).contains_key(v) ==> !unlinked(
                rev,
                src,
                id,
                edge,
            )[v].vacant()),
{
    let out = unlinked(rev, src, id, edge);
    let nothing = Seq::<Seq<char>>::empty();
    assert(without(nothing, id) =~= nothing) by {
        reveal(Seq::filter);
    }
    assert forall|v: Seq<char>, e: Edge| #[trigger]
        entry(out, v).get(e) == if e == edge && src.contains(v) {
            without(entry(rev, v).get(e), id)
        } else {
            entry(rev, v).get(e)
        } by {
        if rev.contains_key(v) && src.contains(v) && !out.contains_key(v) {
            let loose = loosened(rev, v, id, edge);
            assert(loose.vacant());
            assert(loose.get(e).len() == 0);
            assert(loose.get(e) =~= nothing);
        }
    }
}

/// The reverse graph of a resolver that has loaded nothing is the inverse
/// of no lists.
pub proof fn law_empty_is_inverse()
    ensures
        is_inverse(Graph::empty().reverse, Map::empty()),
{
    assert forall|v: Seq<char>, u: Seq<char>, edge: Edge| #[trigger]
        entry(Graph::empty().reverse, v).get(edge).contains(u) <==> names(
            Map::empty(),
            u,
            v,
            edge,
        ) by {
        let s = entry(Graph::empty().reverse, v).get(edge);
        assert(s.len() == 0);
    }
}

/// Whether `u` names nobody in `loaded`.
pub open spec fn names_nobody(loaded: Map<Seq<char>, Deps>, u: Seq<char>) -> bool {
    forall|v: Seq<char>, edge: Edge| !#[trigger] names(loaded, u, v, edge)
}

/// Whether `u` names in `loaded` just those that the lists `deps` hold.
pub open spec fn names_as(loaded: Map<Seq<char>, Deps>, u: Seq<char>, deps: Deps) -> bool {
    forall|v: Seq<char>, edge: Edge| #[trigger]
        names(loaded, u, v, edge) <==> list(deps, edge).contains(v)
}

/// Loading a unit that named nobody so far keeps the reverse graph the
/// inverse of the loaded lists.
pub proof fn law_load_keeps_inverse(
    g: Graph,
    loaded: Map<Seq<char>, Deps>,
    id: Seq<char>,
    deps: Deps,
)
    requires
        is_inverse(g.reverse, loaded),
        names_nobody(loaded, id),
    ensures
        is_inverse(g.load(id, deps).reverse, loaded.insert(id, deps)),
{
    let r0 = linked(g.reverse, deps.requires, id, Edge::Requires);
    let r1 = linked(r0, deps.wants, id, Edge::Wants);
    let r2 = linked(r1, deps.after, id, Edge::After);
    let r3 = linked(r2, deps.conflicts, id, Edge::Conflicts);
    lemma_linked(g.reverse, deps.requires, id, Edge::Requires);
    lemma_linked(r0, deps.wants, id, Edge::Wants);
    lemma_linked(r1, deps.after, id, Edge::After);
    lemma_linked(r2, deps.conflicts, id, Edge::Conflicts);
    let now = loaded.insert(id, deps);
    assert forall|v: Seq<char>, e: Edge| #[trigger]
        entry(r3, v).get(e) == if list(deps, e).contains(v) {
            with(entry(g.reverse, v).get(e), id)
        } else {
            entry(g.reverse, v).get(e)
        } by {
        assert(entry(r0, v).get(e) == if e == Edge::Requires && deps.requires.contains(v) {
            with(entry(g.reverse, v).get(e), id)
        } else {
            entry(g.reverse, v).get(e)
        });
        assert(entry(r1, v).get(e) == if e == Edge::Wants && deps.wants.contains(v) {
            with(entry(r0, v).get(e), id)
        } else {
            entry(r0, v).get(e)
        });
        assert(entry(r2, v).get(e) == if e == Edge::After && deps.after.contains(v) {
            with(entry(r1, v).get(e), id)
        } else {
            entry(r1, v).get(e)
        });
    }
    assert forall|v: Seq<char>, u: Seq<char>, e: Edge| #[trigger]
        entry(r3, v).get(e).contains(u) <==> names(now, u, v, e) by {
        let held = entry(g.reverse, v).get(e);
        lemma_with(held, id);
        assert(held.contains(u) <==> names(loaded, u, v, e));
        assert(held.contains(id) <==> names(loaded, id, v, e));
        assert(!names(loaded, id, v, e));
    }
    assert forall|v: Seq<char>, e: Edge| #[trigger] entry(r3, v).get(e).no_duplicates() by {
        let held = entry(g.reverse, v).get(e);
        lemma_with(held, id);
        assert(held.no_duplicates());
    }
}

/// What striking a unit's old lists does to a graph that is the inverse of
/// the loaded lists: the unit stands with nobody any more.
proof fn lemma_struck(g: Graph, loaded: Map<Seq<char>, Deps>, id: Seq<char>, was: Deps)
    requires
        is_inverse(g.reverse, loaded),
        names_as(loaded, id, was),
    ensures
        is_inverse(g.update(id, was, Deps::none()).reverse, loaded.remove(id)),
        g.update(id, was, Deps::none()).reverse == unlinked(
            unlinked(
                unlinked(
                    unlinked(g.reverse, was.requires, id, Edge::Requires),
                    was.wants,
                    id,
                    Edge::Wants,
                ),
                was.after,
                id,
                Edge::After,
            ),
            was.conflicts,
            id,
            Edge::Conflicts,
        ),
{
    let r0 = unlinked(g.reverse, was.requires, id, Edge::Requires);
    let r1 = unlinked(r0, was.wants, id, Edge::Wants);
    let r2 = unlinked(r1, was.after, id, Edge::After);
    let r3 = unlinked(r2, was.conflicts, id, Edge::Conflicts);
    lemma_unlinked(g.reverse, was.requires, id, Edge::Requires);
    lemma_unlinked(r0, was.wants, id, Edge::Wants);
    lemma_unlinked(r1, was.after, id, Edge::After);
    lemma_unlinked(r2, was.conflicts, id, Edge::Conflicts);
    let none = Deps::none();
    let l0 = linked(r3, none.requires, id, Edge::Requires);
    let l1 = linked(l0, none.wants, id, Edge::Wants);
    let l2 = linked(l1, none.after, id, Edge::After);
    let l3 = linked(l2, none.conflicts, id, Edge::Conflicts);
    assert(l0 =~= r3);
    assert(l1 =~= r3);
    assert(l2 =~= r3);
    assert(l3 =~= r3);
    let now = loaded.remove(id);
    assert forall|v: Seq<char>, e: Edge| #[trigger]
        entry(r3, v).get(e) == if list(was, e).contains(v) {
            without(entry(g.reverse, v).get(e), id)
        } else {
            entry(g.reverse, v).get(e)
        } by {
        assert(entry(r0, v).get(e) == if e == Edge::Requires && was.requires.contains(v) {
            without(entry(g.reverse, v).get(e), id)
        } else {
            entry(g.reverse, v).get(e)
        });
        assert(entry(r1, v).get(e) == if e == Edge::Wants && was.wants.contains(v) {
            without(entry(r0, v).get(e), id)
        } else {
            entry(r0, v).get(e)
        });
        assert(entry(r2, v).get(e) == if e == Edge::After && was.after.contains(v) {
            without(entry(r1, v).get(e), id)
        } else {
            entry(r1, v).get(e)
        });
    }
    assert forall|v: Seq<char>, u: Seq<char>, e: Edge| #[trigger]
        entry(r3, v).get(e).contains(u) <==> names(now, u, v, e) by {
        let held = entry(g.reverse, v).get(e);
        lemma_without(held, id);
        assert(held.contains(u) <==> names(loaded, u, v, e));
        assert(held.contains(id) <==> names(loaded, id, v, e));
        assert(names(loaded, id, v, e) <==> list(was, e).contains(v));
    }
    assert forall|v: Seq<char>, e: Edge| #[trigger] entry(r3, v).get(e).no_duplicates() by {
        let held = entry(g.reverse, v).get(e);
        lemma_without(held, id);
        assert(held.no_duplicates());
    }
}

/// Changing the lists of a unit from those by which it names others to
/// new ones keeps the reverse graph the inverse of the loaded lists. With
/// empty new lists this is what the resolver hears when a unit is taken
/// out.
pub proof fn law_update_keeps_inverse(
    g: Graph,
    loaded: Map<Seq<char>, Deps>,
    id: Seq<char>,
    was: Deps,
    new: Deps,
)
    requires
        is_inverse(g.reverse, loaded),
        names_as(loaded, id, was),
    ensures
        is_inverse(g.update(id, was, new).reverse, loaded.insert(id, new)),
{
    lemma_struck(g, loaded, id, was);
    let struck = Graph {
        start_list: g.start_list,
        reverse: g.update(id, was, Deps::none()).reverse,
    };
    assert(names_nobody(loaded.remove(id), id));
    law_load_keeps_inverse(struck, loaded.remove(id), id, new);
    assert(loaded.remove(id).insert(id, new) =~= loaded.insert(id, new));
}

/// Whether a change of the state of `id` to `s` gets `id` out of the way
/// of `u` along `edge`.
pub open spec fn clears(g: Graph, id: Seq<char>, s: State, u: Seq<char>, edge: Edge) -> bool {
    g.reverse.contains_key(id) && match (s, edge) {
        (State::Active, Edge::Requires) => g.reverse[id].required_by.contains(u),
        (State::Active, Edge::Wants) => g.reverse[id].wanted_by.contains(u),
        (State::Active, Edge::After) => g.reverse[id].followers().contains(u),
        (State::Stopped, Edge::After) => g.reverse[id].rivals_behind().contains(u),
        (State::Failed, Edge::Wants) => g.reverse[id].wanted_by.contains(u),
        (State::Failed, Edge::After) => g.reverse[id].before.contains(u),
        (State::Stopping, Edge::Conflicts) => g.reverse[id].conflicts.contains(u),
        _ => false,
    }
}

/// What one pass of relief does to a waiter that names `v` along `at`: as
/// long as the pass does not take just that blocker away, the waiter stays,
/// goes on naming `v`, and is not let go.
proof fn lemma_pass_keeps(
    start: Map<Seq<char>, Waiter>,
    peers: Seq<Seq<char>>,
    edge: Edge,
    id: Seq<char>,
    u: Seq<char>,
    v: Seq<char>,
    at: Edge,
)
    requires
        start.contains_key(u),
        start[u].get(at).contains(v),
        !(at == edge && v == id && peers.contains(u)),
    ensures
        !released(start, peers, edge, id).contains(u),
        relieved(start, peers, edge, id).contains_key(u),
        relieved(start, peers, edge, id)[u].get(at).contains(v),
{
    crate::idset::lemma_filter(peers, lets_go(start, edge, id));
    if peers.contains(u) {
        let after = start[u].clear(edge, id);
        lemma_without(start[u].get(edge), id);
        assert(after.get(at).contains(v));
        let i = choose|i: int| 0 <= i < after.get(at).len() && after.get(at)[i] == v;
        assert(!after.ready());
    }
}

/// What one pass of relief can do to any waiter: it is gone, or it is
/// there with no more blockers than before. And who is let go was waiting.
proof fn lemma_pass_shrinks(
    start: Map<Seq<char>, Waiter>,
    peers: Seq<Seq<char>>,
    edge: Edge,
    id: Seq<char>,
)
    ensures
        forall|p: Seq<char>| #[trigger]
            relieved(start, peers, edge, id).contains_key(p) ==> start.contains_key(p),
        forall|p: Seq<char>, e: Edge, x: Seq<char>|
            relieved(start, peers, edge, id).contains_key(p) && #[trigger] relieved(
                start,
                peers,
                edge,
                id,
            )[p].get(e).contains(x) ==> start[p].get(e).contains(x),
        forall|p: Seq<char>| #[trigger]
            released(start, peers, edge, id).contains(p) ==> start.contains_key(p)
                && !relieved(start, peers, edge, id).contains_key(p),
{
    let now = relieved(start, peers, edge, id);
    assert forall|p: Seq<char>, e: Edge, x: Seq<char>|
        now.contains_key(p) && #[trigger] now[p].get(e).contains(x) implies start[p].get(
        e,
    ).contains(x) by {
        lemma_without(start[p].get(edge), id);
    }
    crate::idset::lemma_filter(peers, lets_go(start, edge, id));
}

/// A notice about `u` stands among the notices that say `word` about each
/// of `ids` exactly if it says `word` and `u` is one of `ids`.
proof fn lemma_said(ids: Seq<Seq<char>>, word: Word, other: Word, u: Seq<char>)
    ensures
        ids.map_values(say(word)).contains(say(other)(u)) <==> word == other && ids.contains(u),
{
    let out = ids.map_values(say(word));
    if out.contains(say(other)(u)) {
        let i = choose|i: int| 0 <= i < out.len() && out[i] == say(other)(u);
        assert(out[i] == say(word)(ids[i]));
        assert(ids[i] == u);
    }
    if word == other && ids.contains(u) {
        let i = choose|i: int| 0 <= i < ids.len() && ids[i] == u;
        assert(out[i] == say(other)(u));
    }
}

/// A blocker leaves a waiter only when it is out of the way: as long as a
/// change of state does not clear `v` for `u` along `edge`, the unit `u`,
/// which waits with `v` as a blocker along `edge`, is not let go, and goes
/// on waiting for `v` unless its start is called off: by the failure of a
/// unit it requires, or because it is seen stopped itself.
pub proof fn law_blocker_holds(
    g: Graph,
    u: Seq<char>,
    v: Seq<char>,
    edge: Edge,
    id: Seq<char>,
    s: State,
)
    requires
        g.start_list.contains_key(u),
        g.start_list[u].get(edge).contains(v),
        !(id == v && clears(g, id, s, u, edge)),
    ensures
        !g.state_change_out(id, s).contains(Notice::DepsReady(u)),
        s != State::Failed && !(id == u && s == State::Stopped) ==> g.state_change(
            id,
            s,
        ).start_list.contains_key(u),
        g.state_change(id, s).start_list.contains_key(u) ==> g.state_change(
            id,
            s,
        ).start_list[u].get(edge).contains(v),
{
    if g.reverse.contains_key(id) {
        let rev = g.reverse[id];
        let start = g.withdrawn(id, s);
        let ready = Notice::DepsReady(u);
        assert(ready == say(Word::Ready)(u));
        match s {
            State::Active => {
                let a = relieved(start, rev.required_by, Edge::Requires, id);
                let b = relieved(a, rev.wanted_by, Edge::Wants, id);
                lemma_pass_keeps(start, rev.required_by, Edge::Requires, id, u, v, edge);
                lemma_pass_keeps(a, rev.wanted_by, Edge::Wants, id, u, v, edge);
                lemma_pass_keeps(b, rev.followers(), Edge::After, id, u, v, edge);
                let r1 = released(start, rev.required_by, Edge::Requires, id);
                let r2 = released(a, rev.wanted_by, Edge::Wants, id);
                let r3 = released(b, rev.followers(), Edge::After, id);
                let all = r1 + r2 + r3;
                assert(!all.contains(u)) by {
                    if all.contains(u) {
                        let i = choose|i: int| 0 <= i < all.len() && all[i] == u;
                        if i < r1.len() {
                            assert(r1[i] == u);
                        } else if i < r1.len() + r2.len() {
                            assert(r2[i - r1.len()] == u);
                        } else {
                            assert(r3[i - r1.len() - r2.len()] == u);
                        }
                    }
                }
                lemma_said(all, Word::Ready, Word::Ready, u);
            },
            State::Stopped => {
                if start.contains_key(u) {
                    lemma_pass_keeps(start, rev.rivals_behind(), Edge::After, id, u, v, edge);
                } else {
                    crate::idset::lemma_filter(rev.rivals_behind(), lets_go(start, Edge::After, id));
                }
                lemma_said(
                    released(start, rev.rivals_behind(), Edge::After, id),
                    Word::Ready,
                    Word::Ready,
                    u,
                );
            },
            State::Stopping => {
                lemma_pass_keeps(start, rev.conflicts, Edge::Conflicts, id, u, v, edge);
                let stops = rev.required_by.map_values(say(Word::Stop));
                let goes = released(start, rev.conflicts, Edge::Conflicts, id);
                let go = goes.map_values(say(Word::Ready));
                lemma_said(goes, Word::Ready, Word::Ready, u);
                lemma_said(rev.required_by, Word::Stop, Word::Ready, u);
                let all = stops + go;
                if all.contains(ready) {
                    let i = choose|i: int| 0 <= i < all.len() && all[i] == ready;
                    if i < stops.len() {
                        assert(stops[i] == ready);
                    } else {
                        assert(go[i - stops.len()] == ready);
                    }
                }
            },
            State::Starting => {
                lemma_said(
                    rev.conflicts.filter(waits_on_conflict(start, id)),
                    Word::Stop,
                    Word::Ready,
                    u,
                );
            },
            State::Failed => {
                let dropped = g.start_list.remove(id).remove_keys(rev.required_by.to_set());
                let a = relieved(dropped, rev.wanted_by, Edge::Wants, id);
                let r1 = released(dropped, rev.wanted_by, Edge::Wants, id);
                let r2 = released(a, rev.before, Edge::After, id);
                if dropped.contains_key(u) {
                    lemma_pass_keeps(dropped, rev.wanted_by, Edge::Wants, id, u, v, edge);
                    lemma_pass_keeps(a, rev.before, Edge::After, id, u, v, edge);
                } else {
                    lemma_pass_shrinks(dropped, rev.wanted_by, Edge::Wants, id);
                    lemma_pass_shrinks(a, rev.before, Edge::After, id);
                }
                let goes = r1 + r2;
                assert(!goes.contains(u)) by {
                    if goes.contains(u) {
                        let i = choose|i: int| 0 <= i < goes.len() && goes[i] == u;
                        if i < r1.len() {
                            assert(r1[i] == u);
                            assert(r1.contains(u));
                        } else {
                            assert(r2[i - r1.len()] == u);
                            assert(r2.contains(u));
                        }
                    }
                }
                let fails = rev.required_by.map_values(say(Word::Failed));
                let go = goes.map_values(say(Word::Ready));
                lemma_said(rev.required_by, Word::Failed, Word::Ready, u);
                lemma_said(goes, Word::Ready, Word::Ready, u);
                let all = fails + go;
                if all.contains(ready) {
                    let i = choose|i: int| 0 <= i < all.len() && all[i] == ready;
                    if i < fails.len() {
                        assert(fails[i] == ready);
                    } else {
                        assert(go[i - fails.len()] == ready);
                    }
                }
            },
            State::Uninit => {},
        }
    }
}

/// The order of starts is kept: a unit that waits to start after `v` is
/// not let go, and goes on waiting for `v`, until `v` is seen to become
/// active, or to have failed, or to have stopped while the unit both is to
/// start after it and conflicts with it.
pub proof fn law_after_is_honoured(g: Graph, u: Seq<char>, v: Seq<char>, id: Seq<char>, s: State)
    requires
        g.start_list.contains_key(u),
        g.start_list[u].after.contains(v),
        !(id == v && s == State::Active),
        !(id == v && s == State::Failed),
        !(id == v && s == State::Stopped && g.reverse.contains_key(v)
            && g.reverse[v].rivals_behind().contains(u)),
    ensures
        !g.state_change_out(id, s).contains(Notice::DepsReady(u)),
        g.state_change(id, s).start_list.contains_key(u) ==> g.state_change(
            id,
            s,
        ).start_list[u].after.contains(v),
{
    law_blocker_holds(g, u, v, Edge::After, id, s);
}

/// A unit that waits for a conflicting unit `v` to be gone is not let go,
/// and goes on waiting for `v`, until `v` is seen to begin to stop.
pub proof fn law_conflict_is_honoured(
    g: Graph,
    u: Seq<char>,
    v: Seq<char>,
    id: Seq<char>,
    s: State,
)
    requires
        g.start_list.contains_key(u),
        g.start_list[u].conflicts.contains(v),
        !(id == v && s == State::Stopping),
    ensures
        !g.state_change_out(id, s).contains(Notice::DepsReady(u)),
        g.state_change(id, s).start_list.contains_key(u) ==> g.state_change(
            id,
            s,
        ).start_list[u].conflicts.contains(v),
{
    law_blocker_holds(g, u, v, Edge::Conflicts, id, s);
}

/// A unit that names a peer which blocks it as things stand is not told
/// that it may start when its guard is made: unless it is told that it is
/// not to start, it is put on the start list with that peer as a blocker,
/// if it does not wait already. So no unit starts while a loaded unit it
/// is to start after is not active, or while a unit it conflicts with has
/// a guard at work.
pub proof fn law_blocked_start_waits(
    g: Graph,
    u: Seq<char>,
    deps: Deps,
    loaded: Set<Seq<char>>,
    guards: Map<Seq<char>, Guard>,
    states: States,
    v: Seq<char>,
    edge: Edge,
)
    requires
        list(deps, edge).contains(v),
        blocks(edge, loaded, guards, states)(v),
    ensures
        !g.add_to_start_list_out(u, deps, loaded, guards, states).contains(Notice::DepsReady(u)),
        !lacks(deps, loaded) ==> g.add_to_start_list(
            u,
            deps,
            loaded,
            guards,
            states,
        ).start_list.contains_key(u),
        !lacks(deps, loaded) && !g.start_list.contains_key(u) ==> g.add_to_start_list(
            u,
            deps,
            loaded,
            guards,
            states,
        ).start_list[u].get(edge).contains(v),
{
    let named = list(deps, edge);
    let pred = blocks(edge, loaded, guards, states);
    lemma_unique(named);
    crate::idset::lemma_filter(unique(named), pred);
    let kept = unique(named).filter(pred);
    assert(kept.contains(v));
    let i = choose|i: int| 0 <= i < kept.len() && kept[i] == v;
    let w = blockers(deps, loaded, guards, states);
    assert(w.get(edge) == kept);
    assert(!w.ready());
    let out = g.add_to_start_list_out(u, deps, loaded, guards, states);
    if out.contains(Notice::DepsReady(u)) {
        let j = choose|j: int| 0 <= j < out.len() && out[j] == Notice::DepsReady(u);
        assert(out[j] == Notice::DepsReady(u));
    }
}

/// A unit that requires a unit which is not loaded is told that it is not
/// to start as soon as its guard is made, and is not put on the start
/// list.
pub proof fn law_missing_requirement_fails(
    g: Graph,
    u: Seq<char>,
    deps: Deps,
    loaded: Set<Seq<char>>,
    guards: Map<Seq<char>, Guard>,
    states: States,
    v: Seq<char>,
)
    requires
        !g.start_list.contains_key(u),
        deps.requires.contains(v),
        !loaded.contains(v),
    ensures
        g.add_to_start_list_out(u, deps, loaded, guards, states) == seq![Notice::DepsFailed(u)],
        g.add_to_start_list(u, deps, loaded, guards, states) == g,
{
}

/// A unit is not kept waiting by a unit that it wants, or is to start
/// after, and that is not loaded.
pub proof fn law_missing_peer_is_not_waited_for(
    deps: Deps,
    loaded: Set<Seq<char>>,
    guards: Map<Seq<char>, Guard>,
    states: States,
    v: Seq<char>,
)
    requires
        !loaded.contains(v),
    ensures
        !blockers(deps, loaded, guards, states).wants.contains(v),
        !blockers(deps, loaded, guards, states).after.contains(v),
{
    crate::idset::lemma_filter(unique(deps.wants), blocks(Edge::Wants, loaded, guards, states));
    crate::idset::lemma_filter(unique(deps.after), blocks(Edge::After, loaded, guards, states));
}

/// Waiting only ever gets shorter: after a change of state, every unit on
/// the start list was on it before, with at least the blockers it has now.
/// And a unit that is let go leaves the start list.
pub proof fn law_waiters_shrink(g: Graph, id: Seq<char>, s: State)
    ensures
        g.state_change(id, s).reverse == g.reverse,
        forall|p: Seq<char>| #[trigger]
            g.state_change(id, s).start_list.contains_key(p) ==> g.start_list.contains_key(p),
        forall|p: Seq<char>, e: Edge, x: Seq<char>|
            g.state_change(id, s).start_list.contains_key(p) && #[trigger] g.state_change(
                id,
                s,
            ).start_list[p].get(e).contains(x) ==> g.start_list[p].get(e).contains(x),
        forall|p: Seq<char>| #[trigger]
            g.state_change_out(id, s).contains(Notice::DepsReady(p))
                ==> g.start_list.contains_key(p) && !g.state_change(
                id,
                s,
            ).start_list.contains_key(p),
{
    if g.reverse.contains_key(id) {
        let rev = g.reverse[id];
        let start = g.withdrawn(id, s);
        let out = g.state_change_out(id, s);
        match s {
            State::Active => {
                let a = relieved(start, rev.required_by, Edge::Requires, id);
                let b = relieved(a, rev.wanted_by, Edge::Wants, id);
                let c = relieved(b, rev.followers(), Edge::After, id);
                lemma_pass_shrinks(start, rev.required_by, Edge::Requires, id);
                lemma_pass_shrinks(a, rev.wanted_by, Edge::Wants, id);
                lemma_pass_shrinks(b, rev.followers(), Edge::After, id);
                let r1 = released(start, rev.required_by, Edge::Requires, id);
                let r2 = released(a, rev.wanted_by, Edge::Wants, id);
                let r3 = released(b, rev.followers(), Edge::After, id);
                let all = r1 + r2 + r3;
                assert forall|p: Seq<char>| #[trigger]
                    out.contains(Notice::DepsReady(p)) implies start.contains_key(p)
                    && !c.contains_key(p) by {
                    assert(Notice::DepsReady(p) == say(Word::Ready)(p));
                    lemma_said(all, Word::Ready, Word::Ready, p);
                    let i = choose|i: int| 0 <= i < all.len() && all[i] == p;
                    if i < r1.len() {
                        assert(r1[i] == p);
                        assert(r1.contains(p));
                    } else if i < r1.len() + r2.len() {
                        assert(r2[i - r1.len()] == p);
                        assert(r2.contains(p));
                    } else {
                        assert(r3[i - r1.len() - r2.len()] == p);
                        assert(r3.contains(p));
                    }
                }
            },
            State::Stopped => {
                lemma_pass_shrinks(start, rev.rivals_behind(), Edge::After, id);
                let goes = released(start, rev.rivals_behind(), Edge::After, id);
                assert forall|p: Seq<char>| #[trigger]
                    out.contains(Notice::DepsReady(p)) implies goes.contains(p) by {
                    assert(Notice::DepsReady(p) == say(Word::Ready)(p));
                    lemma_said(goes, Word::Ready, Word::Ready, p);
                }
            },
            State::Stopping => {
                lemma_pass_shrinks(start, rev.conflicts, Edge::Conflicts, id);
                let stops = rev.required_by.map_values(say(Word::Stop));
                let goes = released(start, rev.conflicts, Edge::Conflicts, id);
                let go = goes.map_values(say(Word::Ready));
                assert forall|p: Seq<char>| #[trigger]
                    out.contains(Notice::DepsReady(p)) implies goes.contains(p) by {
                    let ready = Notice::DepsReady(p);
                    assert(ready == say(Word::Ready)(p));
                    lemma_said(goes, Word::Ready, Word::Ready, p);
                    lemma_said(rev.required_by, Word::Stop, Word::Ready, p);
                    let all = stops + go;
                    let i = choose|i: int| 0 <= i < all.len() && all[i] == ready;
                    if i < stops.len() {
                        assert(stops[i] == ready);
                    } else {
                        assert(go[i - stops.len()] == ready);
                    }
                }
            },
            State::Starting => {
                assert forall|p: Seq<char>| !#[trigger] out.contains(Notice::DepsReady(p)) by {
                    assert(Notice::DepsReady(p) == say(Word::Ready)(p));
                    lemma_said(
                        rev.conflicts.filter(waits_on_conflict(start, id)),
                        Word::Stop,
                        Word::Ready,
                        p,
                    );
                }
            },
            State::Failed => {
                let dropped = g.start_list.remove(id).remove_keys(rev.required_by.to_set());
                let a = relieved(dropped, rev.wanted_by, Edge::Wants, id);
                let b = relieved(a, rev.before, Edge::After, id);
                lemma_pass_shrinks(dropped, rev.wanted_by, Edge::Wants, id);
                lemma_pass_shrinks(a, rev.before, Edge::After, id);
                let r1 = released(dropped, rev.wanted_by, Edge::Wants, id);
                let r2 = released(a, rev.before, Edge::After, id);
                let goes = r1 + r2;
                let fails = rev.required_by.map_values(say(Word::Failed));
                let go = goes.map_values(say(Word::Ready));
                assert forall|p: Seq<char>| #[trigger]
                    out.contains(Notice::DepsReady(p)) implies g.start_list.contains_key(p)
                    && !b.contains_key(p) by {
                    let ready = Notice::DepsReady(p);
                    assert(ready == say(Word::Ready)(p));
                    lemma_said(rev.required_by, Word::Failed, Word::Ready, p);
                    lemma_said(goes, Word::Ready, Word::Ready, p);
                    let all = fails + go;
                    let i = choose|i: int| 0 <= i < all.len() && all[i] == ready;
                    if i < fails.len() {
                        assert(fails[i] == ready);
                    } else {
                        assert(go[i - fails.len()] == ready);
                    }
                    let k = choose|k: int| 0 <= k < goes.len() && goes[k] == p;
                    if k < r1.len() {
                        assert(r1[k] == p);
                        assert(r1.contains(p));
                    } else {
                        assert(r2[k - r1.len()] == p);
                        assert(r2.contains(p));
                    }
                }
            },
            State::Uninit => {},
        }
    }
}

/// The failure of a unit reaches every unit that requires it: each is
/// told that it is not to start, and waits no longer.
pub proof fn law_failure_reaches_dependents(g: Graph, v: Seq<char>, u: Seq<char>)
    requires
        g.reverse.contains_key(v),
        g.reverse[v].required_by.contains(u),
    ensures
        g.state_change_out(v, State::Failed).contains(Notice::DepsFailed(u)),
        !g.state_change_out(v, State::Failed).contains(Notice::DepsReady(u)),
        !g.state_change(v, State::Failed).start_list.contains_key(u),
{
    let rev = g.reverse[v];
    let fails = rev.required_by.map_values(say(Word::Failed));
    assert(Notice::DepsFailed(u) == say(Word::Failed)(u));
    lemma_said(rev.required_by, Word::Failed, Word::Failed, u);
    let i = choose|i: int| 0 <= i < fails.len() && fails[i] == Notice::DepsFailed(u);
    let out = g.state_change_out(v, State::Failed);
    assert(out[i] == Notice::DepsFailed(u));
    let dropped = g.start_list.remove(v).remove_keys(rev.required_by.to_set());
    let a = relieved(dropped, rev.wanted_by, Edge::Wants, v);
    assert(rev.required_by.to_set().contains(u));
    lemma_pass_shrinks(dropped, rev.wanted_by, Edge::Wants, v);
    lemma_pass_shrinks(a, rev.before, Edge::After, v);
    law_waiters_shrink(g, v, State::Failed);
}

/// A failure does not hold up what merely wants the failed unit or was to
/// start after it: a unit that waits for nothing but the failed unit, and
/// does not require it, is let go.
pub proof fn law_failure_lets_the_rest_go(g: Graph, v: Seq<char>, u: Seq<char>)
    requires
        g.reverse.contains_key(v),
        u != v,
        !g.reverse[v].required_by.contains(u),
        g.start_list.contains_key(u),
        !g.start_list[u].ready(),
        g.start_list[u].clear(Edge::Wants, v).clear(Edge::After, v).ready(),
        g.start_list[u].wants.contains(v) ==> g.reverse[v].wanted_by.contains(u),
        g.start_list[u].after.contains(v) ==> g.reverse[v].before.contains(u),
    ensures
        g.state_change_out(v, State::Failed).contains(Notice::DepsReady(u)),
        !g.state_change(v, State::Failed).start_list.contains_key(u),
{
    let rev = g.reverse[v];
    let dropped = g.start_list.remove(v).remove_keys(rev.required_by.to_set());
    let a = relieved(dropped, rev.wanted_by, Edge::Wants, v);
    let b = relieved(a, rev.before, Edge::After, v);
    let r1 = released(dropped, rev.wanted_by, Edge::Wants, v);
    let r2 = released(a, rev.before, Edge::After, v);
    let w = g.start_list[u];
    assert(!rev.required_by.to_set().contains(u));
    assert(dropped.contains_key(u) && dropped[u] == w);
    lemma_without(w.wants, v);
    lemma_without(w.after, v);
    crate::idset::lemma_filter(rev.wanted_by, lets_go(dropped, Edge::Wants, v));
    crate::idset::lemma_filter(rev.before, lets_go(a, Edge::After, v));
    if !w.wants.contains(v) {
        crate::idset::lemma_without_absent(w.wants, v);
    }
    if !w.after.contains(v) {
        crate::idset::lemma_without_absent(w.after, v);
    }
    let goes = r1 + r2;
    if rev.wanted_by.contains(u) && w.clear(Edge::Wants, v).ready() {
        assert(r1.contains(u));
        let i = choose|i: int| 0 <= i < r1.len() && r1[i] == u;
        assert(goes[i] == u);
    } else {
        assert(a.contains_key(u));
        assert(a[u].clear(Edge::After, v).ready()) by {
            if rev.wanted_by.contains(u) {
                assert(a[u] == w.clear(Edge::Wants, v));
            } else {
                assert(a[u] == w);
                assert(w.clear(Edge::Wants, v) == w);
            }
        }
        assert(w.after.contains(v)) by {
            if !w.after.contains(v) {
                assert(w.clear(Edge::Wants, v).clear(Edge::After, v) == w.clear(Edge::Wants, v));
                if !rev.wanted_by.contains(u) {
                    assert(w.clear(Edge::Wants, v) == w);
                }
            }
        }
        assert(r2.contains(u));
        let i = choose|i: int| 0 <= i < r2.len() && r2[i] == u;
        assert(goes[r1.len() + i] == u);
    }
    assert(goes.contains(u));
    lemma_said(goes, Word::Ready, Word::Ready, u);
    let go = goes.map_values(say(Word::Ready));
    let k = choose|k: int| 0 <= k < go.len() && go[k] == say(Word::Ready)(u);
    let out = g.state_change_out(v, State::Failed);
    let fails = rev.required_by.map_values(say(Word::Failed));
    assert(out[fails.len() + k] == Notice::DepsReady(u));
    law_waiters_shrink(g, v, State::Failed);
}

/// When a unit begins to stop, every unit that requires it is told to
/// stop.
pub proof fn law_stop_reaches_dependents(g: Graph, v: Seq<char>, u: Seq<char>)
    requires
        g.reverse.contains_key(v),
        g.reverse[v].required_by.contains(u),
    ensures
        g.state_change_out(v, State::Stopping).contains(Notice::Stop(u)),
{
    let stops = g.reverse[v].required_by.map_values(say(Word::Stop));
    assert(Notice::Stop(u) == say(Word::Stop)(u));
    lemma_said(g.reverse[v].required_by, Word::Stop, Word::Stop, u);
    let i = choose|i: int| 0 <= i < stops.len() && stops[i] == Notice::Stop(u);
    let out = g.state_change_out(v, State::Stopping);
    assert(out[i] == Notice::Stop(u));
}

/// Whether every unit on the start list has something that blocks it.
pub open spec fn all_blocked(start: Map<Seq<char>, Waiter>) -> bool {
    forall|p: Seq<char>| #[trigger] start.contains_key(p) ==> !start[p].ready()
}

/// One pass of relief leaves nobody on the start list whom nothing blocks.
proof fn lemma_pass_keeps_blocked(
    start: Map<Seq<char>, Waiter>,
    peers: Seq<Seq<char>>,
    edge: Edge,
    id: Seq<char>,
)
    requires
        all_blocked(start),
    ensures
        all_blocked(relieved(start, peers, edge, id)),
{
}

/// Nobody waits without a reason: if every unit on the start list has
/// something that blocks it, that is so after every change of state and
/// after every guard that asks to be told when it may start. A unit whose
/// last blocker is out of the way is let go, not kept.
pub proof fn law_waiters_have_blockers(
    g: Graph,
    id: Seq<char>,
    s: State,
    deps: Deps,
    loaded: Set<Seq<char>>,
    guards: Map<Seq<char>, Guard>,
    states: States,
)
    requires
        all_blocked(g.start_list),
    ensures
        all_blocked(Graph::empty().start_list),
        all_blocked(g.state_change(id, s).start_list),
        all_blocked(g.add_to_start_list(id, deps, loaded, guards, states).start_list),
        g.load(id, deps).start_list == g.start_list,
        g.update(id, deps, deps).start_list == g.start_list,
{
    let start = g.withdrawn(id, s);
    assert(all_blocked(start));
    if g.reverse.contains_key(id) {
        let rev = g.reverse[id];
        match s {
            State::Active => {
                let a = relieved(g.start_list, rev.required_by, Edge::Requires, id);
                let b = relieved(a, rev.wanted_by, Edge::Wants, id);
                lemma_pass_keeps_blocked(g.start_list, rev.required_by, Edge::Requires, id);
                lemma_pass_keeps_blocked(a, rev.wanted_by, Edge::Wants, id);
                lemma_pass_keeps_blocked(b, rev.followers(), Edge::After, id);
            },
            State::Failed => {
                let dropped = g.start_list.remove(id).remove_keys(rev.required_by.to_set());
                let a = relieved(dropped, rev.wanted_by, Edge::Wants, id);
                assert(all_blocked(dropped));
                lemma_pass_keeps_blocked(dropped, rev.wanted_by, Edge::Wants, id);
                lemma_pass_keeps_blocked(a, rev.before, Edge::After, id);
            },
            State::Stopped => {
                lemma_pass_keeps_blocked(start, rev.rivals_behind(), Edge::After, id);
            },
            State::Stopping => {
                lemma_pass_keeps_blocked(start, rev.conflicts, Edge::Conflicts, id);
            },
            _ => {},
        }
    }
}

} // verus!
