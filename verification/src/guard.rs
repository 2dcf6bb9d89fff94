//! Guards and their registry.
//!
//! A guard drives one instance of one unit from the wait for its
//! dependencies to its final state. The registry holds the guard of every
//! unit that has one, never two for one unit, and hands each guard what is
//! addressed to it.

use vstd::prelude::*;

use crate::state::State;
use crate::table::Table;
use crate::unit::{Deps, Report, RtMsg, UnitDeps, UnitId};

verus! {

/// Where a guard stands.
#[derive(Clone, Copy, Debug, PartialEq, Eq, Structural)]
pub enum Phase {
    /// It waits to hear that the unit's dependencies are ready.
    WaitDeps,
    /// It has asked the state store to move the unit from a dead state to
    /// `Starting`, and waits for the answer.
    Claiming,
    /// The unit is `Starting`; the backend has been asked to start it.
    Launching,
    /// The unit is `Active`.
    Running,
    /// The unit is `Stopping`; the backend has been asked to stop it.
    Halting,
    /// The guard is through.
    Done,
}

/// What can happen to a guard, as plain values.
pub enum Happening {
    DepsReady,
    DepsFailed,
    Stop,
    Claimed(Result<State, State>),
    Started(bool),
    Stopped(bool),
    Runtime(Report),
}

/// What can happen to a guard.
#[derive(Debug)]
pub enum GuardEvent {
    /// The resolver found nothing left that blocks the start.
    DepsReady,
    /// A unit that this one requires has failed.
    DepsFailed,
    /// The unit is to be stopped.
    Stop,
    /// The state store's answer to the claim: `Ok` if the unit is now
    /// `Starting`, `Err` with the state that stood in the way.
    Claimed(Result<State, State>),
    /// The backend's start has ended; `true` if it succeeded.
    Started(bool),
    /// The backend's stop has ended; `true` if it succeeded.
    Stopped(bool),
    /// The running backend reports.
    Runtime(RtMsg),
}

impl DeepView for GuardEvent {
    type V = Happening;

    open spec fn deep_view(&self) -> Happening {
        match self {
            GuardEvent::DepsReady => Happening::DepsReady,
            GuardEvent::DepsFailed => Happening::DepsFailed,
            GuardEvent::Stop => Happening::Stop,
            GuardEvent::Claimed(r) => Happening::Claimed(*r),
            GuardEvent::Started(ok) => Happening::Started(*ok),
            GuardEvent::Stopped(ok) => Happening::Stopped(*ok),
            GuardEvent::Runtime(msg) => Happening::Runtime(msg.deep_view()),
        }
    }
}

/// What a guard asks for, as plain values.
pub enum Act {
    Write(State),
    Claim,
    Yield,
    StartBackend,
    StopBackend,
    TriggerStart(Seq<char>),
    Remove,
}

/// What a guard asks for.
#[derive(Debug)]
pub enum GuardAction {
    /// Write this state for the unit, whatever state it has.
    Write(State),
    /// Write `Starting` for the unit if its state is dead, and report back
    /// with `Claimed`.
    Claim,
    /// Let everybody else run before going on with what follows.
    Yield,
    /// Have the backend start the unit, and report back with `Started`.
    StartBackend,
    /// Have the backend stop the unit, and report back with `Stopped`.
    StopBackend,
    /// Have the named unit started.
    TriggerStart(UnitId),
    /// Take the guard out of the registry: it is through.
    Remove,
}

impl DeepView for GuardAction {
    type V = Act;

    open spec fn deep_view(&self) -> Act {
        match self {
            GuardAction::Write(s) => Act::Write(*s),
            GuardAction::Claim => Act::Claim,
            GuardAction::Yield => Act::Yield,
            GuardAction::StartBackend => Act::StartBackend,
            GuardAction::StopBackend => Act::StopBackend,
            GuardAction::TriggerStart(id) => Act::TriggerStart(id@),
            GuardAction::Remove => Act::Remove,
        }
    }
}

/// The guard of one instance of one unit.
#[derive(Clone, Copy, Debug, PartialEq, Eq, Structural)]
pub struct Guard {
    /// Where the guard stands.
    pub phase: Phase,
    /// A stop came in while the unit was on its way up; it is carried out
    /// as soon as the unit is up.
    pub stop_pending: bool,
}

impl DeepView for Guard {
    type V = Guard;

    open spec fn deep_view(&self) -> Guard {
        *self
    }
}

impl Guard {
    /// A guard that waits for its unit's dependencies.
    pub open spec fn fresh() -> Guard {
        Guard { phase: Phase::WaitDeps, stop_pending: false }
    }

    /// Whether the guard is still at work.
    pub open spec fn live(self) -> bool {
        self.phase != Phase::Done
    }

    /// The guard after `ev`.
    pub open spec fn next(self, ev: Happening) -> Guard {
        let through = Guard { phase: Phase::Done, stop_pending: self.stop_pending };
        let noted = Guard { phase: self.phase, stop_pending: true };
        match self.phase {
            Phase::WaitDeps => match ev {
                Happening::DepsReady => Guard { phase: Phase::Claiming, ..self },
                Happening::Stop | Happening::DepsFailed => through,
                _ => self,
            },
            Phase::Claiming => match ev {
                Happening::Claimed(Ok(_)) => Guard { phase: Phase::Launching, ..self },
                Happening::Claimed(Err(State::Stopping)) => self,
                Happening::Claimed(Err(_)) => through,
                Happening::Stop => noted,
                _ => self,
            },
            Phase::Launching => match ev {
                Happening::Started(true) => if self.stop_pending {
                    Guard { phase: Phase::Halting, stop_pending: false }
                } else {
                    Guard { phase: Phase::Running, ..self }
                },
                Happening::Started(false) => through,
                Happening::Stop => noted,
                _ => self,
            },
            Phase::Running => match ev {
                Happening::Stop => Guard { phase: Phase::Halting, ..self },
                Happening::Runtime(Report::Exit(_)) => through,
                _ => self,
            },
            Phase::Halting => match ev {
                Happening::Stopped(_) => through,
                _ => self,
            },
            Phase::Done => self,
        }
    }

    /// What the guard asks for when `ev` happens, in order.
    pub open spec fn actions(self, ev: Happening) -> Seq<Act> {
        match self.phase {
            Phase::WaitDeps => match ev {
                Happening::DepsReady => seq![Act::Claim],
                Happening::Stop => seq![Act::Write(State::Stopped), Act::Remove],
                Happening::DepsFailed => seq![Act::Write(State::Failed), Act::Remove],
                _ => seq![],
            },
            Phase::Claiming => match ev {
                Happening::Claimed(Ok(_)) => seq![Act::StartBackend],
                Happening::Claimed(Err(State::Stopping)) => seq![Act::Yield, Act::Claim],
                Happening::Claimed(Err(_)) => seq![Act::Remove],
                _ => seq![],
            },
            Phase::Launching => match ev {
                Happening::Started(true) => if self.stop_pending {
                    seq![Act::Write(State::Active), Act::Write(State::Stopping), Act::StopBackend]
                } else {
                    seq![Act::Write(State::Active)]
                },
                Happening::Started(false) => seq![Act::Write(State::Failed), Act::Remove],
                _ => seq![],
            },
            Phase::Running => match ev {
                Happening::Stop => seq![Act::Write(State::Stopping), Act::StopBackend],
                Happening::Runtime(Report::Exit(s)) => seq![Act::Write(s), Act::Remove],
                Happening::Runtime(Report::TriggerStart(id)) => seq![Act::TriggerStart(id)],
                _ => seq![],
            },
            Phase::Halting => match ev {
                Happening::Stopped(true) => seq![Act::Write(State::Stopped), Act::Remove],
                Happening::Stopped(false) => seq![Act::Write(State::Failed), Act::Remove],
                _ => seq![],
            },
            Phase::Done => seq![],
        }
    }

    /// A guard that waits for its unit's dependencies.
    pub fn new() -> (guard: Guard)
        ensures
            guard == Guard::fresh(),
    {
        Guard { phase: Phase::WaitDeps, stop_pending: false }
    }

    /// Whether the guard is still at work.
    pub fn is_live(&self) -> (r: bool)
        ensures
            r == self.live(),
    {
        match self.phase {
            Phase::Done => false,
            _ => true,
        }
    }

    /// Takes `ev` in: moves the guard on and says what it asks for, in the
    /// order in which it is to be done.
    pub fn step(&mut self, ev: GuardEvent) -> (out: Vec<GuardAction>)
        ensures
            *final(self) == old(self).next(ev.deep_view()),
            out.deep_view() == old(self).actions(ev.deep_view()),
    {
        let mut out: Vec<GuardAction> = Vec::new();
        match self.phase {
            Phase::WaitDeps => match ev {
                GuardEvent::DepsReady => {
                    self.phase = Phase::Claiming;
                    out.push(GuardAction::Claim);
                },
                GuardEvent::Stop => {
                    self.phase = Phase::Done;
                    out.push(GuardAction::Write(State::Stopped));
                    out.push(GuardAction::Remove);
                },
                GuardEvent::DepsFailed => {
                    self.phase = Phase::Done;
                    out.push(GuardAction::Write(State::Failed));
                    out.push(GuardAction::Remove);
                },
                _ => {},
            },
            Phase::Claiming => match ev {
                GuardEvent::Claimed(Ok(_)) => {
                    self.phase = Phase::Launching;
                    out.push(GuardAction::StartBackend);
                },
                GuardEvent::Claimed(Err(State::Stopping)) => {
                    out.push(GuardAction::Yield);
                    out.push(GuardAction::Claim);
                },
                GuardEvent::Claimed(Err(_)) => {
                    self.phase = Phase::Done;
                    out.push(GuardAction::Remove);
                },
                GuardEvent::Stop => {
                    self.stop_pending = true;
                },
                _ => {},
            },
            Phase::Launching => match ev {
                GuardEvent::Started(true) => {
                    out.push(GuardAction::Write(State::Active));
                    if self.stop_pending {
                        self.phase = Phase::Halting;
                        self.stop_pending = false;
                        out.push(GuardAction::Write(State::Stopping));
                        out.push(GuardAction::StopBackend);
                    } else {
                        self.phase = Phase::Running;
                    }
                },
                GuardEvent::Started(false) => {
                    self.phase = Phase::Done;
                    out.push(GuardAction::Write(State::Failed));
                    out.push(GuardAction::Remove);
                },
                GuardEvent::Stop => {
                    self.stop_pending = true;
                },
                _ => {},
            },
            Phase::Running => match ev {
                GuardEvent::Stop => {
                    self.phase = Phase::Halting;
                    out.push(GuardAction::Write(State::Stopping));
                    out.push(GuardAction::StopBackend);
                },
                GuardEvent::Runtime(RtMsg::Exit(s)) => {
                    self.phase = Phase::Done;
                    out.push(GuardAction::Write(s));
                    out.push(GuardAction::Remove);
                },
                GuardEvent::Runtime(RtMsg::TriggerStart(id)) => {
                    out.push(GuardAction::TriggerStart(id));
                },
                _ => {},
            },
            Phase::Halting => match ev {
                GuardEvent::Stopped(true) => {
                    self.phase = Phase::Done;
                    out.push(GuardAction::Write(State::Stopped));
                    out.push(GuardAction::Remove);
                },
                GuardEvent::Stopped(false) => {
                    self.phase = Phase::Done;
                    out.push(GuardAction::Write(State::Failed));
                    out.push(GuardAction::Remove);
                },
                _ => {},
            },
            Phase::Done => {},
        }
        assert(out.deep_view() =~= old(self).actions(ev.deep_view()));
        out
    }
}

/// The states in the `Write` actions of `acts`, in order.
pub open spec fn writes(acts: Seq<Act>) -> Seq<State>
    decreases acts.len(),
{
    if acts.len() == 0 {
        Seq::empty()
    } else {
        match acts.last() {
            Act::Write(s) => writes(acts.drop_last()).push(s),
            _ => writes(acts.drop_last()),
        }
    }
}

impl Guard {
    /// The states that are written for the unit when `ev` happens to the
    /// guard: those that the guard asks to be written, and `Starting` when
    /// it hears that its claim was granted, for the grant is that write.
    pub open spec fn wrote(self, ev: Happening) -> Seq<State> {
        if self.phase == Phase::Claiming && ev matches Happening::Claimed(Ok(_)) {
            seq![State::Starting]
        } else {
            writes(self.actions(ev))
        }
    }

    /// Whether `ev` is a report of the backend that the unit has left the
    /// running state for one that is not `Stopped` or `Failed`.
    pub open spec fn odd_exit(ev: Happening) -> bool {
        ev matches Happening::Runtime(Report::Exit(s)) && s != State::Stopped && s
            != State::Failed
    }

    /// Whether `t` can be all that a guard in `phase` has had written for
    /// its unit.
    ///
    /// A guard goes through `Starting`, then `Active`, then either
    /// `Stopping` and from there to `Stopped` or `Failed`, or straight to
    /// `Stopped` or `Failed`; it can fail out of `Starting`; and it can end
    /// before `Starting` with `Stopped` or `Failed`, or with nothing.
    pub open spec fn course(phase: Phase, t: Seq<State>) -> bool {
        let up = seq![State::Starting, State::Active];
        match phase {
            Phase::WaitDeps | Phase::Claiming => t == Seq::<State>::empty(),
            Phase::Launching => t == seq![State::Starting],
            Phase::Running => t == up,
            Phase::Halting => t == up.push(State::Stopping),
            Phase::Done => {
                ||| t == Seq::<State>::empty()
                ||| t == seq![State::Stopped]
                ||| t == seq![State::Failed]
                ||| t == seq![State::Starting, State::Failed]
                ||| t == up.push(State::Stopped)
                ||| t == up.push(State::Failed)
                ||| t == up.push(State::Stopping).push(State::Stopped)
                ||| t == up.push(State::Stopping).push(State::Failed)
            },
        }
    }

    /// The guard after the events `evs`, one after the other.
    pub open spec fn after_all(self, evs: Seq<Happening>) -> Guard
        decreases evs.len(),
    {
        if evs.len() == 0 {
            self
        } else {
            self.after_all(evs.drop_last()).next(evs.last())
        }
    }

    /// All that is written for the unit while the events `evs` happen to
    /// the guard, one after the other.
    pub open spec fn wrote_all(self, evs: Seq<Happening>) -> Seq<State>
        decreases evs.len(),
    {
        if evs.len() == 0 {
            Seq::empty()
        } else {
            self.wrote_all(evs.drop_last()) + self.after_all(evs.drop_last()).wrote(evs.last())
        }
    }
}

/// One step of a guard keeps the unit on its course: if `t` is what a
/// guard has had written so far, then `t` with what `ev` makes it write is
/// what a guard in its next phase can have had written. This holds of every
/// event but the backend's report of an exit to a state other than
/// `Stopped` and `Failed`.
pub proof fn law_step_keeps_course(g: Guard, t: Seq<State>, ev: Happening)
    requires
        Guard::course(g.phase, t),
        !Guard::odd_exit(ev),
    ensures
        Guard::course(g.next(ev).phase, t + g.wrote(ev)),
{
    let acts = g.actions(ev);
    let w = g.wrote(ev);
    reveal_with_fuel(writes, 4);
    assert(acts.len() <= 3);
    if acts.len() == 0 {
        assert(writes(acts) =~= Seq::<State>::empty());
    } else if acts.len() == 1 {
        assert(acts.drop_last() =~= Seq::<Act>::empty());
    } else if acts.len() == 2 {
        assert(acts.drop_last().drop_last() =~= Seq::<Act>::empty());
    } else {
        assert(acts.drop_last().drop_last().drop_last() =~= Seq::<Act>::empty());
    }
    let up = seq![State::Starting, State::Active];
    match g.phase {
        Phase::WaitDeps => {
            match ev {
                Happening::DepsReady => {
                    assert(t + w =~= t);
                },
                Happening::Stop => {
                    assert(t + w =~= seq![State::Stopped]);
                },
                Happening::DepsFailed => {
                    assert(t + w =~= seq![State::Failed]);
                },
                _ => {
                    assert(t + w =~= t);
                },
            }
        },
        Phase::Claiming => {
            match ev {
                Happening::Claimed(Ok(_)) => {
                    assert(t + w =~= seq![State::Starting]);
                },
                _ => {
                    assert(t + w =~= t);
                },
            }
        },
        Phase::Launching => {
            match ev {
                Happening::Started(true) => {
                    if g.stop_pending {
                        assert(t + w =~= up.push(State::Stopping));
                    } else {
                        assert(t + w =~= up);
                    }
                },
                Happening::Started(false) => {
                    assert(t + w =~= seq![State::Starting, State::Failed]);
                },
                _ => {
                    assert(t + w =~= t);
                },
            }
        },
        Phase::Running => {
            match ev {
                Happening::Stop => {
                    assert(t + w =~= up.push(State::Stopping));
                },
                Happening::Runtime(Report::Exit(s)) => {
                    assert(t + w =~= up.push(s));
                },
                _ => {
                    assert(t + w =~= t);
                },
            }
        },
        Phase::Halting => {
            match ev {
                Happening::Stopped(true) => {
                    assert(t + w =~= up.push(State::Stopping).push(State::Stopped));
                },
                Happening::Stopped(false) => {
                    assert(t + w =~= up.push(State::Stopping).push(State::Failed));
                },
                _ => {
                    assert(t + w =~= t);
                },
            }
        },
        Phase::Done => {
            assert(t + w =~= t);
        },
    }
}

/// Whatever happens to a fresh guard, what is written for its unit is a
/// course from `Starting` on, or the end before it: as long as the backend
/// reports no exit to a state other than `Stopped` and `Failed`.
pub proof fn law_guard_course(evs: Seq<Happening>)
    requires
        forall|i: int| 0 <= i < evs.len() ==> !Guard::odd_exit(#[trigger] evs[i]),
    ensures
        Guard::course(Guard::fresh().after_all(evs).phase, Guard::fresh().wrote_all(evs)),
    decreases evs.len(),
{
    if evs.len() > 0 {
        let head = evs.drop_last();
        assert forall|i: int| 0 <= i < head.len() implies !Guard::odd_exit(#[trigger] head[i]) by {
            assert(head[i] == evs[i]);
        }
        law_guard_course(head);
        assert(!Guard::odd_exit(evs[evs.len() - 1]));
        law_step_keeps_course(
            Guard::fresh().after_all(head),
            Guard::fresh().wrote_all(head),
            evs.last(),
        );
    }
}

/// A guard that waits for its unit's dependencies and hears that one of
/// them has failed has `Failed` written for the unit and is through,
/// without the unit ever being `Starting` or `Active`.
pub proof fn law_failed_deps_end_guard(g: Guard)
    requires
        g.phase == Phase::WaitDeps,
    ensures
        g.actions(Happening::DepsFailed) == seq![Act::Write(State::Failed), Act::Remove],
        g.next(Happening::DepsFailed).phase == Phase::Done,
{
}

/// A guard asks for `Starting` only when it hears that its unit's
/// dependencies are ready, or when an earlier claim met a unit that was
/// still `Stopping`.
pub proof fn law_claim_needs_ready_deps(g: Guard, ev: Happening)
    requires
        g.actions(ev).contains(Act::Claim),
    ensures
        (g.phase == Phase::WaitDeps && ev == Happening::DepsReady) || (g.phase == Phase::Claiming
            && ev == Happening::Claimed(Err(State::Stopping))),
{
    let acts = g.actions(ev);
    let i = choose|i: int| 0 <= i < acts.len() && acts[i] == Act::Claim;
    assert(acts[i] == Act::Claim);
}

/// What the registry sends out, as plain values.
pub enum Wire {
    AddToStartList(Seq<char>, Deps),
    Act(Seq<char>, Act),
}

/// What the registry sends out.
#[derive(Debug)]
pub enum GuardOut {
    /// To the resolver: a guard for this unit was made and waits for the
    /// unit's dependencies.
    AddToStartList(UnitId, UnitDeps),
    /// What the guard of this unit asks for.
    Act(UnitId, GuardAction),
}

impl DeepView for GuardOut {
    type V = Wire;

    open spec fn deep_view(&self) -> Wire {
        match self {
            GuardOut::AddToStartList(id, deps) => Wire::AddToStartList(id@, deps.deep_view()),
            GuardOut::Act(id, action) => Wire::Act(id@, action.deep_view()),
        }
    }
}

/// Whether `id` has a guard in `guards` that is still at work.
pub open spec fn has_live(guards: Map<Seq<char>, Guard>, id: Seq<char>) -> bool {
    guards.contains_key(id) && guards[id].live()
}

/// The registry after an insert for `id`: a fresh guard stands for it,
/// unless it has a live one, which stays.
pub open spec fn inserted(guards: Map<Seq<char>, Guard>, id: Seq<char>) -> Map<Seq<char>, Guard> {
    if has_live(guards, id) {
        guards
    } else {
        guards.insert(id, Guard::fresh())
    }
}

/// What an insert for `id` sends out: word to the resolver if a guard was
/// made, nothing if the insert was dropped.
pub open spec fn inserted_out(guards: Map<Seq<char>, Guard>, id: Seq<char>, deps: Deps) -> Seq<
    Wire,
> {
    if has_live(guards, id) {
        seq![]
    } else {
        seq![Wire::AddToStartList(id, deps)]
    }
}

/// The registry after `ev` was handed to the guard of `id`, if it has a
/// live one.
pub open spec fn delivered(guards: Map<Seq<char>, Guard>, id: Seq<char>, ev: Happening) -> Map<
    Seq<char>,
    Guard,
> {
    if has_live(guards, id) {
        guards.insert(id, guards[id].next(ev))
    } else {
        guards
    }
}

/// What a guard asks for, under the name of its unit.
pub open spec fn under(id: Seq<char>) -> spec_fn(Act) -> Wire {
    |a: Act| Wire::Act(id, a)
}

/// What handing `ev` to the guard of `id` sends out: what the guard asks
/// for, under the unit's name; nothing where no live guard is.
pub open spec fn delivered_out(guards: Map<Seq<char>, Guard>, id: Seq<char>, ev: Happening) -> Seq<
    Wire,
> {
    if has_live(guards, id) {
        guards[id].actions(ev).map_values(under(id))
    } else {
        seq![]
    }
}

/// The guard of every unit that has one.
#[derive(Debug)]
pub struct GuardStore {
    map: Table<Guard>,
}

impl View for GuardStore {
    type V = Map<Seq<char>, Guard>;

    closed spec fn view(&self) -> Map<Seq<char>, Guard> {
        self.map@
    }
}

impl GuardStore {
    /// A registry without guards.
    pub fn new() -> (store: GuardStore)
        ensures
            store@ == Map::<Seq<char>, Guard>::empty(),
    {
        GuardStore { map: Table::new() }
    }

    /// Whether the registry has an entry for `id`, be its guard at work or
    /// through.
    pub fn contains(&self, id: &UnitId) -> (r: bool)
        ensures
            r == self@.contains_key(id@),
    {
        self.map.contains_key(id)
    }

    /// Whether `id` has a guard that is still at work.
    pub fn is_live(&self, id: &UnitId) -> (r: bool)
        ensures
            r == has_live(self@, id@),
    {
        match self.map.get(id) {
            Some(guard) => guard.is_live(),
            None => false,
        }
    }

    /// Where the guard of `id` stands, if it has one.
    pub fn phase(&self, id: &UnitId) -> (r: Option<Phase>)
        ensures
            r == if self@.contains_key(id@) {
                Some(self@[id@].phase)
            } else {
                None
            },
    {
        match self.map.get(id) {
            Some(guard) => Some(guard.phase),
            None => None,
        }
    }

    /// Makes a guard for `id` and tells the resolver, unless `id` has a
    /// live guard: then nothing happens, so that no unit ever has two. An
    /// entry whose guard is through is replaced.
    pub fn insert(&mut self, id: UnitId, deps: UnitDeps) -> (out: Vec<GuardOut>)
        ensures
            final(self)@ == inserted(old(self)@, id@),
            out.deep_view() == inserted_out(old(self)@, id@, deps.deep_view()),
    {
        let mut out: Vec<GuardOut> = Vec::new();
        if self.is_live(&id) {
            assert(out.deep_view() =~= Seq::<Wire>::empty());
        } else {
            self.map.insert(id.clone(), Guard::new());
            let ghost wire = Wire::AddToStartList(id@, deps.deep_view());
            out.push(GuardOut::AddToStartList(id, deps));
            assert(out.deep_view() =~= seq![wire]);
        }
        out
    }

    /// Takes the entry of `id` out.
    pub fn remove(&mut self, id: &UnitId)
        ensures
            final(self)@ == old(self)@.remove(id@),
    {
        self.map.remove(id);
    }

    /// Hands `ev` to the guard of `id` and passes on what it asks for.
    /// Where `id` has no guard, or one that is through, nothing happens.
    pub fn deliver(&mut self, id: &UnitId, ev: GuardEvent) -> (out: Vec<GuardOut>)
        ensures
            final(self)@ == delivered(old(self)@, id@, ev.deep_view()),
            out.deep_view() == delivered_out(old(self)@, id@, ev.deep_view()),
    {
        let mut out: Vec<GuardOut> = Vec::new();
        let ghost tag = under(id@);
        let mut guard = match self.map.get(id) {
            Some(guard) => *guard,
            None => {
                assert(out.deep_view() =~= Seq::<Wire>::empty());
                return out;
            },
        };
        if !guard.is_live() {
            assert(out.deep_view() =~= Seq::<Wire>::empty());
            return out;
        }
        let mut actions = guard.step(ev);
        self.map.insert(id.clone(), guard);
        let ghost asked = actions.deep_view();
        let ghost mut k: int = 0;
        assert(actions.deep_view() =~= asked.skip(0));
        assert(out.deep_view() =~= asked.take(0).map_values(tag));
        while actions.len() > 0
            invariant
                0 <= k <= asked.len(),
                tag == under(id@),
                actions.deep_view() =~= asked.skip(k),
                out.deep_view() =~= asked.take(k).map_values(tag),
            decreases actions.len(),
        {
            let ghost before = out.deep_view();
            let ghost left = actions.deep_view();
            let a = actions.remove(0);
            assert(a.deep_view() == left[0]);
            assert(actions.deep_view() =~= left.skip(1));
            out.push(GuardOut::Act(id.clone(), a));
            assert(out.deep_view() =~= before.push(tag(asked[k])));
            proof {
                k = k + 1;
            }
        }
        assert(asked.take(asked.len() as int) =~= asked);
        out
    }

    /// Tells the guard of `id` that the unit's dependencies are ready.
    pub fn deps_ready(&mut self, id: &UnitId) -> (out: Vec<GuardOut>)
        ensures
            final(self)@ == delivered(old(self)@, id@, Happening::DepsReady),
            out.deep_view() == delivered_out(old(self)@, id@, Happening::DepsReady),
    {
        self.deliver(id, GuardEvent::DepsReady)
    }

    /// Tells the guard of `id` that a unit it requires has failed.
    pub fn deps_failed(&mut self, id: &UnitId) -> (out: Vec<GuardOut>)
        ensures
            final(self)@ == delivered(old(self)@, id@, Happening::DepsFailed),
            out.deep_view() == delivered_out(old(self)@, id@, Happening::DepsFailed),
    {
        self.deliver(id, GuardEvent::DepsFailed)
    }

    /// Tells the guard of `id` to stop the unit.
    pub fn stop(&mut self, id: &UnitId) -> (out: Vec<GuardOut>)
        ensures
            final(self)@ == delivered(old(self)@, id@, Happening::Stop),
            out.deep_view() == delivered_out(old(self)@, id@, Happening::Stop),
    {
        self.deliver(id, GuardEvent::Stop)
    }
}

/// No unit ever has two guards at work: an insert for a unit that has a
/// live guard changes nothing and makes nothing, and every other insert
/// leaves the unit with one live guard.
pub proof fn law_one_guard_per_unit(guards: Map<Seq<char>, Guard>, id: Seq<char>, deps: Deps)
    ensures
        has_live(guards, id) ==> inserted(guards, id) == guards && inserted_out(guards, id, deps)
            == Seq::<Wire>::empty(),
        has_live(inserted(guards, id), id),
        forall|other: Seq<char>|
            other != id ==> (inserted(guards, id).contains_key(other) <==> guards.contains_key(
                other,
            )),
{
}

/// Of two inserts for one unit, one after the other, the second is
/// dropped: it changes nothing and makes no guard.
pub proof fn law_second_insert_dropped(guards: Map<Seq<char>, Guard>, id: Seq<char>, deps: Deps)
    ensures
        inserted(inserted(guards, id), id) == inserted(guards, id),
        inserted_out(inserted(guards, id), id, deps) == Seq::<Wire>::empty(),
{
}

} // verus!
