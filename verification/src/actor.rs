//! The four actors as one engine.
//!
//! The unit store, the state store, the guard registry and the dependency
//! resolver talk to each other by messages only. Here they stand side by
//! side with one queue between them: whatever one of them sends is put at
//! the end of the queue, and one step takes the message at the head and
//! hands it to the actor it is for. What none of them can do, such as to
//! run a backend, leaves the engine as an effect, and its outcome comes
//! back as a message.

use std::collections::VecDeque;
use vstd::prelude::*;

use crate::dep::{DepOut, DepStore, Graph, Notice};
use crate::guard::{
    delivered, delivered_out, inserted, inserted_out, Act, Guard, GuardAction, GuardEvent,
    GuardOut, GuardStore, Happening, Phase, Wire,
};
use crate::state::{dead_states, State, StateSet};
use crate::state_store::{Signal, StateOut, StateStore, States, Watcher};
use crate::store::{remove_orders, start_out, update_orders, Order, StoreOut, UnitStore};
use crate::unit::{Desc, Report, RtMsg, UnitDesc, UnitId};

verus! {

/// What a backend tells the guard of its unit, as plain values.
pub enum Outcry {
    Started(bool),
    Stopped(bool),
    Runtime(Report),
}

impl Outcry {
    /// What the guard hears.
    pub open spec fn happening(self) -> Happening {
        match self {
            Outcry::Started(ok) => Happening::Started(ok),
            Outcry::Stopped(ok) => Happening::Stopped(ok),
            Outcry::Runtime(report) => Happening::Runtime(report),
        }
    }
}

/// What a backend tells the guard of its unit.
#[derive(Debug)]
pub enum BackendEvent {
    /// The start has ended; `true` if it succeeded.
    Started(bool),
    /// The stop has ended; `true` if it succeeded.
    Stopped(bool),
    /// The running unit reports.
    Runtime(RtMsg),
}

impl DeepView for BackendEvent {
    type V = Outcry;

    open spec fn deep_view(&self) -> Outcry {
        match self {
            BackendEvent::Started(ok) => Outcry::Started(*ok),
            BackendEvent::Stopped(ok) => Outcry::Stopped(*ok),
            BackendEvent::Runtime(msg) => Outcry::Runtime(msg.deep_view()),
        }
    }
}

impl BackendEvent {
    /// The event as the guard takes it.
    pub fn into_event(self) -> (ev: GuardEvent)
        ensures
            ev.deep_view() == self.deep_view().happening(),
    {
        match self {
            BackendEvent::Started(ok) => GuardEvent::Started(ok),
            BackendEvent::Stopped(ok) => GuardEvent::Stopped(ok),
            BackendEvent::Runtime(msg) => GuardEvent::Runtime(msg),
        }
    }
}

/// What can be asked of the engine from outside, as plain values.
pub enum Cmd {
    Update(Desc),
    Remove(Seq<char>),
    Start(Seq<char>),
    Stop(Seq<char>),
    Restart(Seq<char>),
    SetState(Seq<char>, State),
    Monitor(Seq<char>, Set<State>, u64),
    Backend(Seq<char>, Outcry),
}

/// What can be asked of the engine from outside.
#[derive(Debug)]
pub enum Command {
    /// Load this unit, in place of the one of its name if there is one.
    Update(UnitDesc),
    /// Forget this unit.
    Remove(UnitId),
    /// Start this unit and what it pulls in.
    Start(UnitId),
    /// Stop this unit.
    Stop(UnitId),
    /// Stop this unit, and start it when it is down.
    Restart(UnitId),
    /// Write this state for this unit.
    SetState(UnitId, State),
    /// Let the client with this token watch this unit, unless its state
    /// is in the set already.
    Monitor(UnitId, StateSet, u64),
    /// The backend of this unit tells its guard this.
    Backend(UnitId, BackendEvent),
}

impl DeepView for Command {
    type V = Cmd;

    open spec fn deep_view(&self) -> Cmd {
        match self {
            Command::Update(desc) => Cmd::Update(desc.deep_view()),
            Command::Remove(id) => Cmd::Remove(id@),
            Command::Start(id) => Cmd::Start(id@),
            Command::Stop(id) => Cmd::Stop(id@),
            Command::Restart(id) => Cmd::Restart(id@),
            Command::SetState(id, s) => Cmd::SetState(id@, *s),
            Command::Monitor(id, cond, token) => Cmd::Monitor(id@, cond@, *token),
            Command::Backend(id, ev) => Cmd::Backend(id@, ev.deep_view()),
        }
    }
}

/// A message in the engine's queue, as plain values.
pub enum Msg {
    Command(Cmd),
    Event(Seq<char>, Happening),
    Store(Order),
    Guard(Wire),
    State(Signal),
    Dep(Notice),
}

/// A message in the engine's queue.
#[derive(Debug)]
pub enum Message {
    /// What was asked from outside.
    Command(Command),
    /// To the guard of this unit: this has happened.
    Event(UnitId, GuardEvent),
    /// What the unit store has sent.
    Store(StoreOut),
    /// What the guard registry has sent.
    Guard(GuardOut),
    /// What the state store has sent.
    State(StateOut),
    /// What the resolver has sent.
    Dep(DepOut),
}

impl DeepView for Message {
    type V = Msg;

    open spec fn deep_view(&self) -> Msg {
        match self {
            Message::Command(cmd) => Msg::Command(cmd.deep_view()),
            Message::Event(id, ev) => Msg::Event(id@, ev.deep_view()),
            Message::Store(order) => Msg::Store(order.deep_view()),
            Message::Guard(wire) => Msg::Guard(wire.deep_view()),
            Message::State(signal) => Msg::State(signal.deep_view()),
            Message::Dep(notice) => Msg::Dep(notice.deep_view()),
        }
    }
}

/// What the engine leaves to whoever drives it, as plain values.
pub enum Eff {
    StartBackend(Seq<char>),
    StopBackend(Seq<char>),
    Resolve(Seq<char>, u64, Result<State, State>),
    Yield,
}

/// What the engine leaves to whoever drives it.
#[derive(Debug)]
pub enum Effect {
    /// Have the backend of this unit start it, and send the guard the
    /// event `Started` with the outcome. While the unit runs, send the
    /// guard what the backend reports as `Runtime` events.
    StartBackend(UnitId),
    /// Have the backend of this unit stop it, and send the guard the event
    /// `Stopped` with the outcome.
    StopBackend(UnitId),
    /// The client with this token, who watched this unit, gets this
    /// answer.
    Resolve(UnitId, u64, Result<State, State>),
    /// Let others run before taking the next step.
    Yield,
}

impl DeepView for Effect {
    type V = Eff;

    open spec fn deep_view(&self) -> Eff {
        match self {
            Effect::StartBackend(id) => Eff::StartBackend(id@),
            Effect::StopBackend(id) => Eff::StopBackend(id@),
            Effect::Resolve(id, token, answer) => Eff::Resolve(id@, *token, *answer),
            Effect::Yield => Eff::Yield,
        }
    }
}

/// An effect, or none, as plain values.
pub open spec fn effect_view(effect: Option<Effect>) -> Option<Eff> {
    match effect {
        Some(effect) => Some(effect.deep_view()),
        None => None,
    }
}

/// The message that carries what the unit store has sent.
pub open spec fn from_store() -> spec_fn(Order) -> Msg {
    |order: Order| Msg::Store(order)
}

/// The message that carries what the guard registry has sent.
pub open spec fn from_guard() -> spec_fn(Wire) -> Msg {
    |wire: Wire| Msg::Guard(wire)
}

/// The message that carries what the state store has sent.
pub open spec fn from_state() -> spec_fn(Signal) -> Msg {
    |signal: Signal| Msg::State(signal)
}

/// The message that carries what the resolver has sent.
pub open spec fn from_dep() -> spec_fn(Notice) -> Msg {
    |notice: Notice| Msg::Dep(notice)
}

/// What the handling of one message leaves behind: the four tables, the
/// messages that were sent, and the effect.
pub struct Outcome {
    pub units: Map<Seq<char>, Desc>,
    pub states: States,
    pub guards: Map<Seq<char>, Guard>,
    pub graph: Graph,
    pub sent: Seq<Msg>,
    pub effect: Option<Eff>,
}

/// The engine, as plain values.
pub struct World {
    pub units: Map<Seq<char>, Desc>,
    pub states: States,
    pub guards: Map<Seq<char>, Guard>,
    pub graph: Graph,
    pub queue: Seq<Msg>,
}

impl World {
    /// Nothing loaded, nothing written, nobody at work, nothing to do.
    pub open spec fn empty() -> World {
        World {
            units: Map::empty(),
            states: States::empty(),
            guards: Map::empty(),
            graph: Graph::empty(),
            queue: Seq::empty(),
        }
    }

    /// The engine after `cmd` was asked of it: the command stands at the
    /// end of the queue.
    pub open spec fn asked(self, cmd: Cmd) -> World {
        World { queue: self.queue.push(Msg::Command(cmd)), ..self }
    }

    /// The outcome in which nothing has changed and nothing was sent.
    pub open spec fn quiet(self) -> Outcome {
        Outcome {
            units: self.units,
            states: self.states,
            guards: self.guards,
            graph: self.graph,
            sent: Seq::empty(),
            effect: None,
        }
    }

    /// The outcome of a write of `s` for `id`.
    pub open spec fn written(self, id: Seq<char>, s: State) -> Outcome {
        Outcome {
            states: self.states.set(id, s),
            sent: self.states.set_signals(id, s).map_values(from_state()),
            ..self.quiet()
        }
    }

    /// The outcome of `who` asking to watch `id` under `cond`.
    pub open spec fn watched(self, id: Seq<char>, cond: Set<State>, who: Watcher) -> Outcome {
        Outcome {
            states: self.states.monitor(id, cond, who),
            sent: self.states.monitor_signals(id, cond, who).map_values(from_state()),
            ..self.quiet()
        }
    }

    /// The outcome of `ev` being handed to the guard of `id`.
    pub open spec fn told(self, id: Seq<char>, ev: Happening) -> Outcome {
        Outcome {
            guards: delivered(self.guards, id, ev),
            sent: delivered_out(self.guards, id, ev).map_values(from_guard()),
            ..self.quiet()
        }
    }

    /// The outcome of a guard's claim for `id`: `Starting` is written if
    /// the unit's state is dead, and the guard hears how it went after the
    /// write has gone out.
    pub open spec fn claimed(self, id: Seq<char>) -> Outcome {
        let found = self.states.get(id);
        if found.dead() {
            Outcome {
                states: self.states.set(id, State::Starting),
                sent: self.states.set_signals(id, State::Starting).map_values(from_state()).push(
                    Msg::Event(id, Happening::Claimed(Ok(found))),
                ),
                ..self.quiet()
            }
        } else {
            Outcome {
                sent: seq![Msg::Event(id, Happening::Claimed(Err(found)))],
                ..self.quiet()
            }
        }
    }

    /// The outcome of the message `m`.
    pub open spec fn outcome(self, m: Msg) -> Outcome {
        match m {
            Msg::Command(Cmd::Update(desc)) => Outcome {
                units: self.units.insert(desc.common.name, desc),
                sent: update_orders(self.units, desc).map_values(from_store()),
                ..self.quiet()
            },
            Msg::Command(Cmd::Remove(id)) => Outcome {
                units: self.units.remove(id),
                sent: remove_orders(self.units, id).map_values(from_store()),
                ..self.quiet()
            },
            Msg::Command(Cmd::Start(id)) => Outcome {
                sent: start_out(self.units, self.guards, id).map_values(from_store()),
                ..self.quiet()
            },
            Msg::Command(Cmd::Stop(id)) => Outcome {
                sent: seq![Msg::Store(Order::GuardStop(id))],
                ..self.quiet()
            },
            Msg::Command(Cmd::Restart(id)) => Outcome {
                sent: seq![
                    Msg::Store(Order::GuardStop(id)),
                    Msg::Store(Order::StartWhenDead(id)),
                ],
                ..self.quiet()
            },
            Msg::Command(Cmd::SetState(id, s)) => self.written(id, s),
            Msg::Command(Cmd::Monitor(id, cond, token)) => self.watched(
                id,
                cond,
                Watcher::Client(token),
            ),
            Msg::Command(Cmd::Backend(id, outcry)) => self.told(id, outcry.happening()),
            Msg::Event(id, ev) => self.told(id, ev),
            Msg::Store(Order::DepLoad(id, deps)) => Outcome {
                graph: self.graph.load(id, deps),
                ..self.quiet()
            },
            Msg::Store(Order::DepUpdate(id, was, new)) => Outcome {
                graph: self.graph.update(id, was, new),
                ..self.quiet()
            },
            Msg::Store(Order::GuardStop(id)) => self.told(id, Happening::Stop),
            Msg::Store(Order::GuardInsert(id, deps)) => Outcome {
                guards: inserted(self.guards, id),
                sent: inserted_out(self.guards, id, deps).map_values(from_guard()),
                ..self.quiet()
            },
            Msg::Store(Order::StartWhenDead(id)) => self.watched(
                id,
                dead_states(),
                Watcher::Restart,
            ),
            Msg::Guard(Wire::AddToStartList(id, deps)) => Outcome {
                graph: self.graph.add_to_start_list(
                    id,
                    deps,
                    self.units.dom(),
                    self.guards,
                    self.states,
                ),
                sent: self.graph.add_to_start_list_out(
                    id,
                    deps,
                    self.units.dom(),
                    self.guards,
                    self.states,
                ).map_values(from_dep()),
                ..self.quiet()
            },
            Msg::Guard(Wire::Act(id, Act::Write(s))) => self.written(id, s),
            Msg::Guard(Wire::Act(id, Act::Claim)) => self.claimed(id),
            Msg::Guard(Wire::Act(id, Act::Yield)) => Outcome {
                effect: Some(Eff::Yield),
                ..self.quiet()
            },
            Msg::Guard(Wire::Act(id, Act::StartBackend)) => Outcome {
                effect: Some(Eff::StartBackend(id)),
                ..self.quiet()
            },
            Msg::Guard(Wire::Act(id, Act::StopBackend)) => Outcome {
                effect: Some(Eff::StopBackend(id)),
                ..self.quiet()
            },
            Msg::Guard(Wire::Act(id, Act::TriggerStart(unit))) => Outcome {
                sent: seq![Msg::Command(Cmd::Start(unit))],
                ..self.quiet()
            },
            Msg::Guard(Wire::Act(id, Act::Remove)) => Outcome {
                guards: self.guards.remove(id),
                ..self.quiet()
            },
            Msg::State(Signal::Resolve(id, Watcher::Client(token), answer)) => Outcome {
                effect: Some(Eff::Resolve(id, token, answer)),
                ..self.quiet()
            },
            Msg::State(Signal::Resolve(id, Watcher::Restart, answer)) => {
                let seen = match answer {
                    Ok(s) => s,
                    Err(s) => s,
                };
                Outcome {
                    sent: if seen.dead() {
                        seq![Msg::Command(Cmd::Start(id))]
                    } else {
                        seq![Msg::Store(Order::StartWhenDead(id))]
                    },
                    ..self.quiet()
                }
            },
            Msg::State(Signal::Publish(id, s)) => Outcome {
                graph: self.graph.state_change(id, s),
                sent: self.graph.state_change_out(id, s).map_values(from_dep()),
                ..self.quiet()
            },
            Msg::Dep(Notice::DepsReady(id)) => self.told(id, Happening::DepsReady),
            Msg::Dep(Notice::DepsFailed(id)) => self.told(id, Happening::DepsFailed),
            Msg::Dep(Notice::Stop(id)) => self.told(id, Happening::Stop),
        }
    }

    /// The engine after the message at the head of its queue had the
    /// outcome `o`: the tables are those of `o`, and what was sent stands
    /// behind the rest of the queue.
    pub open spec fn after(self, o: Outcome) -> World {
        World {
            units: o.units,
            states: o.states,
            guards: o.guards,
            graph: o.graph,
            queue: self.queue.drop_first() + o.sent,
        }
    }

    /// The engine after one step: as it is if its queue is empty, and else
    /// after the outcome of the message at the head of the queue.
    pub open spec fn next(self) -> World {
        if self.queue.len() == 0 {
            self
        } else {
            self.after(self.outcome(self.queue[0]))
        }
    }

    /// What one step of the engine leaves for the driver to do.
    pub open spec fn effect(self) -> Option<Eff> {
        if self.queue.len() == 0 {
            None
        } else {
            self.outcome(self.queue[0]).effect
        }
    }
}

/// Puts what the unit store has sent at the end of the queue.
fn post_store(queue: &mut VecDeque<Message>, outs: Vec<StoreOut>)
    ensures
        final(queue).deep_view() == old(queue).deep_view() + outs.deep_view().map_values(
            from_store(),
        ),
{
    let ghost start = queue.deep_view();
    let ghost all = outs.deep_view();
    let mut outs = outs;
    let ghost mut k: int = 0;
    assert(queue.deep_view() =~= start + all.take(0).map_values(from_store()));
    assert(outs.deep_view() =~= all.skip(0));
    while outs.len() > 0
        invariant
            0 <= k <= all.len(),
            outs.deep_view() =~= all.skip(k),
            queue.deep_view() =~= start + all.take(k).map_values(from_store()),
        decreases outs.len(),
    {
        let ghost left = outs.deep_view();
        let ghost before = queue.deep_view();
        let o = outs.remove(0);
        assert(o.deep_view() == left[0]);
        assert(outs.deep_view() =~= left.skip(1));
        queue.push_back(Message::Store(o));
        assert(queue.deep_view() =~= before.push(from_store()(all[k])));
        proof {
            k = k + 1;
        }
    }
    assert(all.take(all.len() as int) =~= all);
}

/// Puts what the guard registry has sent at the end of the queue.
fn post_guard(queue: &mut VecDeque<Message>, outs: Vec<GuardOut>)
    ensures
        final(queue).deep_view() == old(queue).deep_view() + outs.deep_view().map_values(
            from_guard(),
        ),
{
    let ghost start = queue.deep_view();
    let ghost all = outs.deep_view();
    let mut outs = outs;
    let ghost mut k: int = 0;
    assert(queue.deep_view() =~= start + all.take(0).map_values(from_guard()));
    assert(outs.deep_view() =~= all.skip(0));
    while outs.len() > 0
        invariant
            0 <= k <= all.len(),
            outs.deep_view() =~= all.skip(k),
            queue.deep_view() =~= start + all.take(k).map_values(from_guard()),
        decreases outs.len(),
    {
        let ghost left = outs.deep_view();
        let ghost before = queue.deep_view();
        let o = outs.remove(0);
        assert(o.deep_view() == left[0]);
        assert(outs.deep_view() =~= left.skip(1));
        queue.push_back(Message::Guard(o));
        assert(queue.deep_view() =~= before.push(from_guard()(all[k])));
        proof {
            k = k + 1;
        }
    }
    assert(all.take(all.len() as int) =~= all);
}

/// Puts what the state store has sent at the end of the queue.
fn post_state(queue: &mut VecDeque<Message>, outs: Vec<StateOut>)
    ensures
        final(queue).deep_view() == old(queue).deep_view() + outs.deep_view().map_values(
            from_state(),
        ),
{
    let ghost start = queue.deep_view();
    let ghost all = outs.deep_view();
    let mut outs = outs;
    let ghost mut k: int = 0;
    assert(queue.deep_view() =~= start + all.take(0).map_values(from_state()));
    assert(outs.deep_view() =~= all.skip(0));
    while outs.len() > 0
        invariant
            0 <= k <= all.len(),
            outs.deep_view() =~= all.skip(k),
            queue.deep_view() =~= start + all.take(k).map_values(from_state()),
        decreases outs.len(),
    {
        let ghost left = outs.deep_view();
        let ghost before = queue.deep_view();
        let o = outs.remove(0);
        assert(o.deep_view() == left[0]);
        assert(outs.deep_view() =~= left.skip(1));
        queue.push_back(Message::State(o));
        assert(queue.deep_view() =~= before.push(from_state()(all[k])));
        proof {
            k = k + 1;
        }
    }
    assert(all.take(all.len() as int) =~= all);
}

/// Puts what the resolver has sent at the end of the queue.
fn post_dep(queue: &mut VecDeque<Message>, outs: Vec<DepOut>)
    ensures
        final(queue).deep_view() == old(queue).deep_view() + outs.deep_view().map_values(
            from_dep(),
        ),
{
    let ghost start = queue.deep_view();
    let ghost all = outs.deep_view();
    let mut outs = outs;
    let ghost mut k: int = 0;
    assert(queue.deep_view() =~= start + all.take(0).map_values(from_dep()));
    assert(outs.deep_view() =~= all.skip(0));
    while outs.len() > 0
        invariant
            0 <= k <= all.len(),
            outs.deep_view() =~= all.skip(k),
            queue.deep_view() =~= start + all.take(k).map_values(from_dep()),
        decreases outs.len(),
    {
        let ghost left = outs.deep_view();
        let ghost before = queue.deep_view();
        let o = outs.remove(0);
        assert(o.deep_view() == left[0]);
        assert(outs.deep_view() =~= left.skip(1));
        queue.push_back(Message::Dep(o));
        assert(queue.deep_view() =~= before.push(from_dep()(all[k])));
        proof {
            k = k + 1;
        }
    }
    assert(all.take(all.len() as int) =~= all);
}

/// The four actors and the queue between them.
#[derive(Debug)]
pub struct Actors {
    store: UnitStore,
    state: StateStore,
    guard: GuardStore,
    dep: DepStore,
    queue: VecDeque<Message>,
}

impl View for Actors {
    type V = World;

    closed spec fn view(&self) -> World {
        World {
            units: self.store@,
            states: self.state@,
            guards: self.guard@,
            graph: self.dep@,
            queue: self.queue.deep_view(),
        }
    }
}

impl Actors {
    /// An engine that knows no unit and has nothing to do.
    pub fn new() -> (actors: Actors)
        ensures
            actors@ == World::empty(),
    {
        let actors = Actors {
            store: UnitStore::new(),
            state: StateStore::new(),
            guard: GuardStore::new(),
            dep: DepStore::new(),
            queue: VecDeque::new(),
        };
        assert(actors.queue.deep_view() =~= Seq::<Msg>::empty());
        actors
    }

    /// Puts `cmd` at the end of the queue.
    pub fn send(&mut self, cmd: Command)
        ensures
            final(self)@ == old(self)@.asked(cmd.deep_view()),
    {
        let ghost before = self.queue.deep_view();
        let ghost asked = Msg::Command(cmd.deep_view());
        self.queue.push_back(Message::Command(cmd));
        assert(self.queue.deep_view() =~= before.push(asked));
    }

    /// Whether the queue is empty.
    pub fn is_idle(&self) -> (r: bool)
        ensures
            r == (self@.queue.len() == 0),
    {
        self.queue.len() == 0
    }

    /// The description of `id`, if it is loaded.
    pub fn unit(&self, id: &UnitId) -> (r: Option<&UnitDesc>)
        ensures
            match r {
                Some(desc) => self@.units.contains_key(id@) && desc.deep_view()
                    == self@.units[id@],
                None => !self@.units.contains_key(id@),
            },
    {
        self.store.get(id)
    }

    /// The description of `id` and its state, if it is loaded.
    pub fn get(&self, id: &UnitId) -> (r: Option<(&UnitDesc, State)>)
        ensures
            match r {
                Some((desc, s)) => self@.units.contains_key(id@) && desc.deep_view()
                    == self@.units[id@] && s == self@.states.get(id@),
                None => !self@.units.contains_key(id@),
            },
    {
        match self.store.get(id) {
            Some(desc) => Some((desc, self.state.get(id))),
            None => None,
        }
    }

    /// The state of `id`; `Uninit` if none was ever written.
    pub fn state(&self, id: &UnitId) -> (s: State)
        ensures
            s == self@.states.get(id@),
    {
        self.state.get(id)
    }

    /// The unit store.
    pub fn units(&self) -> (store: &UnitStore)
        ensures
            store@ == self@.units,
    {
        &self.store
    }

    /// The state store.
    pub fn states(&self) -> (store: &StateStore)
        ensures
            store@ == self@.states,
    {
        &self.state
    }

    /// The guard registry.
    pub fn guards(&self) -> (store: &GuardStore)
        ensures
            store@ == self@.guards,
    {
        &self.guard
    }

    /// The resolver.
    pub fn resolver(&self) -> (store: &DepStore)
        ensures
            store@ == self@.graph,
    {
        &self.dep
    }

    /// The number of messages in the queue.
    pub fn pending(&self) -> (n: usize)
        ensures
            n == self@.queue.len(),
    {
        self.queue.len()
    }

    /// Where the guard of `id` stands, if it has one.
    pub fn phase(&self, id: &UnitId) -> (r: Option<Phase>)
        ensures
            r == if self@.guards.contains_key(id@) {
                Some(self@.guards[id@].phase)
            } else {
                None
            },
    {
        self.guard.phase(id)
    }

    /// Takes the message at the head of the queue, hands it to the actor
    /// it is for, and puts at the end of the queue what that actor sends.
    /// Hands back what is left for the driver to do, if anything.
    ///
    /// With an empty queue nothing happens.
    pub fn step(&mut self) -> (effect: Option<Effect>)
        ensures
            final(self)@ == old(self)@.next(),
            effect_view(effect) == old(self)@.effect(),
    {
        let ghost w = self@;
        let m = match self.queue.pop_front() {
            Some(m) => m,
            None => {
                return None;
            },
        };
        let ghost mv = m.deep_view();
        let ghost rest = w.queue.drop_first();
        assert(mv == w.queue[0]);
        assert(self.queue.deep_view() =~= rest);
        let mut effect: Option<Effect> = None;
        let ghost o: Outcome = w.outcome(mv);
        match m {
            Message::Command(Command::Update(desc)) => {
                let outs = self.store.update(desc);
                post_store(&mut self.queue, outs);
            },
            Message::Command(Command::Remove(id)) => {
                let outs = self.store.remove(&id);
                post_store(&mut self.queue, outs);
            },
            Message::Command(Command::Start(id)) => {
                let outs = self.store.start(&id, &self.guard);
                post_store(&mut self.queue, outs);
            },
            Message::Command(Command::Stop(id)) => {
                let outs = self.store.stop(&id);
                post_store(&mut self.queue, outs);
                assert(self.queue.deep_view() =~= rest + o.sent);
            },
            Message::Command(Command::Restart(id)) => {
                let outs = self.store.restart(&id);
                post_store(&mut self.queue, outs);
                assert(self.queue.deep_view() =~= rest + o.sent);
            },
            Message::Command(Command::SetState(id, s)) => {
                let outs = self.state.set(&id, s);
                post_state(&mut self.queue, outs);
            },
            Message::Command(Command::Monitor(id, cond, token)) => {
                let outs = self.state.monitor(&id, cond, Watcher::Client(token));
                post_state(&mut self.queue, outs);
            },
            Message::Command(Command::Backend(id, ev)) => {
                let outs = self.guard.deliver(&id, ev.into_event());
                post_guard(&mut self.queue, outs);
            },
            Message::Event(id, ev) => {
                let outs = self.guard.deliver(&id, ev);
                post_guard(&mut self.queue, outs);
            },
            Message::Store(StoreOut::DepLoad(id, deps)) => {
                self.dep.load(&id, &deps);
                assert(self.queue.deep_view() =~= rest + o.sent);
            },
            Message::Store(StoreOut::DepUpdate(id, was, new)) => {
                self.dep.update(&id, &was, &new);
                assert(self.queue.deep_view() =~= rest + o.sent);
            },
            Message::Store(StoreOut::GuardStop(id)) => {
                let outs = self.guard.stop(&id);
                post_guard(&mut self.queue, outs);
            },
            Message::Store(StoreOut::GuardInsert(id, deps)) => {
                let outs = self.guard.insert(id, deps);
                post_guard(&mut self.queue, outs);
            },
            Message::Store(StoreOut::StartWhenDead(id)) => {
                let outs = self.state.monitor(&id, StateSet::dead(), Watcher::Restart);
                post_state(&mut self.queue, outs);
            },
            Message::Guard(GuardOut::AddToStartList(id, deps)) => {
                let outs = self.dep.add_to_start_list(
                    id,
                    &deps,
                    &self.store,
                    &self.guard,
                    &self.state,
                );
                post_dep(&mut self.queue, outs);
            },
            Message::Guard(GuardOut::Act(id, GuardAction::Write(s))) => {
                let outs = self.state.set(&id, s);
                post_state(&mut self.queue, outs);
            },
            Message::Guard(GuardOut::Act(id, GuardAction::Claim)) => {
                let (answer, outs) = self.state.set_if(&id, State::Starting, StateSet::dead());
                post_state(&mut self.queue, outs);
                let ghost before = self.queue.deep_view();
                let reply = Message::Event(id, GuardEvent::Claimed(answer));
                let ghost reply_view = reply.deep_view();
                self.queue.push_back(reply);
                assert(self.queue.deep_view() =~= before.push(reply_view));
                assert(self.queue.deep_view() =~= rest + o.sent);
            },
            Message::Guard(GuardOut::Act(id, GuardAction::Yield)) => {
                effect = Some(Effect::Yield);
                assert(self.queue.deep_view() =~= rest + o.sent);
            },
            Message::Guard(GuardOut::Act(id, GuardAction::StartBackend)) => {
                effect = Some(Effect::StartBackend(id));
                assert(self.queue.deep_view() =~= rest + o.sent);
            },
            Message::Guard(GuardOut::Act(id, GuardAction::StopBackend)) => {
                effect = Some(Effect::StopBackend(id));
                assert(self.queue.deep_view() =~= rest + o.sent);
            },
            Message::Guard(GuardOut::Act(id, GuardAction::TriggerStart(unit))) => {
                let ghost before = self.queue.deep_view();
                self.queue.push_back(Message::Command(Command::Start(unit)));
                assert(self.queue.deep_view() =~= rest + o.sent);
            },
            Message::Guard(GuardOut::Act(id, GuardAction::Remove)) => {
                self.guard.remove(&id);
                assert(self.queue.deep_view() =~= rest + o.sent);
            },
            Message::State(StateOut::Resolve(id, Watcher::Client(token), answer)) => {
                effect = Some(Effect::Resolve(id, token, answer));
                assert(self.queue.deep_view() =~= rest + o.sent);
            },
            Message::State(StateOut::Resolve(id, Watcher::Restart, answer)) => {
                let seen = match answer {
                    Ok(s) => s,
                    Err(s) => s,
                };
                if seen.is_dead() {
                    self.queue.push_back(Message::Command(Command::Start(id)));
                } else {
                    self.queue.push_back(Message::Store(StoreOut::StartWhenDead(id)));
                }
                assert(self.queue.deep_view() =~= rest + o.sent);
            },
            Message::State(StateOut::Publish(id, s)) => {
                let outs = self.dep.state_change(&id, s);
                post_dep(&mut self.queue, outs);
            },
            Message::Dep(DepOut::DepsReady(id)) => {
                let outs = self.guard.deps_ready(&id);
                post_guard(&mut self.queue, outs);
            },
            Message::Dep(DepOut::DepsFailed(id)) => {
                let outs = self.guard.deps_failed(&id);
                post_guard(&mut self.queue, outs);
            },
            Message::Dep(DepOut::Stop(id)) => {
                let outs = self.guard.stop(&id);
                post_guard(&mut self.queue, outs);
            },
        }
        proof {
            assert(self.queue.deep_view() =~= rest + o.sent);
            assert(self@ == w.after(o));
            assert(effect_view(effect) == o.effect);
        }
        effect
    }
}

/// A failure goes up along `Requires`, one unit at a time. When the
/// failure of `v` is published, the engine sends word to every unit `u`
/// that requires `v` that it is not to start. A guard of `u` that still
/// waits for its dependencies then asks for `Failed` to be written and is
/// through, and that write publishes the failure of `u` in turn, without
/// `u` having been `Starting` or `Active` under this guard.
pub proof fn law_failure_cascades(w: World, v: Seq<char>, u: Seq<char>, later: World, last: World)
    requires
        w.graph.reverse.contains_key(v),
        w.graph.reverse[v].required_by.contains(u),
        later.guards.contains_key(u),
        later.guards[u].phase == Phase::WaitDeps,
    ensures
        w.outcome(Msg::State(Signal::Publish(v, State::Failed))).sent.contains(
            Msg::Dep(Notice::DepsFailed(u)),
        ),
        later.outcome(Msg::Dep(Notice::DepsFailed(u))).sent == seq![
            Msg::Guard(Wire::Act(u, Act::Write(State::Failed))),
            Msg::Guard(Wire::Act(u, Act::Remove)),
        ],
        later.outcome(Msg::Dep(Notice::DepsFailed(u))).guards[u].phase == Phase::Done,
        last.outcome(Msg::Guard(Wire::Act(u, Act::Write(State::Failed)))).sent.last()
            == Msg::State(Signal::Publish(u, State::Failed)),
        last.outcome(Msg::Guard(Wire::Act(u, Act::Write(State::Failed)))).states.get(u)
            == State::Failed,
{
    crate::dep::law_failure_reaches_dependents(w.graph, v, u);
    let notices = w.graph.state_change_out(v, State::Failed);
    let i = choose|i: int| 0 <= i < notices.len() && notices[i] == Notice::DepsFailed(u);
    let sent = w.outcome(Msg::State(Signal::Publish(v, State::Failed))).sent;
    assert(sent[i] == Msg::Dep(Notice::DepsFailed(u)));
    let acts = later.guards[u].actions(Happening::DepsFailed);
    assert(acts == seq![Act::Write(State::Failed), Act::Remove]);
    let wires = delivered_out(later.guards, u, Happening::DepsFailed);
    assert(wires.map_values(from_guard()) =~= seq![
        Msg::Guard(Wire::Act(u, Act::Write(State::Failed))),
        Msg::Guard(Wire::Act(u, Act::Remove)),
    ]);
}

/// A stop goes up along `Requires`: when a unit is published as
/// `Stopping`, the engine sends a stop to every unit that requires it, and
/// a guard of such a unit that is running asks for `Stopping` to be written
/// and for its backend to stop.
pub proof fn law_stop_cascades(w: World, v: Seq<char>, u: Seq<char>, later: World)
    requires
        w.graph.reverse.contains_key(v),
        w.graph.reverse[v].required_by.contains(u),
        later.guards.contains_key(u),
        later.guards[u].phase == Phase::Running,
    ensures
        w.outcome(Msg::State(Signal::Publish(v, State::Stopping))).sent.contains(
            Msg::Dep(Notice::Stop(u)),
        ),
        later.outcome(Msg::Dep(Notice::Stop(u))).sent == seq![
            Msg::Guard(Wire::Act(u, Act::Write(State::Stopping))),
            Msg::Guard(Wire::Act(u, Act::StopBackend)),
        ],
        later.outcome(Msg::Dep(Notice::Stop(u))).guards[u].phase == Phase::Halting,
{
    crate::dep::law_stop_reaches_dependents(w.graph, v, u);
    let notices = w.graph.state_change_out(v, State::Stopping);
    let i = choose|i: int| 0 <= i < notices.len() && notices[i] == Notice::Stop(u);
    let sent = w.outcome(Msg::State(Signal::Publish(v, State::Stopping))).sent;
    assert(sent[i] == Msg::Dep(Notice::Stop(u)));
    let wires = delivered_out(later.guards, u, Happening::Stop);
    assert(wires.map_values(from_guard()) =~= seq![
        Msg::Guard(Wire::Act(u, Act::Write(State::Stopping))),
        Msg::Guard(Wire::Act(u, Act::StopBackend)),
    ]);
}

/// A start of a unit that has a guard at work makes no second guard: the
/// order to make one changes nothing and sends nothing.
pub proof fn law_guarded_unit_gets_no_second_guard(w: World, id: Seq<char>, deps: crate::unit::Deps)
    requires
        crate::guard::has_live(w.guards, id),
    ensures
        w.outcome(Msg::Store(Order::GuardInsert(id, deps))) == w.quiet(),
{
    let o = w.outcome(Msg::Store(Order::GuardInsert(id, deps)));
    assert(o.sent =~= Seq::<Msg>::empty());
}

/// A client who asks to watch a unit whose state is not in the condition
/// is answered by the next write to the unit: the write sends the answer
/// `Ok` with the written state, and that answer leaves the engine as an
/// effect for the client.
pub proof fn law_watching_client_is_answered(
    w: World,
    id: Seq<char>,
    cond: Set<State>,
    token: u64,
    s: State,
    later: World,
)
    requires
        !cond.contains(w.states.get(id)),
    ensures
        w.outcome(Msg::Command(Cmd::Monitor(id, cond, token))).sent == Seq::<Msg>::empty(),
        (World {
            states: w.outcome(Msg::Command(Cmd::Monitor(id, cond, token))).states,
            ..w
        }).outcome(Msg::Guard(Wire::Act(id, Act::Write(s)))).sent.contains(
            Msg::State(Signal::Resolve(id, Watcher::Client(token), Ok(s))),
        ),
        later.outcome(Msg::State(Signal::Resolve(id, Watcher::Client(token), Ok(s)))).effect
            == Some(Eff::Resolve(id, token, Ok(s))),
{
    let who = Watcher::Client(token);
    crate::state_store::law_monitor_then_set(w.states, id, cond, who, s);
    let watched = w.outcome(Msg::Command(Cmd::Monitor(id, cond, token)));
    assert(watched.sent =~= Seq::<Msg>::empty());
    let signals = watched.states.set_signals(id, s);
    let i = choose|i: int| 0 <= i < signals.len() && signals[i] == Signal::Resolve(id, who, Ok(s));
    let next = World { states: watched.states, ..w };
    let sent = next.outcome(Msg::Guard(Wire::Act(id, Act::Write(s)))).sent;
    assert(sent[i] == Msg::State(Signal::Resolve(id, who, Ok(s))));
}

/// Whether `m` is a message that only the engine itself can have put into
/// the queue and that tells a guard something other than the answer to its
/// claim.
pub open spec fn forged(m: Msg) -> bool {
    m matches Msg::Event(_, ev) && !(ev matches Happening::Claimed(_))
}

/// Whether the queue holds only what commands and the four actors put
/// there: the one thing that reaches a guard directly is the answer to its
/// claim.
pub open spec fn tidy(w: World) -> bool {
    forall|i: int| 0 <= i < w.queue.len() ==> !forged(#[trigger] w.queue[i])
}

/// The queue stays tidy: it is so in an engine that has nothing to do,
/// and neither a command that is asked nor a step of the engine puts
/// anything into it that would make it otherwise.
pub proof fn law_queue_stays_tidy(w: World, cmd: Cmd)
    requires
        tidy(w),
    ensures
        tidy(World::empty()),
        tidy(w.asked(cmd)),
        tidy(w.next()),
{
    assert forall|i: int| 0 <= i < w.asked(cmd).queue.len() implies !forged(
        #[trigger] w.asked(cmd).queue[i],
    ) by {
        if i < w.queue.len() {
            assert(w.asked(cmd).queue[i] == w.queue[i]);
        }
    }
    if w.queue.len() > 0 {
        let m = w.queue[0];
        let o = w.outcome(m);
        let rest = w.queue.drop_first();
        let next = w.next();
        assert forall|i: int| 0 <= i < o.sent.len() implies !forged(#[trigger] o.sent[i]) by {}
        assert forall|i: int| 0 <= i < next.queue.len() implies !forged(
            #[trigger] next.queue[i],
        ) by {
            if i < rest.len() {
                assert(next.queue[i] == w.queue[i + 1]);
            } else {
                assert(next.queue[i] == o.sent[i - rest.len()]);
            }
        }
    }
}

/// A guard leaves its wait for the unit's dependencies only on the
/// resolver's word: in a tidy engine, a step after which the guard of `u`
/// has asked for `Starting`, having waited before, has handled the
/// resolver's notice that `u` may start.
pub proof fn law_guard_waits_for_the_resolver(w: World, u: Seq<char>)
    requires
        tidy(w),
        w.guards.contains_key(u),
        w.guards[u].phase == Phase::WaitDeps,
        w.next().guards.contains_key(u),
        w.next().guards[u].phase == Phase::Claiming,
    ensures
        w.queue.len() > 0,
        w.queue[0] == Msg::Dep(Notice::DepsReady(u)),
{
    if w.queue.len() > 0 {
        let m = w.queue[0];
        assert(!forged(m));
    }
}

/// The word that a unit may start comes from the resolver alone, and only
/// when it takes in a guard's request or a change of state: a step that
/// puts the notice into the queue has handled the request of the guard of
/// `u`, or the publication of a state.
pub proof fn law_ready_comes_from_the_resolver(w: World, u: Seq<char>)
    requires
        w.queue.len() > 0,
        w.outcome(w.queue[0]).sent.contains(Msg::Dep(Notice::DepsReady(u))),
    ensures
        (w.queue[0] matches Msg::Guard(Wire::AddToStartList(id, deps)) && id == u
            && w.graph.add_to_start_list_out(
            u,
            deps,
            w.units.dom(),
            w.guards,
            w.states,
        ).contains(Notice::DepsReady(u))) || (w.queue[0] matches Msg::State(
            Signal::Publish(id, s),
        ) && w.graph.state_change_out(id, s).contains(Notice::DepsReady(u))),
{
    let m = w.queue[0];
    let sent = w.outcome(m).sent;
    let i = choose|i: int| 0 <= i < sent.len() && sent[i] == Msg::Dep(Notice::DepsReady(u));
    assert(sent[i] == Msg::Dep(Notice::DepsReady(u)));
    match m {
        Msg::Guard(Wire::AddToStartList(id, deps)) => {
            let out = w.graph.add_to_start_list_out(id, deps, w.units.dom(), w.guards, w.states);
            assert(sent[i] == from_dep()(out[i]));
            assert(out[i] == Notice::DepsReady(u));
            if out.len() > 0 {
                assert(out.len() == 1);
            }
        },
        Msg::State(Signal::Publish(id, s)) => {
            let out = w.graph.state_change_out(id, s);
            assert(sent[i] == from_dep()(out[i]));
        },
        Msg::Command(Cmd::Start(id)) => {
            assert(sent[i] == from_store()(start_out(w.units, w.guards, id)[i]));
        },
        Msg::Command(Cmd::Update(desc)) => {
            assert(sent[i] == from_store()(update_orders(w.units, desc)[i]));
        },
        Msg::Command(Cmd::Remove(id)) => {
            assert(sent[i] == from_store()(remove_orders(w.units, id)[i]));
        },
        _ => {},
    }
}

/// The state of a unit changes only by a write: a step after which the
/// unit `u` has another state than before has handled a command to write
/// its state, the request of its guard to write one, or the claim of its
/// guard, which was granted because the state was a dead one.
pub proof fn law_state_changes_by_writes_only(w: World, u: Seq<char>)
    requires
        w.next().states.get(u) != w.states.get(u),
    ensures
        w.queue.len() > 0,
        (w.queue[0] matches Msg::Command(Cmd::SetState(id, s)) && id == u && s
            == w.next().states.get(u)) || (w.queue[0] matches Msg::Guard(
            Wire::Act(id, Act::Write(s)),
        ) && id == u && s == w.next().states.get(u)) || (w.queue[0] == Msg::Guard(
            Wire::Act(u, Act::Claim),
        ) && w.states.get(u).dead() && w.next().states.get(u) == State::Starting),
{
}

/// A guard asks for `Active` only when its backend has started the unit: a
/// step that puts the request to write `Active` for `u` into the queue has
/// handed the guard of `u`, which was launching, the news of a start that
/// succeeded, or, which was running, the report of an exit to `Active`.
pub proof fn law_active_follows_a_start(w: World, u: Seq<char>)
    requires
        tidy(w),
        w.queue.len() > 0,
        w.outcome(w.queue[0]).sent.contains(Msg::Guard(Wire::Act(u, Act::Write(State::Active)))),
    ensures
        crate::guard::has_live(w.guards, u),
        (w.guards[u].phase == Phase::Launching && w.queue[0] == Msg::Command(
            Cmd::Backend(u, Outcry::Started(true)),
        )) || (w.guards[u].phase == Phase::Running && w.queue[0] == Msg::Command(
            Cmd::Backend(u, Outcry::Runtime(Report::Exit(State::Active))),
        )),
{
    let m = w.queue[0];
    let sent = w.outcome(m).sent;
    let want = Msg::Guard(Wire::Act(u, Act::Write(State::Active)));
    let i = choose|i: int| 0 <= i < sent.len() && sent[i] == want;
    assert(sent[i] == want);
    assert(!forged(m));
    match m {
        Msg::Command(Cmd::Backend(id, outcry)) => {
            let acts = delivered_out(w.guards, id, outcry.happening());
            assert(sent[i] == from_guard()(acts[i]));
        },
        Msg::Event(id, ev) => {
            let acts = delivered_out(w.guards, id, ev);
            assert(sent[i] == from_guard()(acts[i]));
        },
        Msg::Store(Order::GuardStop(id)) => {
            let acts = delivered_out(w.guards, id, Happening::Stop);
            assert(sent[i] == from_guard()(acts[i]));
        },
        Msg::Store(Order::GuardInsert(id, deps)) => {
            let acts = inserted_out(w.guards, id, deps);
            assert(sent[i] == from_guard()(acts[i]));
        },
        Msg::Dep(Notice::DepsReady(id)) => {
            let acts = delivered_out(w.guards, id, Happening::DepsReady);
            assert(sent[i] == from_guard()(acts[i]));
        },
        Msg::Dep(Notice::DepsFailed(id)) => {
            let acts = delivered_out(w.guards, id, Happening::DepsFailed);
            assert(sent[i] == from_guard()(acts[i]));
        },
        Msg::Dep(Notice::Stop(id)) => {
            let acts = delivered_out(w.guards, id, Happening::Stop);
            assert(sent[i] == from_guard()(acts[i]));
        },
        Msg::Command(Cmd::Start(id)) => {
            assert(sent[i] == from_store()(start_out(w.units, w.guards, id)[i]));
        },
        Msg::Command(Cmd::Update(desc)) => {
            assert(sent[i] == from_store()(update_orders(w.units, desc)[i]));
        },
        Msg::Command(Cmd::Remove(id)) => {
            assert(sent[i] == from_store()(remove_orders(w.units, id)[i]));
        },
        Msg::Command(Cmd::SetState(id, s)) => {
            assert(sent[i] == from_state()(w.states.set_signals(id, s)[i]));
        },
        Msg::Guard(Wire::Act(id, Act::Write(s))) => {
            assert(sent[i] == from_state()(w.states.set_signals(id, s)[i]));
        },
        Msg::Guard(Wire::Act(id, Act::Claim)) => {
            if w.states.get(id).dead() {
                let signals = w.states.set_signals(id, State::Starting);
                if i < signals.len() {
                    assert(sent[i] == from_state()(signals[i]));
                }
            }
        },
        Msg::Command(Cmd::Monitor(id, cond, token)) => {
            let signals = w.states.monitor_signals(id, cond, Watcher::Client(token));
            assert(sent[i] == from_state()(signals[i]));
        },
        Msg::Store(Order::StartWhenDead(id)) => {
            let signals = w.states.monitor_signals(id, dead_states(), Watcher::Restart);
            assert(sent[i] == from_state()(signals[i]));
        },
        Msg::Guard(Wire::AddToStartList(id, deps)) => {
            let out = w.graph.add_to_start_list_out(id, deps, w.units.dom(), w.guards, w.states);
            assert(sent[i] == from_dep()(out[i]));
        },
        Msg::State(Signal::Publish(id, s)) => {
            let out = w.graph.state_change_out(id, s);
            assert(sent[i] == from_dep()(out[i]));
        },
        _ => {},
    }
    let id = u;
    if crate::guard::has_live(w.guards, u) {
        let g = w.guards[u];
    }
}

} // verus!
