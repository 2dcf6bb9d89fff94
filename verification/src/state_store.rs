//! The state store: the one place where the state of every unit is kept,
//! written, and watched.

use vstd::prelude::*;

use crate::state::{State, StateSet};
use crate::table::Table;
use crate::unit::UnitId;

verus! {

/// Who waits for a unit's state to change.
#[derive(Clone, Copy, Debug, PartialEq, Eq, Structural)]
pub enum Watcher {
    /// Somebody outside, known by a token of their choice.
    Client(u64),
    /// The unit store, which is to start the unit again once it is down.
    Restart,
}

impl DeepView for Watcher {
    type V = Watcher;

    open spec fn deep_view(&self) -> Watcher {
        *self
    }
}

/// What the state store sends out, as plain values.
pub enum Signal {
    /// The watcher of this unit gets its answer.
    Resolve(Seq<char>, Watcher, Result<State, State>),
    /// The dependency resolver learns that the unit is now in the state.
    Publish(Seq<char>, State),
}

/// What the state store sends out.
#[derive(Debug)]
pub enum StateOut {
    /// The watcher of this unit gets its answer: `Ok` with the state that
    /// was just written, or `Err` with the state that it found when there
    /// was nothing to wait for.
    Resolve(UnitId, Watcher, Result<State, State>),
    /// The dependency resolver learns that the unit is now in the state.
    Publish(UnitId, State),
}

impl DeepView for StateOut {
    type V = Signal;

    open spec fn deep_view(&self) -> Signal {
        match self {
            StateOut::Resolve(id, who, answer) => Signal::Resolve(id@, *who, *answer),
            StateOut::Publish(id, s) => Signal::Publish(id@, *s),
        }
    }
}

/// The state store's tables, as plain values.
pub struct States {
    /// The state of each unit that was ever written.
    pub state: Map<Seq<char>, State>,
    /// Those who wait for the next write to a unit, oldest first.
    pub monitor: Map<Seq<char>, Seq<Watcher>>,
}

impl States {
    /// Nothing written, nobody waiting.
    pub open spec fn empty() -> States {
        States { state: Map::empty(), monitor: Map::empty() }
    }

    /// The state of `id`: what was last written, `Uninit` if nothing was.
    pub open spec fn get(self, id: Seq<char>) -> State {
        if self.state.contains_key(id) {
            self.state[id]
        } else {
            State::Uninit
        }
    }

    /// Those who wait for the next write to `id`.
    pub open spec fn watchers(self, id: Seq<char>) -> Seq<Watcher> {
        if self.monitor.contains_key(id) {
            self.monitor[id]
        } else {
            Seq::empty()
        }
    }

    /// The tables after `s` was written for `id`: the state is `s`, and
    /// nobody waits for `id` any more.
    pub open spec fn set(self, id: Seq<char>, s: State) -> States {
        States { state: self.state.insert(id, s), monitor: self.monitor.remove(id) }
    }

    /// What a write of `s` for `id` sends out: first the answer `Ok(s)` to
    /// each of those who waited, oldest first, then the one publication.
    pub open spec fn set_signals(self, id: Seq<char>, s: State) -> Seq<Signal> {
        self.watchers(id).map_values(answer(id, s)).push(Signal::Publish(id, s))
    }

    /// The tables after `who` asked to watch `id` under `cond`: it is
    /// queued behind the others unless the state is in `cond` already.
    pub open spec fn monitor(self, id: Seq<char>, cond: Set<State>, who: Watcher) -> States {
        if cond.contains(self.get(id)) {
            self
        } else {
            States {
                state: self.state,
                monitor: self.monitor.insert(id, self.watchers(id).push(who)),
            }
        }
    }

    /// What goes out when `who` asks to watch `id` under `cond`: if the
    /// state is in `cond` already, the answer `Err` with that state.
    pub open spec fn monitor_signals(self, id: Seq<char>, cond: Set<State>, who: Watcher) -> Seq<
        Signal,
    > {
        if cond.contains(self.get(id)) {
            seq![Signal::Resolve(id, who, Err(self.get(id)))]
        } else {
            Seq::empty()
        }
    }
}

/// The answer `Ok(s)` to one who waited for a write to `id`.
pub open spec fn answer(id: Seq<char>, s: State) -> spec_fn(Watcher) -> Signal {
    |who: Watcher| Signal::Resolve(id, who, Ok(s))
}

/// The state of every unit, and those who wait for a state to change.
#[derive(Debug)]
pub struct StateStore {
    state: Table<State>,
    monitor: Table<Vec<Watcher>>,
}

impl View for StateStore {
    type V = States;

    closed spec fn view(&self) -> States {
        States { state: self.state@, monitor: self.monitor@ }
    }
}

impl StateStore {
    /// A store in which nothing was written yet.
    pub fn new() -> (store: StateStore)
        ensures
            store@ == States::empty(),
    {
        StateStore { state: Table::new(), monitor: Table::new() }
    }

    /// The state of `id`; `Uninit` if none was ever written.
    pub fn get(&self, id: &UnitId) -> (s: State)
        ensures
            s == self@.get(id@),
    {
        match self.state.get(id) {
            Some(s) => *s,
            None => State::Uninit,
        }
    }

    /// Answers, with `Ok(new_state)`, all who wait for a write to `id`, and
    /// forgets them.
    fn trigger_monitors(&mut self, id: &UnitId, new_state: State) -> (out: Vec<StateOut>)
        ensures
            final(self)@ == (States {
                state: old(self)@.state,
                monitor: old(self)@.monitor.remove(id@),
            }),
            out.deep_view() == old(self)@.watchers(id@).map_values(answer(id@, new_state)),
    {
        let ghost f = answer(id@, new_state);
        let mut out: Vec<StateOut> = Vec::new();
        match self.monitor.remove(id) {
            Some(monitors) => {
                let mut i: usize = 0;
                while i < monitors.len()
                    invariant
                        i <= monitors.len(),
                        f == answer(id@, new_state),
                        out.deep_view() =~= monitors@.take(i as int).map_values(f),
                    decreases monitors.len() - i,
                {
                    let ghost before = out.deep_view();
                    out.push(StateOut::Resolve(id.clone(), monitors[i], Ok(new_state)));
                    assert(out.deep_view() =~= before.push(f(monitors@[i as int])));
                    i += 1;
                }
                assert(monitors@.take(monitors.len() as int) =~= monitors@);
                assert(monitors.deep_view() =~= monitors@);
            },
            None => {
                assert(out.deep_view() =~= Seq::<Watcher>::empty().map_values(f));
            },
        }
        out
    }

    /// Writes `s` as the state of `id`, whatever it was. Those who waited
    /// get their answer before the resolver is told.
    pub fn set(&mut self, id: &UnitId, s: State) -> (out: Vec<StateOut>)
        ensures
            final(self)@ == old(self)@.set(id@, s),
            out.deep_view() == old(self)@.set_signals(id@, s),
    {
        let mut out = self.trigger_monitors(id, s);
        self.state.insert(id.clone(), s);
        let ghost before = out.deep_view();
        out.push(StateOut::Publish(id.clone(), s));
        assert(out.deep_view() =~= before.push(Signal::Publish(id@, s)));
        out
    }

    /// Writes `s` as the state of `id` if the state it has is in `cond`.
    ///
    /// The first part of the result is `Ok` with the state before the
    /// write, or `Err` with the state that was found and left as it was.
    pub fn set_if(&mut self, id: &UnitId, s: State, cond: StateSet) -> (r: (
        Result<State, State>,
        Vec<StateOut>,
    ))
        ensures
            cond@.contains(old(self)@.get(id@)) ==> {
                &&& r.0 == Ok::<State, State>(old(self)@.get(id@))
                &&& final(self)@ == old(self)@.set(id@, s)
                &&& r.1.deep_view() == old(self)@.set_signals(id@, s)
            },
            !cond@.contains(old(self)@.get(id@)) ==> {
                &&& r.0 == Err::<State, State>(old(self)@.get(id@))
                &&& final(self)@ == old(self)@
                &&& r.1.deep_view() == Seq::<Signal>::empty()
            },
    {
        let found = self.get(id);
        if cond.contains(found) {
            let out = self.set(id, s);
            (Ok(found), out)
        } else {
            let out: Vec<StateOut> = Vec::new();
            assert(out.deep_view() =~= Seq::<Signal>::empty());
            (Err(found), out)
        }
    }

    /// Registers `who` as a watcher of `id`.
    ///
    /// If the state of `id` is in `cond` there is nothing to wait for, and
    /// the watcher is answered at once with `Err` of that state. Otherwise
    /// it is queued, and the next write to `id` answers it, whatever state
    /// that write brings: `cond` decides whether to wait, not what ends
    /// the wait.
    pub fn monitor(&mut self, id: &UnitId, cond: StateSet, who: Watcher) -> (out: Vec<StateOut>)
        ensures
            final(self)@ == old(self)@.monitor(id@, cond@, who),
            out.deep_view() == old(self)@.monitor_signals(id@, cond@, who),
    {
        let found = self.get(id);
        let mut out: Vec<StateOut> = Vec::new();
        if cond.contains(found) {
            out.push(StateOut::Resolve(id.clone(), who, Err(found)));
            assert(out.deep_view() =~= seq![Signal::Resolve(id@, who, Err(found))]);
        } else {
            let ghost waiting = self@.watchers(id@);
            let mut monitors = match self.monitor.remove(id) {
                Some(monitors) => monitors,
                None => Vec::new(),
            };
            assert(monitors.deep_view() =~= waiting);
            monitors.push(who);
            assert(monitors.deep_view() =~= waiting.push(who));
            self.monitor.insert(id.clone(), monitors);
            assert(self.monitor@ =~= old(self).monitor@.insert(id@, waiting.push(who)));
            assert(out.deep_view() =~= Seq::<Signal>::empty());
        }
        out
    }
}

/// One who asks to watch a unit whose state is not in the condition is not
/// answered then, and is answered `Ok(s)` by the next write to the unit,
/// whatever state `s` it writes.
pub proof fn law_monitor_then_set(
    st: States,
    id: Seq<char>,
    cond: Set<State>,
    who: Watcher,
    s: State,
)
    requires
        !cond.contains(st.get(id)),
    ensures
        st.monitor_signals(id, cond, who) == Seq::<Signal>::empty(),
        st.monitor(id, cond, who).watchers(id).contains(who),
        st.monitor(id, cond, who).set_signals(id, s).contains(Signal::Resolve(id, who, Ok(s))),
{
    let queued = st.monitor(id, cond, who);
    let waiting = queued.watchers(id);
    assert(waiting == st.watchers(id).push(who));
    let at = st.watchers(id).len() as int;
    assert(waiting[at] == who);
    law_write_answers(queued, id, who, s);
}

/// A write to a unit answers `Ok` with the written state to everyone who
/// waits for it, before it is published, and leaves nobody waiting.
pub proof fn law_write_answers(st: States, id: Seq<char>, who: Watcher, s: State)
    requires
        st.watchers(id).contains(who),
    ensures
        st.set_signals(id, s).contains(Signal::Resolve(id, who, Ok(s))),
        st.set_signals(id, s).last() == Signal::Publish(id, s),
        st.set(id, s).watchers(id) == Seq::<Watcher>::empty(),
        st.set(id, s).get(id) == s,
{
    let waiting = st.watchers(id);
    let at = choose|i: int| 0 <= i < waiting.len() && waiting[i] == who;
    let out = st.set_signals(id, s);
    assert(out[at] == answer(id, s)(waiting[at]));
}

/// One who waits for a write to a unit goes on waiting through writes to
/// other units and through whoever else asks to watch.
pub proof fn law_watcher_stays(
    st: States,
    id: Seq<char>,
    who: Watcher,
    other: Seq<char>,
    s: State,
    cond: Set<State>,
    next: Watcher,
)
    requires
        st.watchers(id).contains(who),
    ensures
        other != id ==> st.set(other, s).watchers(id).contains(who),
        st.monitor(other, cond, next).watchers(id).contains(who),
{
    let waiting = st.watchers(id);
    let at = choose|i: int| 0 <= i < waiting.len() && waiting[i] == who;
    if other == id && !cond.contains(st.get(id)) {
        assert(waiting.push(next)[at] == who);
    }
}

} // verus!
