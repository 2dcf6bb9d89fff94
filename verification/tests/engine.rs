use sysrs::actor::{Actors, BackendEvent, Command, Effect};
use sysrs::dep::Edge;
use sysrs::guard::Phase;
use sysrs::service::{Impl, Kind, Service};
use sysrs::state::{State, StateSet};
use sysrs::unit::{RtMsg, UnitDeps, UnitDesc, UnitId, UnitImpl, UnitKind};

fn ids(names: &[&str]) -> Vec<UnitId> {
    names.iter().map(|n| UnitId::new(n)).collect()
}

fn unit(name: &str, requires: &[&str], wants: &[&str], after: &[&str], conflicts: &[&str]) -> UnitDesc {
    let deps = UnitDeps {
        requires: ids(requires),
        wants: ids(wants),
        after: ids(after),
        before: Vec::new(),
        conflicts: ids(conflicts),
    };
    UnitImpl::<Impl>::gen_test(name, deps, Kind::Simple, "sleep 1", "", "").desc(UnitKind::Service)
}

/// Drives an engine as a program would: it answers every request to start
/// or stop a backend, and notes every change of a unit's state.
struct Bench {
    actors: Actors,
    names: Vec<String>,
    last: Vec<State>,
    trace: Vec<(String, State)>,
    failing: Vec<String>,
    hold_stops: bool,
    held: Vec<String>,
    started: Vec<String>,
    resolved: Vec<(String, u64, Result<State, State>)>,
    yields: usize,
}

impl Bench {
    fn new(names: &[&str]) -> Bench {
        Bench {
            actors: Actors::new(),
            names: names.iter().map(|n| n.to_string()).collect(),
            last: names.iter().map(|_| State::Uninit).collect(),
            trace: Vec::new(),
            failing: Vec::new(),
            hold_stops: false,
            held: Vec::new(),
            started: Vec::new(),
            resolved: Vec::new(),
            yields: 0,
        }
    }

    fn note(&mut self) {
        for i in 0..self.names.len() {
            let now = self.actors.state(&UnitId::new(&self.names[i]));
            if now != self.last[i] {
                self.last[i] = now;
                self.trace.push((self.names[i].clone(), now));
            }
        }
    }

    fn run(&mut self) {
        let mut steps = 0;
        while !self.actors.is_idle() {
            steps += 1;
            assert!(steps < 10_000, "the engine does not come to rest");
            match self.actors.step() {
                Some(Effect::StartBackend(id)) => {
                    let name = id.name().to_string();
                    let ok = !self.failing.contains(&name);
                    self.started.push(name);
                    self.actors.send(Command::Backend(id, BackendEvent::Started(ok)));
                }
                Some(Effect::StopBackend(id)) => {
                    if self.hold_stops {
                        self.held.push(id.name().to_string());
                    } else {
                        self.actors.send(Command::Backend(id, BackendEvent::Stopped(true)));
                    }
                }
                Some(Effect::Resolve(id, token, answer)) => {
                    self.resolved.push((id.name().to_string(), token, answer));
                }
                Some(Effect::Yield) => self.yields += 1,
                None => {}
            }
            self.note();
        }
    }

    fn release_stops(&mut self) {
        for name in std::mem::take(&mut self.held) {
            self.actors
                .send(Command::Backend(UnitId::new(&name), BackendEvent::Stopped(true)));
        }
    }

    fn ask(&mut self, cmd: Command) {
        self.actors.send(cmd);
        self.run();
    }

    fn state(&self, name: &str) -> State {
        self.actors.state(&UnitId::new(name))
    }

    fn trace_of(&self, name: &str) -> Vec<State> {
        self.trace.iter().filter(|(n, _)| n == name).map(|(_, s)| *s).collect()
    }

    fn when(&self, name: &str, state: State) -> usize {
        self.trace
            .iter()
            .position(|(n, s)| n == name && *s == state)
            .unwrap_or_else(|| panic!("{} never was {:?}", name, state))
    }
}

/// The three services of the chain: b requires a and starts after it, c
/// wants b and starts after it.
fn chain() -> Bench {
    let mut bench = Bench::new(&["a.service", "b.service", "c.service", "d.service"]);
    bench.ask(Command::Update(unit("a.service", &[], &[], &[], &[])));
    bench.ask(Command::Update(unit("b.service", &["a.service"], &[], &["a.service"], &[])));
    bench.ask(Command::Update(unit("c.service", &[], &["b.service"], &["b.service"], &[])));
    bench
}

/// The same with c requiring b instead of wanting it.
fn strict_chain() -> Bench {
    let mut bench = Bench::new(&["a.service", "b.service", "c.service"]);
    bench.ask(Command::Update(unit("a.service", &[], &[], &[], &[])));
    bench.ask(Command::Update(unit("b.service", &["a.service"], &[], &["a.service"], &[])));
    bench.ask(Command::Update(unit("c.service", &["b.service"], &[], &["b.service"], &[])));
    bench
}

#[test]
fn chain_start_brings_all_three_up_in_order() {
    let mut bench = chain();
    bench.ask(Command::Start(UnitId::new("c.service")));
    assert_eq!(bench.trace_of("a.service"), vec![State::Starting, State::Active]);
    assert_eq!(bench.trace_of("b.service"), vec![State::Starting, State::Active]);
    assert_eq!(bench.trace_of("c.service"), vec![State::Starting, State::Active]);
    assert!(bench.when("a.service", State::Active) < bench.when("b.service", State::Starting));
    assert!(bench.when("b.service", State::Active) < bench.when("c.service", State::Starting));
    assert_eq!(bench.started, vec!["a.service", "b.service", "c.service"]);
}

#[test]
fn required_fail_fails_the_dependent_without_a_start() {
    let mut bench = chain();
    bench.failing.push("a.service".to_string());
    bench.ask(Command::Start(UnitId::new("c.service")));
    assert_eq!(bench.trace_of("a.service"), vec![State::Starting, State::Failed]);
    assert_eq!(bench.trace_of("b.service"), vec![State::Failed]);
    assert!(bench.when("a.service", State::Failed) < bench.when("b.service", State::Failed));
    assert!(!bench.started.contains(&"b.service".to_string()));
    // Neither guard is left behind.
    assert_eq!(bench.actors.phase(&UnitId::new("a.service")), None);
    assert_eq!(bench.actors.phase(&UnitId::new("b.service")), None);
}

#[test]
fn required_fail_does_not_fail_a_unit_that_only_wants_the_failed_one() {
    let mut bench = chain();
    bench.failing.push("a.service".to_string());
    bench.ask(Command::Start(UnitId::new("c.service")));
    // c wants b and is to start after it. A failure goes up along
    // `Requires` only: c is not failed, and goes on as if b were not
    // there.
    assert_eq!(bench.trace_of("c.service"), vec![State::Starting, State::Active]);
    assert!(bench.when("b.service", State::Failed) < bench.when("c.service", State::Starting));
    assert_eq!(bench.started, vec!["a.service", "c.service"]);
}

#[test]
fn required_fail_cascades_through_every_requiring_unit() {
    let mut bench = strict_chain();
    bench.failing.push("a.service".to_string());
    bench.ask(Command::Start(UnitId::new("c.service")));
    assert_eq!(bench.trace_of("a.service"), vec![State::Starting, State::Failed]);
    assert_eq!(bench.trace_of("b.service"), vec![State::Failed]);
    assert_eq!(bench.trace_of("c.service"), vec![State::Failed]);
    assert!(bench.when("b.service", State::Failed) < bench.when("c.service", State::Failed));
    assert_eq!(bench.started, vec!["a.service"]);
}

#[test]
fn stop_propagates_to_the_unit_that_requires_the_stopped_one() {
    let mut bench = chain();
    bench.ask(Command::Start(UnitId::new("c.service")));
    bench.trace.clear();
    bench.ask(Command::Stop(UnitId::new("a.service")));
    assert_eq!(bench.trace_of("a.service"), vec![State::Stopping, State::Stopped]);
    assert_eq!(bench.trace_of("b.service"), vec![State::Stopping, State::Stopped]);
    assert!(bench.when("a.service", State::Stopping) < bench.when("b.service", State::Stopping));
}

#[test]
fn stop_does_not_reach_a_unit_that_only_wants_the_stopped_one() {
    let mut bench = chain();
    bench.ask(Command::Start(UnitId::new("c.service")));
    bench.trace.clear();
    bench.ask(Command::Stop(UnitId::new("a.service")));
    // c wants b but does not require it: a stop goes up along `Requires`
    // only.
    assert_eq!(bench.trace_of("c.service"), Vec::<State>::new());
    assert_eq!(bench.state("c.service"), State::Active);
}

#[test]
fn stop_propagates_through_every_requiring_unit() {
    let mut bench = strict_chain();
    bench.ask(Command::Start(UnitId::new("c.service")));
    assert_eq!(bench.state("c.service"), State::Active);
    bench.trace.clear();
    bench.ask(Command::Stop(UnitId::new("a.service")));
    assert_eq!(bench.trace_of("a.service"), vec![State::Stopping, State::Stopped]);
    assert_eq!(bench.trace_of("b.service"), vec![State::Stopping, State::Stopped]);
    assert_eq!(bench.trace_of("c.service"), vec![State::Stopping, State::Stopped]);
    assert!(bench.when("a.service", State::Stopping) < bench.when("b.service", State::Stopping));
    assert!(bench.when("b.service", State::Stopping) < bench.when("c.service", State::Stopping));
}

#[test]
fn second_start_makes_no_guard_and_changes_no_state() {
    let mut bench = chain();
    bench.ask(Command::Start(UnitId::new("c.service")));
    bench.trace.clear();
    bench.started.clear();
    bench.ask(Command::Start(UnitId::new("c.service")));
    assert!(bench.trace.is_empty());
    assert!(bench.started.is_empty());
    for name in ["a.service", "b.service", "c.service"] {
        assert_eq!(bench.state(name), State::Active);
        assert_eq!(bench.actors.phase(&UnitId::new(name)), Some(Phase::Running));
    }
}

#[test]
fn two_starts_back_to_back_start_the_backend_once() {
    let mut bench = chain();
    bench.actors.send(Command::Start(UnitId::new("a.service")));
    bench.actors.send(Command::Start(UnitId::new("a.service")));
    bench.run();
    assert_eq!(bench.started, vec!["a.service"]);
    assert_eq!(bench.trace_of("a.service"), vec![State::Starting, State::Active]);
}

#[test]
fn start_during_stop_is_dropped_while_the_old_guard_is_at_work() {
    let mut bench = chain();
    bench.ask(Command::Start(UnitId::new("a.service")));
    bench.hold_stops = true;
    bench.ask(Command::Stop(UnitId::new("a.service")));
    assert_eq!(bench.state("a.service"), State::Stopping);
    bench.started.clear();
    bench.ask(Command::Start(UnitId::new("a.service")));
    assert!(bench.started.is_empty());
    bench.release_stops();
    bench.run();
    assert_eq!(bench.state("a.service"), State::Stopped);
    // With the old guard gone the unit starts again.
    bench.ask(Command::Start(UnitId::new("a.service")));
    assert_eq!(bench.state("a.service"), State::Active);
}

#[test]
fn claim_is_tried_again_while_the_unit_is_stopping() {
    let mut bench = Bench::new(&["a.service"]);
    bench.ask(Command::Update(unit("a.service", &[], &[], &[], &[])));
    // Somebody else has left the unit in `Stopping`.
    bench.ask(Command::SetState(UnitId::new("a.service"), State::Stopping));
    bench.actors.send(Command::Start(UnitId::new("a.service")));
    let mut steps = 0;
    while bench.yields < 3 {
        steps += 1;
        assert!(steps < 1000);
        if let Some(Effect::Yield) = bench.actors.step() {
            bench.yields += 1;
        }
    }
    assert_eq!(bench.state("a.service"), State::Stopping);
    assert_eq!(bench.actors.phase(&UnitId::new("a.service")), Some(Phase::Claiming));
    bench.actors.send(Command::SetState(UnitId::new("a.service"), State::Stopped));
    bench.run();
    assert_eq!(bench.state("a.service"), State::Active);
}

#[test]
fn claim_gives_up_when_the_unit_is_taken() {
    let mut bench = Bench::new(&["a.service"]);
    bench.ask(Command::Update(unit("a.service", &[], &[], &[], &[])));
    bench.ask(Command::SetState(UnitId::new("a.service"), State::Active));
    bench.ask(Command::Start(UnitId::new("a.service")));
    assert!(bench.started.is_empty());
    assert_eq!(bench.state("a.service"), State::Active);
    assert_eq!(bench.actors.phase(&UnitId::new("a.service")), None);
}

#[test]
fn conflicting_unit_waits_until_the_other_begins_to_stop() {
    let mut bench = chain();
    bench.ask(Command::Update(unit("d.service", &[], &[], &[], &["a.service"])));
    bench.ask(Command::Start(UnitId::new("a.service")));
    bench.trace.clear();
    bench.ask(Command::Start(UnitId::new("d.service")));
    assert_eq!(bench.trace_of("a.service"), vec![State::Stopping, State::Stopped]);
    assert_eq!(bench.trace_of("d.service"), vec![State::Starting, State::Active]);
    assert!(bench.when("a.service", State::Stopping) < bench.when("d.service", State::Starting));
}

#[test]
fn test_conflict() {
    // Two units that exclude each other are never both active.
    let mut bench = Bench::new(&["x.service", "y.service"]);
    bench.ask(Command::Update(unit("x.service", &[], &[], &[], &["y.service"])));
    bench.ask(Command::Update(unit("y.service", &[], &[], &[], &["x.service"])));
    let requests = ["x.service", "y.service", "x.service", "x.service", "y.service"];
    for name in requests {
        bench.actors.send(Command::Start(UnitId::new(name)));
        let mut steps = 0;
        while !bench.actors.is_idle() {
            steps += 1;
            assert!(steps < 10_000);
            match bench.actors.step() {
                Some(Effect::StartBackend(id)) => {
                    bench.actors.send(Command::Backend(id, BackendEvent::Started(true)))
                }
                Some(Effect::StopBackend(id)) => {
                    bench.actors.send(Command::Backend(id, BackendEvent::Stopped(true)))
                }
                _ => {}
            }
            let both = bench.state("x.service") == State::Active
                && bench.state("y.service") == State::Active;
            assert!(!both);
        }
    }
    assert_eq!(bench.state("y.service"), State::Active);
    assert_eq!(bench.state("x.service"), State::Stopped);
}

#[test]
fn test_basic() {
    let mut bench = Bench::new(&["t0.service", "t1.service"]);
    bench.ask(Command::Update(unit("t1.service", &[], &[], &[], &[])));
    bench.ask(Command::Update(unit("t0.service", &["t1.service"], &[], &["t1.service"], &[])));

    // start unit with its dep
    bench.ask(Command::Start(UnitId::new("t0.service")));
    assert_eq!(bench.state("t1.service"), State::Active);
    assert_eq!(bench.state("t0.service"), State::Active);

    // stop the active unit
    bench.ask(Command::Stop(UnitId::new("t0.service")));
    assert_eq!(bench.state("t0.service"), State::Stopped);
    assert_eq!(bench.state("t1.service"), State::Active);

    // start a stopped unit, with its dep started
    bench.ask(Command::Start(UnitId::new("t0.service")));
    assert_eq!(bench.state("t0.service"), State::Active);
    bench.ask(Command::Stop(UnitId::new("t0.service")));
    assert_eq!(bench.state("t0.service"), State::Stopped);

    // start the stopping unit
    bench.ask(Command::Start(UnitId::new("t0.service")));
    bench.hold_stops = true;
    bench.ask(Command::Stop(UnitId::new("t0.service")));
    assert_eq!(bench.state("t0.service"), State::Stopping);
    bench.ask(Command::Start(UnitId::new("t0.service")));
    bench.hold_stops = false;
    bench.release_stops();
    bench.run();
    bench.ask(Command::Stop(UnitId::new("t0.service")));
    assert_eq!(bench.state("t0.service"), State::Stopped);

    // stop a starting unit
    bench.actors.send(Command::Start(UnitId::new("t0.service")));
    bench.actors.send(Command::Stop(UnitId::new("t0.service")));
    bench.run();
    assert_eq!(bench.state("t0.service"), State::Stopped);

    bench.ask(Command::Stop(UnitId::new("t1.service")));
    assert_eq!(bench.state("t1.service"), State::Stopped);
    assert_eq!(bench.state("t0.service"), State::Stopped);
}

#[test]
fn test() {
    let t0 = Service {
        name: "t0.service".to_string(),
        requires: "t1.service".to_string(),
        wants: String::new(),
        before: String::new(),
        after: "t1.service".to_string(),
        conflicts: String::new(),
        kind: Kind::Simple,
        start: "sleep 1".to_string(),
        stop: String::new(),
        restart: String::new(),
    };
    let t0: UnitImpl<Impl> = t0.into_unit();
    let mut actors = Actors::new();
    actors.send(Command::Update(t0.desc(t0.kind())));
    while !actors.is_idle() {
        actors.step();
    }
    let loaded = actors.unit(&UnitId::new("t0.service")).unwrap();
    assert_eq!(loaded.kind, UnitKind::Service);
    assert_eq!(loaded.common.deps.requires, vec![UnitId::new("t1.service")]);
    assert_eq!(loaded.common.deps.after, vec![UnitId::new("t1.service")]);
    assert_eq!(actors.state(&UnitId::new("t0.service")), State::Uninit);
}

#[test]
fn start_of_an_unknown_unit_does_nothing() {
    let mut bench = chain();
    bench.ask(Command::Start(UnitId::new("nowhere.service")));
    assert!(bench.trace.is_empty());
    assert!(bench.started.is_empty());
}

#[test]
fn missing_wanted_unit_does_not_stop_the_start_of_the_rest() {
    let mut bench = Bench::new(&["a.service", "b.service"]);
    bench.ask(Command::Update(unit("a.service", &[], &[], &[], &[])));
    bench.ask(Command::Update(unit("b.service", &["a.service"], &["ghost.service"], &[], &[])));
    bench.ask(Command::Start(UnitId::new("b.service")));
    assert_eq!(bench.state("a.service"), State::Active);
    assert_eq!(bench.state("b.service"), State::Active);
    assert_eq!(bench.started, vec!["a.service", "b.service"]);
}

#[test]
fn missing_required_unit_fails_the_start() {
    let mut bench = Bench::new(&["a.service", "b.service", "c.service"]);
    bench.ask(Command::Update(unit("a.service", &[], &[], &[], &[])));
    bench.ask(Command::Update(unit("b.service", &["a.service", "ghost.service"], &[], &[], &[])));
    bench.ask(Command::Update(unit("c.service", &["b.service"], &[], &["b.service"], &[])));
    bench.ask(Command::Start(UnitId::new("c.service")));
    // b requires a unit that is not loaded, and c requires b.
    assert_eq!(bench.trace_of("b.service"), vec![State::Failed]);
    assert_eq!(bench.trace_of("c.service"), vec![State::Failed]);
    // What b requires and is there is started all the same.
    assert_eq!(bench.state("a.service"), State::Active);
    assert_eq!(bench.started, vec!["a.service"]);
}

#[test]
fn unit_starts_after_an_unknown_unit_without_waiting() {
    let mut bench = Bench::new(&["a.service"]);
    bench.ask(Command::Update(unit("a.service", &[], &[], &["ghost.service"], &[])));
    bench.ask(Command::Start(UnitId::new("a.service")));
    assert_eq!(bench.trace_of("a.service"), vec![State::Starting, State::Active]);
}

#[test]
fn start_that_was_called_off_does_not_hold_up_the_next() {
    let mut bench = Bench::new(&["a.service", "b.service"]);
    bench.ask(Command::Update(unit("a.service", &[], &[], &[], &[])));
    bench.ask(Command::Update(unit("b.service", &[], &[], &["a.service"], &[])));
    // b waits for a, which nobody starts; then the start of b is called
    // off.
    bench.ask(Command::Start(UnitId::new("b.service")));
    assert!(bench.actors.resolver().waiter(&UnitId::new("b.service")).is_some());
    bench.ask(Command::Stop(UnitId::new("b.service")));
    assert_eq!(bench.state("b.service"), State::Stopped);
    assert!(bench.actors.resolver().waiter(&UnitId::new("b.service")).is_none());
    // With a up, b starts at once.
    bench.ask(Command::Start(UnitId::new("a.service")));
    bench.ask(Command::Start(UnitId::new("b.service")));
    assert_eq!(bench.state("b.service"), State::Active);
}

#[test]
fn graph_follows_the_store_through_load_update_and_remove() {
    let mut bench = chain();
    let a = UnitId::new("a.service");
    let b = UnitId::new("b.service");
    {
        let on_a = bench.actors.resolver().dependents(&a).unwrap();
        assert_eq!(on_a.get(Edge::Requires).to_vec(), vec![b.clone()]);
        assert_eq!(on_a.get(Edge::After).to_vec(), vec![b.clone()]);
        assert!(bench.actors.resolver().dependents(&UnitId::new("c.service")).is_none());
    }
    // c now requires a as well.
    bench.ask(Command::Update(unit("c.service", &["a.service"], &["b.service"], &[], &[])));
    {
        let on_a = bench.actors.resolver().dependents(&a).unwrap();
        assert_eq!(on_a.get(Edge::Requires).len(), 2);
        let on_b = bench.actors.resolver().dependents(&b).unwrap();
        assert!(on_b.get(Edge::After).is_empty());
        assert_eq!(on_b.get(Edge::Wants).len(), 1);
    }
    bench.ask(Command::Remove(b.clone()));
    bench.ask(Command::Remove(UnitId::new("c.service")));
    assert!(bench.actors.resolver().dependents(&a).is_none());
    assert!(bench.actors.resolver().dependents(&b).is_none());
    // A unit that comes back is noted again.
    bench.ask(Command::Update(unit("b.service", &["a.service"], &[], &[], &[])));
    assert_eq!(bench.actors.resolver().dependents(&a).unwrap().get(Edge::Requires).to_vec(), vec![b]);
    assert_eq!(bench.actors.pending(), 0);
}

#[test]
fn backend_exit_ends_the_unit_and_its_guard() {
    let mut bench = chain();
    bench.ask(Command::Start(UnitId::new("a.service")));
    bench.trace.clear();
    bench.ask(Command::Backend(
        UnitId::new("a.service"),
        BackendEvent::Runtime(RtMsg::Exit(State::Failed)),
    ));
    assert_eq!(bench.trace_of("a.service"), vec![State::Failed]);
    assert_eq!(bench.actors.phase(&UnitId::new("a.service")), None);
}

#[test]
fn backend_trigger_starts_the_named_unit() {
    let mut bench = chain();
    bench.ask(Command::Start(UnitId::new("a.service")));
    bench.ask(Command::Backend(
        UnitId::new("a.service"),
        BackendEvent::Runtime(RtMsg::TriggerStart(UnitId::new("b.service"))),
    ));
    assert_eq!(bench.state("b.service"), State::Active);
    bench.ask(Command::Backend(UnitId::new("a.service"), BackendEvent::Runtime(RtMsg::Yield)));
    assert_eq!(bench.state("a.service"), State::Active);
}

#[test]
fn stop_before_the_dependencies_are_ready_ends_in_stopped() {
    let mut bench = chain();
    // b waits for a, which nobody starts.
    bench.actors.send(Command::Update(unit("lone.service", &[], &[], &["a.service"], &[])));
    bench.names.push("lone.service".to_string());
    bench.last.push(State::Uninit);
    bench.run();
    bench.ask(Command::Start(UnitId::new("lone.service")));
    assert_eq!(bench.actors.phase(&UnitId::new("lone.service")), Some(Phase::WaitDeps));
    bench.ask(Command::Stop(UnitId::new("lone.service")));
    assert_eq!(bench.trace_of("lone.service"), vec![State::Stopped]);
    assert!(bench.started.is_empty());
}

#[test]
fn monitor_is_answered_by_the_next_write() {
    let mut bench = chain();
    let a = UnitId::new("a.service");
    bench.ask(Command::Monitor(a.clone(), StateSet::only(State::Active), 7));
    assert!(bench.resolved.is_empty());
    bench.ask(Command::Start(a.clone()));
    // The first write after the registration answers, whatever it writes.
    assert_eq!(bench.resolved, vec![("a.service".to_string(), 7, Ok(State::Starting))]);
}

#[test]
fn monitor_is_answered_at_once_when_there_is_nothing_to_wait_for() {
    let mut bench = chain();
    let a = UnitId::new("a.service");
    bench.ask(Command::Monitor(a.clone(), StateSet::dead(), 9));
    assert_eq!(bench.resolved, vec![("a.service".to_string(), 9, Err(State::Uninit))]);
}

#[test]
fn restart_stops_and_starts_again() {
    let mut bench = chain();
    bench.ask(Command::Start(UnitId::new("a.service")));
    bench.trace.clear();
    bench.ask(Command::Restart(UnitId::new("a.service")));
    assert_eq!(
        bench.trace_of("a.service"),
        vec![State::Stopping, State::Stopped, State::Starting, State::Active]
    );
}

#[test]
fn restart_of_a_unit_that_is_down_starts_it() {
    let mut bench = chain();
    bench.ask(Command::Restart(UnitId::new("a.service")));
    assert_eq!(bench.trace_of("a.service"), vec![State::Starting, State::Active]);
}

#[test]
fn remove_forgets_the_unit_and_leaves_its_guard() {
    let mut bench = chain();
    bench.ask(Command::Start(UnitId::new("a.service")));
    bench.ask(Command::Remove(UnitId::new("a.service")));
    assert!(bench.actors.unit(&UnitId::new("a.service")).is_none());
    assert_eq!(bench.state("a.service"), State::Active);
    assert_eq!(bench.actors.phase(&UnitId::new("a.service")), Some(Phase::Running));
    bench.ask(Command::Stop(UnitId::new("a.service")));
    assert_eq!(bench.state("a.service"), State::Stopped);
}
