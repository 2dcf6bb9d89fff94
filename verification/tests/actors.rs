use sysrs::dep::{reverse_map_insert, reverse_map_remove, DepInfo, DepOut, DepStore, Edge, ReverseDepInfo};
use sysrs::guard::{Guard, GuardAction, GuardEvent, GuardOut, GuardStore, Phase};
use sysrs::idset::UnitSet;
use sysrs::service::{Impl, Kind};
use sysrs::state::{State, StateSet};
use sysrs::state_store::{StateOut, StateStore, Watcher};
use sysrs::store::{holds, StoreOut, UnitStore};
use sysrs::table::Table;
use sysrs::unit::{dup_ids, RtMsg, UnitDeps, UnitDesc, UnitId, UnitImpl, UnitKind};

fn id(name: &str) -> UnitId {
    UnitId::new(name)
}

fn ids(names: &[&str]) -> Vec<UnitId> {
    names.iter().map(|n| UnitId::new(n)).collect()
}

fn deps(requires: &[&str], wants: &[&str], after: &[&str], conflicts: &[&str]) -> UnitDeps {
    UnitDeps {
        requires: ids(requires),
        wants: ids(wants),
        after: ids(after),
        before: Vec::new(),
        conflicts: ids(conflicts),
    }
}

fn unit(name: &str, d: UnitDeps) -> UnitDesc {
    UnitImpl::<Impl>::gen_test(name, d, Kind::Simple, "run", "", "").desc(UnitKind::Service)
}

fn names(set: &UnitSet) -> Vec<String> {
    set.to_vec().iter().map(|u| u.name().to_string()).collect()
}

fn notes(out: &[DepOut]) -> Vec<String> {
    out.iter()
        .map(|o| match o {
            DepOut::DepsReady(u) => format!("ready {}", u.name()),
            DepOut::DepsFailed(u) => format!("failed {}", u.name()),
            DepOut::Stop(u) => format!("stop {}", u.name()),
        })
        .collect()
}

fn orders(out: &[StoreOut]) -> Vec<String> {
    out.iter()
        .map(|o| match o {
            StoreOut::DepLoad(u, _) => format!("load {}", u.name()),
            StoreOut::DepUpdate(u, _, _) => format!("update {}", u.name()),
            StoreOut::GuardStop(u) => format!("stop {}", u.name()),
            StoreOut::GuardInsert(u, _) => format!("insert {}", u.name()),
            StoreOut::StartWhenDead(u) => format!("start-when-dead {}", u.name()),
        })
        .collect()
}

fn acts(out: &[GuardAction]) -> Vec<String> {
    out.iter()
        .map(|a| match a {
            GuardAction::Write(s) => format!("write {}", s.name()),
            GuardAction::Claim => "claim".to_string(),
            GuardAction::Yield => "yield".to_string(),
            GuardAction::StartBackend => "start".to_string(),
            GuardAction::StopBackend => "stop".to_string(),
            GuardAction::TriggerStart(u) => format!("trigger {}", u.name()),
            GuardAction::Remove => "remove".to_string(),
        })
        .collect()
}

// Identities, sets and tables.

#[test]
fn identities_are_the_same_when_their_names_are() {
    let a = id("a.service");
    assert_eq!(a.name(), "a.service");
    assert!(a.same(&id("a.service")));
    assert!(!a.same(&id("b.service")));
    assert_eq!(a.clone(), a);
    assert!(a != id("A.service"));
    let list = ids(&["x", "y"]);
    assert_eq!(dup_ids(&list), list);
    assert!(holds(&list, &id("y")));
    assert!(!holds(&list, &id("z")));
}

#[test]
fn sets_keep_each_member_once_in_the_order_of_arrival() {
    let mut set = UnitSet::new();
    assert!(set.is_empty());
    assert!(set.insert(id("b")));
    assert!(set.insert(id("a")));
    assert!(!set.insert(id("b")));
    assert!(set.insert(id("c")));
    assert_eq!(names(&set), vec!["b", "a", "c"]);
    assert_eq!(set.len(), 3);
    assert_eq!(set.get(1).name(), "a");
    assert!(set.contains(&id("a")));
    assert!(set.remove(&id("a")));
    assert!(!set.remove(&id("a")));
    assert!(!set.contains(&id("a")));
    assert_eq!(names(&set), vec!["b", "c"]);
    assert_eq!(names(&set.dup()), vec!["b", "c"]);
}

#[test]
fn tables_map_identities_to_values() {
    let mut table: Table<State> = Table::new();
    assert_eq!(table.len(), 0);
    assert!(table.get(&id("a")).is_none());
    table.insert(id("a"), State::Starting);
    table.insert(id("b"), State::Active);
    table.insert(id("a"), State::Failed);
    assert_eq!(table.len(), 2);
    assert_eq!(table.get(&id("a")), Some(&State::Failed));
    assert!(table.contains_key(&id("b")));
    assert_eq!(table.remove(&id("a")), Some(State::Failed));
    assert_eq!(table.remove(&id("a")), None);
    assert_eq!(table.len(), 1);
    assert_eq!(table.get(&id("b")), Some(&State::Active));
}

// The state store.

#[test]
fn unknown_units_are_uninit() {
    let store = StateStore::new();
    assert_eq!(store.get(&id("a")), State::Uninit);
}

#[test]
fn set_writes_and_publishes_once() {
    let mut store = StateStore::new();
    let out = store.set(&id("a"), State::Starting);
    assert_eq!(store.get(&id("a")), State::Starting);
    assert_eq!(out.len(), 1);
    match &out[0] {
        StateOut::Publish(u, s) => {
            assert_eq!(u.name(), "a");
            assert_eq!(*s, State::Starting);
        }
        other => panic!("{:?}", other),
    }
}

#[test]
fn set_if_writes_only_from_a_state_in_the_condition() {
    let mut store = StateStore::new();
    let (answer, out) = store.set_if(&id("a"), State::Starting, StateSet::dead());
    assert_eq!(answer, Ok(State::Uninit));
    assert_eq!(out.len(), 1);
    assert_eq!(store.get(&id("a")), State::Starting);
    let (answer, out) = store.set_if(&id("a"), State::Starting, StateSet::dead());
    assert_eq!(answer, Err(State::Starting));
    assert!(out.is_empty());
    assert_eq!(store.get(&id("a")), State::Starting);
    let (answer, _) = store.set_if(&id("a"), State::Failed, StateSet::only(State::Starting));
    assert_eq!(answer, Ok(State::Starting));
    assert_eq!(store.get(&id("a")), State::Failed);
}

#[test]
fn watchers_are_answered_before_the_resolver_is_told() {
    let mut store = StateStore::new();
    assert!(store.monitor(&id("a"), StateSet::only(State::Active), Watcher::Client(1)).is_empty());
    assert!(store.monitor(&id("a"), StateSet::only(State::Failed), Watcher::Restart).is_empty());
    assert!(store.monitor(&id("b"), StateSet::only(State::Active), Watcher::Client(3)).is_empty());
    let out = store.set(&id("a"), State::Stopping);
    assert_eq!(out.len(), 3);
    assert!(matches!(&out[0], StateOut::Resolve(u, Watcher::Client(1), Ok(State::Stopping)) if u.name() == "a"));
    assert!(matches!(&out[1], StateOut::Resolve(u, Watcher::Restart, Ok(State::Stopping)) if u.name() == "a"));
    assert!(matches!(&out[2], StateOut::Publish(u, State::Stopping) if u.name() == "a"));
    // They were waiting for one write only.
    assert_eq!(store.set(&id("a"), State::Stopped).len(), 1);
    // The watcher of b is still waiting.
    assert_eq!(store.set(&id("b"), State::Active).len(), 2);
}

#[test]
fn watcher_of_a_state_that_is_there_is_answered_at_once() {
    let mut store = StateStore::new();
    store.set(&id("a"), State::Active);
    let out = store.monitor(&id("a"), StateSet::only(State::Active), Watcher::Client(5));
    assert_eq!(out.len(), 1);
    assert!(matches!(&out[0], StateOut::Resolve(u, Watcher::Client(5), Err(State::Active)) if u.name() == "a"));
    // It was not queued.
    assert_eq!(store.set(&id("a"), State::Stopping).len(), 1);
}

// Guards.

#[test]
fn guard_goes_its_course() {
    let mut guard = Guard::new();
    assert!(guard.is_live());
    assert_eq!(acts(&guard.step(GuardEvent::DepsReady)), vec!["claim"]);
    assert_eq!(guard.phase, Phase::Claiming);
    assert_eq!(acts(&guard.step(GuardEvent::Claimed(Ok(State::Stopped)))), vec!["start"]);
    assert_eq!(guard.phase, Phase::Launching);
    assert_eq!(acts(&guard.step(GuardEvent::Started(true))), vec!["write Active"]);
    assert_eq!(guard.phase, Phase::Running);
    assert!(guard.step(GuardEvent::Runtime(RtMsg::Yield)).is_empty());
    assert!(guard.step(GuardEvent::DepsReady).is_empty());
    assert_eq!(
        acts(&guard.step(GuardEvent::Runtime(RtMsg::TriggerStart(id("x"))))),
        vec!["trigger x"]
    );
    assert_eq!(guard.phase, Phase::Running);
    assert_eq!(acts(&guard.step(GuardEvent::Stop)), vec!["write Stopping", "stop"]);
    assert_eq!(guard.phase, Phase::Halting);
    assert!(guard.step(GuardEvent::Stop).is_empty());
    assert_eq!(acts(&guard.step(GuardEvent::Stopped(true))), vec!["write Stopped", "remove"]);
    assert_eq!(guard.phase, Phase::Done);
    assert!(!guard.is_live());
    assert!(guard.step(GuardEvent::DepsReady).is_empty());
}

#[test]
fn guard_ends_early_on_stop_or_failed_dependencies() {
    let mut guard = Guard::new();
    assert_eq!(acts(&guard.step(GuardEvent::Stop)), vec!["write Stopped", "remove"]);
    assert_eq!(guard.phase, Phase::Done);
    let mut guard = Guard::new();
    assert_eq!(acts(&guard.step(GuardEvent::DepsFailed)), vec!["write Failed", "remove"]);
    assert_eq!(guard.phase, Phase::Done);
}

#[test]
fn guard_fails_with_its_backend() {
    let mut guard = Guard { phase: Phase::Launching, stop_pending: false };
    assert_eq!(acts(&guard.step(GuardEvent::Started(false))), vec!["write Failed", "remove"]);
    let mut guard = Guard { phase: Phase::Halting, stop_pending: false };
    assert_eq!(acts(&guard.step(GuardEvent::Stopped(false))), vec!["write Failed", "remove"]);
    let mut guard = Guard { phase: Phase::Running, stop_pending: false };
    assert_eq!(
        acts(&guard.step(GuardEvent::Runtime(RtMsg::Exit(State::Stopped)))),
        vec!["write Stopped", "remove"]
    );
    assert_eq!(guard.phase, Phase::Done);
}

#[test]
fn guard_tries_again_after_a_stopping_unit_and_gives_up_after_any_other() {
    let mut guard = Guard { phase: Phase::Claiming, stop_pending: false };
    assert_eq!(acts(&guard.step(GuardEvent::Claimed(Err(State::Stopping)))), vec!["yield", "claim"]);
    assert_eq!(guard.phase, Phase::Claiming);
    assert_eq!(acts(&guard.step(GuardEvent::Claimed(Err(State::Active)))), vec!["remove"]);
    assert_eq!(guard.phase, Phase::Done);
}

#[test]
fn guard_carries_out_a_stop_that_came_during_the_start() {
    let mut guard = Guard::new();
    guard.step(GuardEvent::DepsReady);
    assert!(guard.step(GuardEvent::Stop).is_empty());
    assert!(guard.stop_pending);
    guard.step(GuardEvent::Claimed(Ok(State::Uninit)));
    assert_eq!(
        acts(&guard.step(GuardEvent::Started(true))),
        vec!["write Active", "write Stopping", "stop"]
    );
    assert_eq!(guard.phase, Phase::Halting);
}

#[test]
fn registry_has_one_guard_per_unit() {
    let mut registry = GuardStore::new();
    assert!(!registry.contains(&id("a")));
    let out = registry.insert(id("a"), deps(&["b"], &[], &[], &[]));
    assert_eq!(out.len(), 1);
    match &out[0] {
        GuardOut::AddToStartList(u, d) => {
            assert_eq!(u.name(), "a");
            assert_eq!(d.requires, ids(&["b"]));
        }
        other => panic!("{:?}", other),
    }
    assert!(registry.is_live(&id("a")));
    // A second insert is dropped.
    registry.deps_ready(&id("a"));
    assert!(registry.insert(id("a"), deps(&[], &[], &[], &[])).is_empty());
    assert_eq!(registry.phase(&id("a")), Some(Phase::Claiming));
    // An entry whose guard is through is replaced.
    registry.deliver(&id("a"), GuardEvent::Claimed(Err(State::Active)));
    assert!(registry.contains(&id("a")));
    assert!(!registry.is_live(&id("a")));
    assert_eq!(registry.insert(id("a"), deps(&[], &[], &[], &[])).len(), 1);
    assert_eq!(registry.phase(&id("a")), Some(Phase::WaitDeps));
    registry.remove(&id("a"));
    assert_eq!(registry.phase(&id("a")), None);
}

#[test]
fn registry_lets_word_for_nobody_drop() {
    let mut registry = GuardStore::new();
    assert!(registry.stop(&id("a")).is_empty());
    assert!(registry.deps_ready(&id("a")).is_empty());
    assert!(registry.deps_failed(&id("a")).is_empty());
    registry.insert(id("a"), deps(&[], &[], &[], &[]));
    let out = registry.deps_failed(&id("a"));
    assert_eq!(out.len(), 2);
    assert!(matches!(&out[0], GuardOut::Act(u, GuardAction::Write(State::Failed)) if u.name() == "a"));
    assert!(matches!(&out[1], GuardOut::Act(u, GuardAction::Remove) if u.name() == "a"));
    assert!(registry.stop(&id("a")).is_empty());
}

// The resolver.

#[test]
fn reverse_graph_is_the_inverse_of_the_loaded_lists() {
    let mut resolver = DepStore::new();
    resolver.load(&id("b"), &deps(&["a"], &[], &["a"], &[]));
    resolver.load(&id("c"), &deps(&["a", "a"], &["b"], &["b"], &["d"]));
    let a = resolver.dependents(&id("a")).unwrap();
    assert_eq!(names(a.get(Edge::Requires)), vec!["b", "c"]);
    assert_eq!(names(a.get(Edge::After)), vec!["b"]);
    assert!(a.get(Edge::Wants).is_empty());
    let b = resolver.dependents(&id("b")).unwrap();
    assert_eq!(names(b.get(Edge::Wants)), vec!["c"]);
    assert_eq!(names(b.get(Edge::After)), vec!["c"]);
    assert_eq!(names(resolver.dependents(&id("d")).unwrap().get(Edge::Conflicts)), vec!["c"]);
    assert!(resolver.dependents(&id("c")).is_none());

    resolver.update(&id("c"), &deps(&["a", "a"], &["b"], &["b"], &["d"]), &deps(&["b"], &[], &[], &[]));
    assert_eq!(names(resolver.dependents(&id("a")).unwrap().get(Edge::Requires)), vec!["b"]);
    let b = resolver.dependents(&id("b")).unwrap();
    assert_eq!(names(b.get(Edge::Requires)), vec!["c"]);
    assert!(b.get(Edge::Wants).is_empty() && b.get(Edge::After).is_empty());
    // Nobody names d any more: its entry is gone.
    assert!(resolver.dependents(&id("d")).is_none());

    // Taking a unit out is heard as a change to empty lists.
    resolver.update(&id("b"), &deps(&["a"], &[], &["a"], &[]), &UnitDeps::new());
    assert!(resolver.dependents(&id("a")).is_none());
}

#[test]
fn reverse_map_is_filled_and_emptied_edge_by_edge() {
    let mut map: Table<ReverseDepInfo> = Table::new();
    reverse_map_insert(&id("u"), &ids(&["x", "y", "x"]), &mut map, Edge::Wants);
    reverse_map_insert(&id("v"), &ids(&["x"]), &mut map, Edge::Wants);
    reverse_map_insert(&id("u"), &ids(&["x"]), &mut map, Edge::After);
    assert_eq!(names(map.get(&id("x")).unwrap().get(Edge::Wants)), vec!["u", "v"]);
    assert_eq!(names(map.get(&id("x")).unwrap().get(Edge::After)), vec!["u"]);
    assert!(!map.get(&id("x")).unwrap().is_empty());
    reverse_map_remove(&id("u"), &ids(&["x", "y", "z"]), &mut map, Edge::Wants);
    assert_eq!(names(map.get(&id("x")).unwrap().get(Edge::Wants)), vec!["v"]);
    assert!(map.get(&id("y")).is_none());
    reverse_map_remove(&id("u"), &ids(&["x"]), &mut map, Edge::After);
    reverse_map_remove(&id("v"), &ids(&["x"]), &mut map, Edge::Wants);
    assert!(map.get(&id("x")).is_none());
    assert!(ReverseDepInfo::default().is_empty());
}

#[test]
fn blockers_are_what_the_lists_name() {
    let info = DepInfo::from(&deps(&["a", "b", "a"], &["w"], &["a"], &[]));
    assert_eq!(names(info.get(Edge::Requires)), vec!["a", "b"]);
    assert_eq!(names(info.get(Edge::Wants)), vec!["w"]);
    assert_eq!(names(info.get(Edge::After)), vec!["a"]);
    assert!(!info.can_start());
    let mut info = DepInfo::from(&deps(&[], &[], &["a"], &[]));
    info.clear(Edge::Conflicts, &id("a"));
    assert!(!info.can_start());
    info.clear(Edge::After, &id("a"));
    assert!(info.can_start());
    assert!(DepInfo::from(&UnitDeps::new()).can_start());
}

fn store_of(names: &[&str]) -> UnitStore {
    let mut store = UnitStore::new();
    for name in names {
        store.load(unit(name, UnitDeps::new()));
    }
    store
}

#[test]
fn unblocked_unit_is_ready_at_once() {
    let mut resolver = DepStore::new();
    let units = store_of(&["a", "b", "c"]);
    let guards = GuardStore::new();
    let mut states = StateStore::new();
    states.set(&id("a"), State::Active);
    let out =
        resolver.add_to_start_list(id("b"), &deps(&[], &[], &["a"], &["c"]), &units, &guards, &states);
    assert_eq!(notes(&out), vec!["ready b"]);
    assert!(resolver.waiter(&id("b")).is_none());
}

#[test]
fn unit_that_requires_an_unknown_unit_is_not_to_start() {
    let mut resolver = DepStore::new();
    let units = store_of(&["a", "u"]);
    let guards = GuardStore::new();
    let states = StateStore::new();
    let out = resolver.add_to_start_list(
        id("u"),
        &deps(&["a", "nowhere"], &[], &[], &[]),
        &units,
        &guards,
        &states,
    );
    assert_eq!(notes(&out), vec!["failed u"]);
    assert!(resolver.waiter(&id("u")).is_none());
}

#[test]
fn unknown_units_that_are_wanted_or_to_start_after_are_not_waited_for() {
    let mut resolver = DepStore::new();
    let units = store_of(&["u"]);
    let guards = GuardStore::new();
    let states = StateStore::new();
    let out = resolver.add_to_start_list(
        id("u"),
        &deps(&[], &["nowhere"], &["nowhere", "nobody"], &["nowhere"]),
        &units,
        &guards,
        &states,
    );
    assert_eq!(notes(&out), vec!["ready u"]);
}

#[test]
fn blocked_unit_waits_for_what_blocks_it() {
    let mut resolver = DepStore::new();
    let units = store_of(&["u", "live", "gone", "idle"]);
    let mut guards = GuardStore::new();
    let states = StateStore::new();
    guards.insert(id("live"), UnitDeps::new());
    let d = deps(&["live", "gone"], &["live", "missing", "idle"], &["live"], &["live", "gone"]);
    let out = resolver.add_to_start_list(id("u"), &d, &units, &guards, &states);
    assert!(out.is_empty());
    let waiter = resolver.waiter(&id("u")).unwrap();
    assert_eq!(names(waiter.get(Edge::Requires)), vec!["gone"]);
    assert_eq!(names(waiter.get(Edge::Wants)), vec!["idle"]);
    assert_eq!(names(waiter.get(Edge::After)), vec!["live"]);
    assert_eq!(names(waiter.get(Edge::Conflicts)), vec!["live"]);
    // A second request for the same unit changes nothing.
    let out = resolver.add_to_start_list(id("u"), &UnitDeps::new(), &units, &guards, &states);
    assert!(out.is_empty());
    assert_eq!(names(resolver.waiter(&id("u")).unwrap().get(Edge::After)), vec!["live"]);
}

/// A resolver in which b requires a and is to start after it, c wants b
/// and is to start after it, d conflicts with a, and b, c and d wait.
fn waiting() -> DepStore {
    let mut resolver = DepStore::new();
    let units = store_of(&["a", "b", "c", "d"]);
    let mut guards = GuardStore::new();
    let states = StateStore::new();
    let b = deps(&["a"], &[], &["a"], &[]);
    let c = deps(&[], &["b"], &["b"], &[]);
    let d = deps(&[], &[], &[], &["a"]);
    resolver.load(&id("b"), &b);
    resolver.load(&id("c"), &c);
    resolver.load(&id("d"), &d);
    guards.insert(id("a"), UnitDeps::new());
    assert!(resolver.add_to_start_list(id("b"), &b, &units, &guards, &states).is_empty());
    assert!(resolver.add_to_start_list(id("c"), &c, &units, &guards, &states).is_empty());
    assert!(resolver.add_to_start_list(id("d"), &d, &units, &guards, &states).is_empty());
    resolver
}

#[test]
fn active_lets_go_who_waited_for_it() {
    let mut resolver = waiting();
    assert!(resolver.state_change(&id("a"), State::Starting).len() == 1);
    assert!(resolver.waiter(&id("b")).is_some());
    assert_eq!(notes(&resolver.state_change(&id("a"), State::Active)), vec!["ready b"]);
    assert!(resolver.waiter(&id("b")).is_none());
    // c waits for b, not for a.
    assert_eq!(names(resolver.waiter(&id("c")).unwrap().get(Edge::After)), vec!["b"]);
    assert_eq!(notes(&resolver.state_change(&id("b"), State::Active)), vec!["ready c"]);
    assert!(resolver.waiter(&id("c")).is_none());
}

#[test]
fn order_is_kept_until_the_unit_before_is_active() {
    let mut resolver = waiting();
    for s in [State::Starting, State::Stopping, State::Stopped, State::Uninit] {
        let out = resolver.state_change(&id("a"), s);
        assert!(!notes(&out).contains(&"ready b".to_string()));
        assert_eq!(names(resolver.waiter(&id("b")).unwrap().get(Edge::After)), vec!["a"]);
    }
    for s in [State::Starting, State::Active, State::Stopping, State::Stopped, State::Failed] {
        let out = resolver.state_change(&id("c"), s);
        assert!(out.is_empty());
        let out = resolver.state_change(&id("unknown"), s);
        assert!(out.is_empty());
    }
    assert_eq!(names(resolver.waiter(&id("b")).unwrap().get(Edge::After)), vec!["a"]);
}

#[test]
fn starting_stops_who_waits_for_the_unit_to_be_gone() {
    let mut resolver = waiting();
    assert_eq!(notes(&resolver.state_change(&id("a"), State::Starting)), vec!["stop d"]);
    assert!(resolver.waiter(&id("d")).is_some());
}

#[test]
fn stopping_stops_dependents_and_lets_rivals_go() {
    let mut resolver = waiting();
    assert_eq!(notes(&resolver.state_change(&id("a"), State::Stopping)), vec!["stop b", "ready d"]);
    assert!(resolver.waiter(&id("d")).is_none());
    assert!(resolver.waiter(&id("b")).is_some());
}

#[test]
fn unit_that_is_seen_stopped_or_failed_waits_no_longer() {
    for s in [State::Stopped, State::Failed] {
        let mut resolver = waiting();
        assert!(resolver.state_change(&id("c"), s).is_empty());
        assert!(resolver.waiter(&id("c")).is_none());
        assert!(resolver.waiter(&id("b")).is_some());
        // A unit on which nobody depends is no exception.
        assert!(resolver.state_change(&id("d"), s).is_empty());
        assert!(resolver.waiter(&id("d")).is_none());
    }
    for s in [State::Uninit, State::Starting, State::Active, State::Stopping] {
        let mut resolver = waiting();
        resolver.state_change(&id("c"), s);
        assert!(resolver.waiter(&id("c")).is_some());
    }
}

#[test]
fn failure_reaches_who_requires_the_unit() {
    let mut resolver = waiting();
    assert_eq!(notes(&resolver.state_change(&id("a"), State::Failed)), vec!["failed b"]);
    assert!(resolver.waiter(&id("b")).is_none());
    assert!(resolver.waiter(&id("c")).is_some());
}

#[test]
fn failure_lets_go_who_only_wanted_the_unit() {
    let mut resolver = waiting();
    // c wants b and is to start after it, and does not require it.
    assert_eq!(notes(&resolver.state_change(&id("b"), State::Failed)), vec!["ready c"]);
    assert!(resolver.waiter(&id("c")).is_none());
    assert!(resolver.waiter(&id("b")).is_none());
}

#[test]
fn stopped_lets_go_a_rival_that_was_to_start_after_the_unit() {
    let mut resolver = DepStore::new();
    let units = store_of(&["u", "v"]);
    let mut guards = GuardStore::new();
    let states = StateStore::new();
    let u = deps(&[], &[], &["v"], &["v"]);
    resolver.load(&id("u"), &u);
    guards.insert(id("v"), UnitDeps::new());
    assert!(resolver.add_to_start_list(id("u"), &u, &units, &guards, &states).is_empty());
    // When v begins to stop the conflict is out of the way, the order is
    // not.
    assert!(resolver.state_change(&id("v"), State::Stopping).is_empty());
    let waiter = resolver.waiter(&id("u")).unwrap();
    assert!(waiter.get(Edge::Conflicts).is_empty());
    assert_eq!(names(waiter.get(Edge::After)), vec!["v"]);
    assert_eq!(notes(&resolver.state_change(&id("v"), State::Stopped)), vec!["ready u"]);
}

// The unit store.

fn loaded() -> UnitStore {
    let mut store = UnitStore::new();
    store.load(unit("a", deps(&[], &[], &[], &[])));
    store.load(unit("b", deps(&["a"], &[], &["a"], &[])));
    store.load(unit("c", deps(&[], &["b", "ghost"], &["b"], &["x", "y"])));
    store.load(unit("e", deps(&["f"], &["c"], &[], &[])));
    store.load(unit("f", deps(&["e", "g"], &[], &[], &[])));
    store.load(unit("g", deps(&[], &["h"], &[], &[])));
    store.load(unit("h", deps(&[], &[], &[], &[])));
    store
}

#[test]
fn store_tells_the_resolver_of_every_change() {
    let mut store = UnitStore::new();
    assert_eq!(orders(&store.load(unit("a", deps(&["b"], &[], &[], &[])))), vec!["load a"]);
    let out = store.update(unit("a", deps(&["c"], &[], &[], &[])));
    match &out[..] {
        [StoreOut::DepUpdate(u, was, new)] => {
            assert_eq!(u.name(), "a");
            assert_eq!(was.requires, ids(&["b"]));
            assert_eq!(new.requires, ids(&["c"]));
        }
        other => panic!("{:?}", other),
    }
    assert_eq!(store.get(&id("a")).unwrap().common.deps.requires, ids(&["c"]));
    assert_eq!(orders(&store.update(unit("z", UnitDeps::new()))), vec!["load z"]);
    let out = store.remove(&id("a"));
    match &out[..] {
        [StoreOut::DepUpdate(u, was, new)] => {
            assert_eq!(u.name(), "a");
            assert_eq!(was.requires, ids(&["c"]));
            assert!(new.requires.is_empty());
        }
        other => panic!("{:?}", other),
    }
    assert!(store.get(&id("a")).is_none());
    assert!(store.remove(&id("a")).is_empty());
}

#[test]
fn start_pulls_in_what_is_wanted_and_required() {
    let store = loaded();
    let guards = GuardStore::new();
    assert_eq!(orders(&store.start(&id("c"), &guards)), vec![
        "stop x", "stop y", "insert b", "insert a", "insert c"
    ]);
    assert_eq!(orders(&store.start(&id("a"), &guards)), vec!["insert a"]);
    assert!(store.start(&id("ghost"), &guards).is_empty());
}

#[test]
fn start_pulls_in_each_unit_once_even_in_a_circle() {
    let store = loaded();
    let guards = GuardStore::new();
    // e wants c, which wants b; e requires f, which requires e and g; b
    // requires a. The wanted h of the required g is not pulled in.
    let wants = store.find_wants(&id("e"), &guards);
    assert_eq!(wants, ids(&["c", "b"]));
    let needs = store.find_requires(&id("e"), &wants, &guards);
    assert_eq!(needs, ids(&["f", "a", "g"]));
    assert_eq!(orders(&store.start(&id("e"), &guards)), vec![
        "stop x", "stop y", "insert c", "insert b", "insert f", "insert a", "insert g", "insert e"
    ][2..].to_vec());
}

#[test]
fn start_skips_units_that_have_a_guard_at_work() {
    let store = loaded();
    let mut guards = GuardStore::new();
    guards.insert(id("b"), UnitDeps::new());
    // b has a guard, so neither b nor what only b requires is pulled in.
    assert_eq!(orders(&store.start(&id("c"), &guards)), vec!["stop x", "stop y", "insert c"]);
    guards.stop(&id("b"));
    assert!(!guards.is_live(&id("b")));
    assert_eq!(orders(&store.start(&id("c"), &guards)), vec![
        "stop x", "stop y", "insert b", "insert a", "insert c"
    ]);
}

#[test]
fn stop_and_restart_are_passed_on() {
    let store = loaded();
    assert_eq!(orders(&store.stop(&id("a"))), vec!["stop a"]);
    assert_eq!(orders(&store.stop(&id("nowhere"))), vec!["stop nowhere"]);
    assert_eq!(orders(&store.restart(&id("a"))), vec!["stop a", "start-when-dead a"]);
}
