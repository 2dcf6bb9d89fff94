use sysrs::actor::{Actors, BackendEvent, Command, Effect};
use sysrs::service::{Impl, Kind};
use sysrs::state::State;
use sysrs::unit::{RtMsg, UnitDeps, UnitDesc, UnitId, UnitImpl, UnitKind};

fn ids(names: &[&str]) -> Vec<UnitId> {
    names.iter().map(|n| UnitId::new(n)).collect()
}

fn unit(name: &str, requires: &[&str], wants: &[&str], after: &[&str], conflicts: &[&str]) -> UnitDesc {
    let deps = UnitDeps {
        requires: ids(requires),
        wants: ids(wants),
        after: ids(after),
        before: Vec::new(),
        conflicts: ids(conflicts),
    };
    UnitImpl::<Impl>::gen_test(name, deps, Kind::Simple, "run", "", "").desc(UnitKind::Service)
}

/// A small generator of numbers that look random and are the same on every
/// run.
struct Dice(u64);

impl Dice {
    fn roll(&mut self, sides: u64) -> u64 {
        self.0 = self.0.wrapping_mul(6364136223846793005).wrapping_add(1442695040888963407);
        (self.0 >> 33) % sides
    }
}

/// A driver that answers the engine as backends would, each answer after a
/// delay of its own, while commands to start and stop come in at any time.
struct Storm {
    actors: Actors,
    dice: Dice,
    /// What the backends still owe the engine.
    owed: Vec<Command>,
    /// The units whose backend runs.
    running: Vec<String>,
}

impl Storm {
    fn new(seed: u64, units: Vec<UnitDesc>) -> Storm {
        let mut actors = Actors::new();
        for u in units {
            actors.send(Command::Update(u));
        }
        while !actors.is_idle() {
            actors.step();
        }
        Storm { actors, dice: Dice(seed), owed: Vec::new(), running: Vec::new() }
    }

    /// One move: a step of the engine, an answer of a backend, the end of a
    /// running unit, or a command.
    fn stir(&mut self, names: &[&str]) {
        match self.dice.roll(10) {
            0..=5 => {
                match self.actors.step() {
                    Some(Effect::StartBackend(id)) => {
                        let ok = self.dice.roll(5) != 0;
                        if ok {
                            // Two backends of one unit never run at once.
                            assert!(!self.running.contains(&id.name().to_string()));
                            self.running.push(id.name().to_string());
                        }
                        self.owed.push(Command::Backend(id, BackendEvent::Started(ok)));
                    }
                    Some(Effect::StopBackend(id)) => {
                        let ok = self.dice.roll(5) != 0;
                        self.running.retain(|n| n != id.name());
                        self.owed.push(Command::Backend(id, BackendEvent::Stopped(ok)));
                    }
                    _ => {}
                }
            }
            6 | 7 => {
                if !self.owed.is_empty() {
                    let i = self.dice.roll(self.owed.len() as u64) as usize;
                    let answer = self.owed.remove(i);
                    self.actors.send(answer);
                }
            }
            8 => {
                // A running unit ends by itself, if its start has been
                // answered.
                if !self.running.is_empty() {
                    let i = self.dice.roll(self.running.len() as u64) as usize;
                    let name = self.running[i].clone();
                    let answered = !self.owed.iter().any(|c| {
                        matches!(c, Command::Backend(id, BackendEvent::Started(_)) if id.name() == name)
                    });
                    if answered {
                        self.running.remove(i);
                        let how = if self.dice.roll(2) == 0 { State::Stopped } else { State::Failed };
                        self.actors.send(Command::Backend(
                            UnitId::new(&name),
                            BackendEvent::Runtime(RtMsg::Exit(how)),
                        ));
                    }
                }
            }
            _ => {
                let name = names[self.dice.roll(names.len() as u64) as usize];
                let id = UnitId::new(name);
                match self.dice.roll(3) {
                    0 => self.actors.send(Command::Stop(id)),
                    _ => self.actors.send(Command::Start(id)),
                }
            }
        }
    }

    fn active(&self, name: &str) -> bool {
        self.actors.state(&UnitId::new(name)) == State::Active
    }
}

#[test]
fn conflicting_units_are_never_both_active_whatever_the_timing() {
    let mut turns = 0;
    for seed in 0..300 {
        let units = vec![
            unit("x", &[], &[], &[], &["y"]),
            unit("y", &[], &[], &[], &["x"]),
            unit("z", &["x"], &[], &["x"], &[]),
        ];
        let mut storm = Storm::new(seed, units);
        let mut up = "";
        for step in 0..2000 {
            storm.stir(&["x", "y", "z"]);
            assert!(
                !(storm.active("x") && storm.active("y")),
                "seed {seed}, step {step}: both are active"
            );
            for name in ["x", "y"] {
                if storm.active(name) && up != name {
                    up = name;
                    turns += 1;
                }
            }
        }
    }
    // The two did take turns, again and again.
    assert!(turns > 1000, "{turns}");
}

#[test]
fn unit_is_never_active_before_the_unit_it_requires_and_starts_after() {
    let mut reached = 0;
    for seed in 0..300 {
        let units = vec![
            unit("a", &[], &[], &[], &[]),
            unit("b", &["a"], &[], &["a"], &[]),
            unit("c", &["b"], &[], &["b"], &[]),
        ];
        let mut storm = Storm::new(seed, units);
        let mut a_was_up = false;
        let mut b_was_up = false;
        let mut c_was_up = false;
        for step in 0..2000 {
            storm.stir(&["a", "b", "c"]);
            a_was_up |= storm.active("a");
            b_was_up |= storm.active("b");
            let b = storm.actors.state(&UnitId::new("b"));
            let c = storm.actors.state(&UnitId::new("c"));
            if b == State::Starting || b == State::Active {
                assert!(a_was_up, "seed {seed}, step {step}: b before a");
            }
            if c == State::Starting || c == State::Active {
                assert!(b_was_up, "seed {seed}, step {step}: c before b");
            }
            c_was_up |= c == State::Active;
        }
        reached += c_was_up as u32;
    }
    // The last of the chain did get up in most runs.
    assert!(reached > 150, "{reached}");
}
