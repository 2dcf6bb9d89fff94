//! Lifecycle states of a unit, and sets of them.

use vstd::prelude::*;

verus! {

/// The lifecycle stage of one unit at one point in time.
#[derive(Clone, Copy, Debug, PartialEq, Eq, PartialOrd, Ord, Hash, Structural)]
pub enum State {
    Uninit,
    Stopped,
    Failed,
    Starting,
    Active,
    Stopping,
}

impl DeepView for State {
    type V = State;

    open spec fn deep_view(&self) -> State {
        *self
    }
}

impl Default for State {
    fn default() -> (s: State)
        ensures
            s == State::Uninit,
    {
        State::Uninit
    }
}

impl State {
    /// No instance of the unit is running or under way.
    pub open spec fn dead(self) -> bool {
        self == State::Uninit || self == State::Stopped || self == State::Failed
    }

    /// The state's name.
    pub open spec fn label(self) -> Seq<char> {
        match self {
            State::Uninit => "Uninit"@,
            State::Stopped => "Stopped"@,
            State::Failed => "Failed"@,
            State::Starting => "Starting"@,
            State::Active => "Active"@,
            State::Stopping => "Stopping"@,
        }
    }

    /// The state's place in the order of the states, from `Uninit` on.
    pub open spec fn rank(self) -> int {
        match self {
            State::Uninit => 0,
            State::Stopped => 1,
            State::Failed => 2,
            State::Starting => 3,
            State::Active => 4,
            State::Stopping => 5,
        }
    }

    /// Whether the unit is up.
    pub fn is_active(&self) -> (r: bool)
        ensures
            r == (*self == State::Active),
    {
        match self {
            State::Uninit | State::Stopped | State::Failed | State::Starting | State::Stopping => {
                false
            },
            State::Active => true,
        }
    }

    /// Whether the unit is neither running nor on its way up or down.
    pub fn is_dead(&self) -> (r: bool)
        ensures
            r == self.dead(),
    {
        match self {
            State::Starting | State::Active | State::Stopping => false,
            State::Uninit | State::Stopped | State::Failed => true,
        }
    }

    /// The state's name, as it is shown to people.
    pub fn name(&self) -> (r: &'static str)
        ensures
            r@ == self.label(),
    {
        match self {
            State::Uninit => "Uninit",
            State::Stopped => "Stopped",
            State::Failed => "Failed",
            State::Starting => "Starting",
            State::Active => "Active",
            State::Stopping => "Stopping",
        }
    }

    /// The state's name as an owned string.
    pub fn to_string(&self) -> (r: String)
        ensures
            r@ == self.label(),
    {
        self.name().to_owned()
    }

    /// The number by which the state is reported over a wire.
    pub fn code(&self) -> (r: u8)
        ensures
            r == self.rank(),
    {
        match self {
            State::Uninit => 0,
            State::Stopped => 1,
            State::Failed => 2,
            State::Starting => 3,
            State::Active => 4,
            State::Stopping => 5,
        }
    }
}

/// The dead states, as a set.
pub open spec fn dead_states() -> Set<State> {
    Set::new(|s: State| s.dead())
}

/// A set of states. Since there are six states, every condition on a
/// unit's state is one of these sets.
#[derive(Clone, Copy, Debug, PartialEq, Eq, Structural)]
pub struct StateSet {
    uninit: bool,
    stopped: bool,
    failed: bool,
    starting: bool,
    active: bool,
    stopping: bool,
}

impl View for StateSet {
    type V = Set<State>;

    closed spec fn view(&self) -> Set<State> {
        Set::new(
            |s: State|
                match s {
                    State::Uninit => self.uninit,
                    State::Stopped => self.stopped,
                    State::Failed => self.failed,
                    State::Starting => self.starting,
                    State::Active => self.active,
                    State::Stopping => self.stopping,
                },
        )
    }
}

impl StateSet {
    /// The set without members.
    pub fn empty() -> (set: StateSet)
        ensures
            set@ == Set::<State>::empty(),
    {
        let set = StateSet {
            uninit: false,
            stopped: false,
            failed: false,
            starting: false,
            active: false,
            stopping: false,
        };
        assert(set@ =~= Set::<State>::empty());
        set
    }

    /// The dead states.
    pub fn dead() -> (set: StateSet)
        ensures
            set@ == dead_states(),
    {
        let set = StateSet {
            uninit: true,
            stopped: true,
            failed: true,
            starting: false,
            active: false,
            stopping: false,
        };
        assert(set@ =~= dead_states());
        set
    }

    /// The set whose one member is `s`.
    pub fn only(s: State) -> (set: StateSet)
        ensures
            set@ == Set::<State>::empty().insert(s),
    {
        let set = StateSet::empty().with(s);
        set
    }

    /// The set with `s` added.
    pub fn with(self, s: State) -> (set: StateSet)
        ensures
            set@ == self@.insert(s),
    {
        let mut set = self;
        match s {
            State::Uninit => {
                set.uninit = true;
            },
            State::Stopped => {
                set.stopped = true;
            },
            State::Failed => {
                set.failed = true;
            },
            State::Starting => {
                set.starting = true;
            },
            State::Active => {
                set.active = true;
            },
            State::Stopping => {
                set.stopping = true;
            },
        }
        assert(set@ =~= self@.insert(s));
        set
    }

    /// The states that are not in the set.
    pub fn complement(self) -> (set: StateSet)
        ensures
            forall|s: State| set@.contains(s) == !self@.contains(s),
    {
        StateSet {
            uninit: !self.uninit,
            stopped: !self.stopped,
            failed: !self.failed,
            starting: !self.starting,
            active: !self.active,
            stopping: !self.stopping,
        }
    }

    /// Whether `s` is in the set.
    pub fn contains(&self, s: State) -> (r: bool)
        ensures
            r == self@.contains(s),
    {
        match s {
            State::Uninit => self.uninit,
            State::Stopped => self.stopped,
            State::Failed => self.failed,
            State::Starting => self.starting,
            State::Active => self.active,
            State::Stopping => self.stopping,
        }
    }
}

} // verus!
