//! Service units: what a service is made of, and what its backend is to
//! do.

use vstd::prelude::*;

use crate::loader::listed;
use crate::state::State;
use crate::text::{words, words_of, Sep};
use crate::unit::{Common, Deps, UnitCommon, UnitDeps, UnitImpl, UnitKind};

verus! {

/// How a service runs.
#[derive(Clone, Copy, Debug, PartialEq, Eq, Structural)]
pub enum Kind {
    /// One process that lives as long as the service.
    Simple,
    /// A process that hands over to a child and leaves.
    Forking,
    /// A process whose exit says how the service has fared.
    Oneshot,
    /// A process that says by itself when it is up.
    Notify,
}

impl Kind {
    /// Whether the backend can run a service of this kind.
    pub open spec fn supported(self) -> bool {
        self == Kind::Simple || self == Kind::Oneshot
    }

    /// Whether the backend can run a service of this kind.
    pub fn is_supported(&self) -> (r: bool)
        ensures
            r == self.supported(),
    {
        match self {
            Kind::Simple | Kind::Oneshot => true,
            Kind::Forking | Kind::Notify => false,
        }
    }
}

/// What a service is made of, as plain values.
pub struct Program {
    pub kind: Kind,
    pub exec_start: Seq<char>,
    pub exec_stop: Seq<char>,
    pub exec_restart: Seq<char>,
}

/// What a service is made of: its kind and its three command lines.
#[derive(Debug)]
pub struct Impl {
    kind: Kind,
    exec_start: String,
    exec_stop: String,
    exec_restart: String,
}

impl DeepView for Impl {
    type V = Program;

    closed spec fn deep_view(&self) -> Program {
        Program {
            kind: self.kind,
            exec_start: self.exec_start@,
            exec_stop: self.exec_stop@,
            exec_restart: self.exec_restart@,
        }
    }
}

/// How a service is stopped.
#[derive(Debug)]
pub enum StopPlan {
    /// Its process is killed.
    Kill,
    /// This program is run with these arguments, and waited for.
    Run(String, Vec<String>),
    /// There is no way to stop it.
    Unsupported,
}

/// How a service is stopped, as plain values.
pub enum Stopping {
    Kill,
    Run(Seq<char>, Seq<Seq<char>>),
    Unsupported,
}

impl DeepView for StopPlan {
    type V = Stopping;

    open spec fn deep_view(&self) -> Stopping {
        match self {
            StopPlan::Kill => Stopping::Kill,
            StopPlan::Run(program, args) => Stopping::Run(program@, args.deep_view()),
            StopPlan::Unsupported => Stopping::Unsupported,
        }
    }
}

/// The program and the arguments that the command line `cmd` names: its
/// first word and the words after it. None if it has no word.
pub open spec fn command(cmd: Seq<char>, sep: Sep) -> Option<(Seq<char>, Seq<Seq<char>>)> {
    let all = words(cmd, sep);
    if all.len() == 0 {
        None
    } else {
        Some((all[0], all.drop_first()))
    }
}

/// The program and the arguments that a command line names, its words
/// being parted by `sep`. None if it has no word.
pub fn command_line(cmd: &str, sep: Sep) -> (r: Option<(String, Vec<String>)>)
    ensures
        match r {
            Some((program, args)) => command(cmd@, sep) == Some((program@, args.deep_view())),
            None => command(cmd@, sep) is None,
        },
{
    let mut all = words_of(cmd, sep);
    if all.len() == 0 {
        return None;
    }
    let ghost every = all.deep_view();
    let program = all.remove(0);
    assert(all.deep_view() =~= every.drop_first());
    Some((program, all))
}

/// The state that a service is left in when its process has ended.
pub fn exit_state(success: bool) -> (s: State)
    ensures
        s == if success {
            State::Stopped
        } else {
            State::Failed
        },
{
    if success {
        State::Stopped
    } else {
        State::Failed
    }
}

impl Impl {
    /// A service of this kind with these command lines.
    pub fn new(kind: Kind, start: String, stop: String, restart: String) -> (program: Impl)
        ensures
            program.deep_view() == (Program {
                kind,
                exec_start: start@,
                exec_stop: stop@,
                exec_restart: restart@,
            }),
    {
        Impl { kind, exec_start: start, exec_stop: stop, exec_restart: restart }
    }

    /// How the service runs.
    pub fn kind(&self) -> (kind: Kind)
        ensures
            kind == self.deep_view().kind,
    {
        self.kind
    }

    /// The command line that starts the service.
    pub fn exec_start(&self) -> (cmd: &str)
        ensures
            cmd@ == self.deep_view().exec_start,
    {
        self.exec_start.as_str()
    }

    /// The command line that stops the service.
    pub fn exec_stop(&self) -> (cmd: &str)
        ensures
            cmd@ == self.deep_view().exec_stop,
    {
        self.exec_stop.as_str()
    }

    /// The command line that restarts the service.
    pub fn exec_restart(&self) -> (cmd: &str)
        ensures
            cmd@ == self.deep_view().exec_restart,
    {
        self.exec_restart.as_str()
    }

    /// What is to be run to start the service: the program and the
    /// arguments of its start line. None if the line is empty or the kind
    /// is one that the backend cannot run.
    pub fn start_plan(&self) -> (r: Option<(String, Vec<String>)>)
        ensures
            match r {
                Some((program, args)) => self.deep_view().kind.supported() && command(
                    self.deep_view().exec_start,
                    Sep::Space,
                ) == Some((program@, args.deep_view())),
                None => !self.deep_view().kind.supported() || command(
                    self.deep_view().exec_start,
                    Sep::Space,
                ) is None,
            },
    {
        if !self.kind.is_supported() {
            return None;
        }
        command_line(self.exec_start.as_str(), Sep::Space)
    }

    /// How the service is stopped: a simple one by killing its process, a
    /// oneshot by running its stop line.
    pub fn stop_plan(&self) -> (plan: StopPlan)
        ensures
            plan.deep_view() == match self.deep_view().kind {
                Kind::Simple => Stopping::Kill,
                Kind::Oneshot => match command(self.deep_view().exec_stop, Sep::Space) {
                    Some((program, args)) => Stopping::Run(program, args),
                    None => Stopping::Unsupported,
                },
                _ => Stopping::Unsupported,
            },
    {
        match self.kind {
            Kind::Simple => StopPlan::Kill,
            Kind::Oneshot => match command_line(self.exec_stop.as_str(), Sep::Space) {
                Some((program, args)) => StopPlan::Run(program, args),
                None => StopPlan::Unsupported,
            },
            _ => StopPlan::Unsupported,
        }
    }
}

impl UnitImpl<Impl> {
    /// A service for trying things out. It has no description, and its one
    /// command line `start` serves to start, to stop and to restart it:
    /// `stop` and `restart` are not looked at.
    pub fn gen_test(
        name: &str,
        deps: UnitDeps,
        kind: Kind,
        start: &str,
        stop: &str,
        restart: &str,
    ) -> (unit: UnitImpl<Impl>)
        ensures
            unit.common.deep_view() == (Common {
                name: name@,
                description: Seq::<char>::empty(),
                documentation: Seq::<char>::empty(),
                deps: deps.deep_view(),
            }),
            unit.sub.deep_view() == (Program {
                kind,
                exec_start: start@,
                exec_stop: start@,
                exec_restart: start@,
            }),
    {
        UnitImpl {
            common: UnitCommon {
                name: name.to_owned(),
                description: String::new(),
                documentation: String::new(),
                deps,
            },
            sub: Impl {
                kind,
                exec_start: start.to_owned(),
                exec_stop: start.to_owned(),
                exec_restart: start.to_owned(),
            },
        }
    }

    /// The kind of the unit.
    pub fn kind(&self) -> (kind: UnitKind)
        ensures
            kind == UnitKind::Service,
    {
        UnitKind::Service
    }
}

/// A service as its unit file writes it.
#[derive(Debug)]
pub struct Service {
    pub name: String,
    pub requires: String,
    pub wants: String,
    pub before: String,
    pub after: String,
    pub conflicts: String,
    pub kind: Kind,
    pub start: String,
    pub stop: String,
    pub restart: String,
}

impl Service {
    /// The unit that the file describes: its lists are read from the five
    /// lines of names, and its command line is the start line.
    pub fn into_unit(self) -> (unit: UnitImpl<Impl>)
        ensures
            unit.common.deep_view() == (Common {
                name: self.name@,
                description: Seq::<char>::empty(),
                documentation: Seq::<char>::empty(),
                deps: Deps {
                    requires: listed(self.requires@),
                    wants: listed(self.wants@),
                    after: listed(self.after@),
                    before: listed(self.before@),
                    conflicts: listed(self.conflicts@),
                },
            }),
            unit.sub.deep_view() == (Program {
                kind: self.kind,
                exec_start: self.start@,
                exec_stop: self.start@,
                exec_restart: self.start@,
            }),
    {
        let deps = UnitDeps::from_strs(
            self.requires.as_str(),
            self.wants.as_str(),
            self.before.as_str(),
            self.after.as_str(),
            self.conflicts.as_str(),
        );
        UnitImpl::<Impl>::gen_test(
            self.name.as_str(),
            deps,
            self.kind,
            self.start.as_str(),
            self.stop.as_str(),
            self.restart.as_str(),
        )
    }
}

} // verus!
