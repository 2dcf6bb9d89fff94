//! Socket units: a listening socket that has a service started when
//! somebody knocks.

use vstd::prelude::*;

use crate::unit::{Report, RtMsg, UnitId, UnitImpl, UnitKind};

verus! {

/// What a socket unit is made of: the path of its socket and the service
/// that it has started.
#[derive(Debug)]
pub struct Impl {
    pub path: String,
    pub service: UnitId,
}

impl UnitImpl<Impl> {
    /// The kind of the unit.
    pub fn kind(&self) -> (kind: UnitKind)
        ensures
            kind == UnitKind::Socket,
    {
        UnitKind::Socket
    }
}

/// Where a listening socket stands with its service.
#[derive(Clone, Copy, Debug, PartialEq, Eq, Structural)]
pub enum RtState {
    /// Nobody has knocked.
    Listening,
    /// Somebody has knocked; the service is being started and is to take
    /// over the connection.
    Starting,
    /// The service has taken over.
    Running,
}

/// What a listening socket waits for.
#[derive(Clone, Copy, Debug, PartialEq, Eq, Structural)]
pub enum Awaited {
    /// That the socket can be read from.
    Readable,
    /// That the service takes over.
    Handover,
    /// Nothing that will ever come.
    Nothing,
}

/// What can happen to a listening socket.
#[derive(Clone, Copy, Debug, PartialEq, Eq, Structural)]
pub enum SocketEvent {
    /// The socket can be read from.
    Readable,
    /// The service has taken over the connection, if `true`; it will never
    /// do so, if `false`.
    Handover(bool),
}

impl RtState {
    /// What the socket waits for.
    pub open spec fn awaited(self) -> Awaited {
        match self {
            RtState::Listening => Awaited::Readable,
            RtState::Starting => Awaited::Handover,
            RtState::Running => Awaited::Nothing,
        }
    }

    /// Where the socket stands after `ev`. A knock while it listens has the
    /// service started; the service taking over makes it run; a service
    /// that will not take over leaves the socket listening again. What it
    /// does not wait for changes nothing.
    pub open spec fn next(self, ev: SocketEvent) -> RtState {
        match (self, ev) {
            (RtState::Listening, SocketEvent::Readable) => RtState::Starting,
            (RtState::Starting, SocketEvent::Handover(true)) => RtState::Running,
            (RtState::Starting, SocketEvent::Handover(false)) => RtState::Listening,
            _ => self,
        }
    }

    /// What the socket reports to its guard on `ev`: on a knock while it
    /// listens, that `service` is to be started; on anything else that it
    /// waits for, that there is nothing of note; on what it does not wait
    /// for, nothing.
    pub open spec fn report(self, ev: SocketEvent, service: Seq<char>) -> Option<Report> {
        match (self, ev) {
            (RtState::Listening, SocketEvent::Readable) => Some(Report::TriggerStart(service)),
            (RtState::Starting, SocketEvent::Handover(_)) => Some(Report::Yield),
            _ => None,
        }
    }

    /// What the socket waits for.
    pub fn wait_for(&self) -> (r: Awaited)
        ensures
            r == self.awaited(),
    {
        match self {
            RtState::Listening => Awaited::Readable,
            RtState::Starting => Awaited::Handover,
            RtState::Running => Awaited::Nothing,
        }
    }

    /// Takes `ev` in: moves the socket on and says what it reports to the
    /// guard of its unit, `service` being the service that it has started.
    pub fn on(&mut self, ev: SocketEvent, service: &UnitId) -> (r: Option<RtMsg>)
        ensures
            *final(self) == old(self).next(ev),
            match r {
                Some(msg) => old(self).report(ev, service@) == Some(msg.deep_view()),
                None => old(self).report(ev, service@) is None,
            },
    {
        match (*self, ev) {
            (RtState::Listening, SocketEvent::Readable) => {
                *self = RtState::Starting;
                Some(RtMsg::TriggerStart(service.clone()))
            },
            (RtState::Starting, SocketEvent::Handover(true)) => {
                *self = RtState::Running;
                Some(RtMsg::Yield)
            },
            (RtState::Starting, SocketEvent::Handover(false)) => {
                *self = RtState::Listening;
                Some(RtMsg::Yield)
            },
            _ => None,
        }
    }
}

} // verus!
