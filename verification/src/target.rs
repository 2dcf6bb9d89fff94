//! Target units: points that other units gather at.

use vstd::prelude::*;

use crate::unit::{UnitImpl, UnitKind};

verus! {

/// What a target is made of: nothing. To start or stop it is to do
/// nothing; what it is for lies in who names it.
#[derive(Clone, Copy, Debug, PartialEq, Eq, Structural)]
pub struct Impl {}

impl UnitImpl<Impl> {
    /// The kind of the unit.
    pub fn kind(&self) -> (kind: UnitKind)
        ensures
            kind == UnitKind::Target,
    {
        UnitKind::Target
    }
}

} // verus!
