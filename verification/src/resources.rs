//! Typed references to the resources of the service, by database row id.

use vstd::prelude::*;

verus! {

/// A reference to one resource of the service.
#[derive(Debug, Clone, Copy, PartialEq, Eq, Structural)]
pub enum ResourceRef {
    Group(GroupRef),
    Spar(SparRef),
    SparSeries(SparSeriesRef),
    User(UserRef),
    SparRoom(SparRoomRef),
    UserBallot(UserBallotRef),
}

#[derive(Debug, Clone, Copy, PartialEq, Eq, Structural)]
pub struct GroupRef(pub i64);

#[derive(Debug, Clone, Copy, PartialEq, Eq, Structural)]
pub struct SparRef(pub i64);

#[derive(Debug, Clone, Copy, PartialEq, Eq, Structural)]
pub struct SparSeriesRef(pub i64);

#[derive(Debug, Clone, Copy, PartialEq, Eq, Structural)]
pub struct UserRef(pub i64);

#[derive(Debug, Clone, Copy, PartialEq, Eq, Structural)]
pub struct SparRoomRef(pub i64);

#[derive(Debug, Clone, Copy, PartialEq, Eq, Structural)]
pub struct UserBallotRef(pub i64);

} // verus!
