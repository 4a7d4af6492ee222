//! Data of the Elo ratings of speakers: the speakers and scores of one room,
//! and which of two teams won their pairing.

use vstd::prelude::*;

verus! {

/// The speakers of each team of a room, and the speaks each received.
#[derive(Debug, Clone, Copy)]
pub struct Room {
    pub og: (usize, usize),
    pub oo: (usize, usize),
    pub co: (usize, usize),
    pub cg: (usize, usize),
    pub og_speaks: (u8, u8),
    pub oo_speaks: (u8, u8),
    pub cg_speaks: (u8, u8),
    pub co_speaks: (u8, u8),
}

#[derive(Debug, Copy, Clone, Hash, PartialEq, Eq, Structural)]
pub struct SpeakerId(pub usize);

/// Team one beats team two in their pairing when its two speakers together
/// scored more.
pub fn team_one_wins(team_1_speaks: (u8, u8), team_2_speaks: (u8, u8)) -> (b: bool)
    requires
        team_1_speaks.0 + team_1_speaks.1 <= u8::MAX,
        team_2_speaks.0 + team_2_speaks.1 <= u8::MAX,
    ensures
        b == (team_1_speaks.0 + team_1_speaks.1 > team_2_speaks.0 + team_2_speaks.1),
{
    team_1_speaks.0 + team_1_speaks.1 > team_2_speaks.0 + team_2_speaks.1
}

} // verus!
