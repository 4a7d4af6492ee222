//! The records that confirming a draft draw writes for a spar.
//!
//! Confirming a draw replaces the rooms of the spar by the rooms of the
//! draw. For each room the service writes one adjudicator record, with the
//! status "panellist", and one ballot link for each member of the panel,
//! and one team record for each team that has speakers, with a speaker
//! record for each of them. Every one of these people must have signed up
//! for the spar. This module decides the records; storing them, with the
//! identifiers, keys and times they carry, is up to the caller.

use crate::draft_draw::{set_elements, RoomSets};
use crate::solve_allocation::{team_of_int, team_of_role, team_set, SolverRoom};
use crate::spar::SparSignup;
use std::collections::{HashMap, HashSet};
use vstd::prelude::*;
use vstd::std_specs::iter::IteratorSpec;

verus! {

broadcast use vstd::std_specs::hash::group_hash_axioms;

/// A team of a confirmed room.
#[derive(Debug, Clone, PartialEq, Eq)]
pub struct ConfirmedTeam {
    /// The team's place in the speaking order: 0 for OG, 1 for OO, 2 for
    /// CG and 3 for CO.
    pub position: i64,
    /// The members who speak for the team.
    pub speakers: Vec<i64>,
}

/// The records of one confirmed room.
#[derive(Debug, Clone, PartialEq, Eq)]
pub struct ConfirmedRoom {
    /// The members on the panel; each is recorded as a panellist and given
    /// a ballot link.
    pub panel: Vec<i64>,
    /// The teams that have speakers, in speaking order.
    pub teams: Vec<ConfirmedTeam>,
}

/// Some sign-up of the spar is that of member `m`.
pub open spec fn signed_up(signups: Seq<SparSignup>, m: i64) -> bool {
    exists|i: int| 0 <= i < signups.len() && #[trigger] signups[i].member_id == m
}

/// Everyone placed in room `r`.
pub open spec fn room_members(r: RoomSets) -> Set<i64> {
    r.panel + r.og + r.oo + r.cg + r.co
}

/// `s` names each member of `members` once, and nobody else.
pub open spec fn lists(s: Seq<i64>, members: Set<i64>) -> bool {
    s.no_duplicates() && s.to_set() == members
}

/// The positions, among the first `n`, of the teams of room `r` that have
/// speakers, in speaking order.
pub open spec fn occupied_positions(r: RoomSets, n: int) -> Seq<i64>
    decreases n,
{
    if n <= 0 {
        Seq::empty()
    } else if team_set(r, team_of_role((n - 1) as usize)).is_empty() {
        occupied_positions(r, n - 1)
    } else {
        occupied_positions(r, n - 1).push((n - 1) as i64)
    }
}

/// `c` holds the records of room `r`: the whole panel, and each team that
/// has speakers, in speaking order, with all of its speakers.
pub open spec fn confirms_room(c: ConfirmedRoom, r: RoomSets) -> bool {
    &&& lists(c.panel@, r.panel)
    &&& c.teams@.map_values(|t: ConfirmedTeam| t.position) == occupied_positions(r, 4)
    &&& forall|i: int|
        0 <= i < c.teams@.len() ==> lists(
            (#[trigger] c.teams@[i]).speakers@,
            team_set(r, team_of_role(c.teams@[i].position as usize)),
        )
}

/// The member id of the sign-up of `member`.
fn signed_up_member(signups: &Vec<SparSignup>, member: i64) -> (m: i64)
    requires
        signed_up(signups@, member),
    ensures
        m == member,
{
    let mut i: usize = 0;
    while i < signups.len()
        invariant
            0 <= i <= signups@.len(),
            signed_up(signups@, member),
            forall|j: int| 0 <= j < i ==> signups@[j].member_id != member,
        decreases signups@.len() - i,
    {
        if signups[i].member_id == member {
            return signups[i].member_id;
        }
        i = i + 1;
    }
    proof {
        let j = choose|j: int| 0 <= j < signups@.len() && #[trigger] signups@[j].member_id == member;
        assert(signups@[j].member_id != member);
    }
    member
}

/// The members of a set of participants, each taken from their sign-up.
fn members_of(s: &HashSet<i64>, signups: &Vec<SparSignup>) -> (v: Vec<i64>)
    requires
        forall|m: i64| s@.contains(m) ==> signed_up(signups@, m),
    ensures
        lists(v@, s@),
{
    let elems = set_elements(s);
    let mut v: Vec<i64> = Vec::new();
    for i in 0..elems.len()
        invariant
            elems@.no_duplicates(),
            elems@.to_set() == s@,
            forall|m: i64| s@.contains(m) ==> signed_up(signups@, m),
            v@ == elems@.take(i as int),
    {
        proof {
            assert(elems@.contains(elems@[i as int]));
        }
        let m = signed_up_member(signups, elems[i]);
        v.push(m);
        proof {
            assert(v@ =~= elems@.take(i + 1));
        }
    }
    proof {
        assert(elems@.take(elems@.len() as int) =~= elems@);
    }
    v
}

/// The records that confirming a draw writes for one room.
pub fn confirm_room(room: &SolverRoom, signups: &Vec<SparSignup>) -> (c: ConfirmedRoom)
    requires
        forall|m: i64| #[trigger] room_members(room@).contains(m) ==> signed_up(signups@, m),
    ensures
        confirms_room(c, room@),
{
    proof {
        assert forall|m: i64| room.panel@.contains(m) implies signed_up(signups@, m) by {
            assert(room_members(room@).contains(m));
        }
    }
    let panel = members_of(&room.panel, signups);
    let mut teams: Vec<ConfirmedTeam> = Vec::new();
    let mut k: usize = 0;
    while k < 4
        invariant
            0 <= k <= 4,
            forall|m: i64| #[trigger] room_members(room@).contains(m) ==> signed_up(signups@, m),
            teams@.map_values(|t: ConfirmedTeam| t.position) == occupied_positions(room@, k as int),
            forall|i: int|
                0 <= i < teams@.len() ==> lists(
                    (#[trigger] teams@[i]).speakers@,
                    team_set(room@, team_of_role(teams@[i].position as usize)),
                ),
        decreases 4 - k,
    {
        let team = team_of_int(k);
        let members = room.team(team);
        if !members.is_empty() {
            proof {
                assert forall|m: i64| members@.contains(m) implies signed_up(signups@, m) by {
                    assert(room_members(room@).contains(m));
                }
            }
            let speakers = members_of(members, signups);
            let ghost before = teams@;
            teams.push(ConfirmedTeam { position: k as i64, speakers });
            proof {
                assert(teams@.map_values(|t: ConfirmedTeam| t.position) =~= before.map_values(
                    |t: ConfirmedTeam| t.position,
                ).push(k as i64));
            }
        }
        k = k + 1;
    }
    ConfirmedRoom { panel, teams }
}

/// The records that confirming a draw writes, one entry for each room of
/// the draw, in the order in which the map of rooms is walked.
///
/// Everyone placed in a room must have signed up for the spar.
pub fn confirm_rooms(rooms: &HashMap<usize, SolverRoom>, signups: &Vec<SparSignup>) -> (r: Vec<ConfirmedRoom>)
    requires
        forall|k: usize, m: i64|
            rooms@.contains_key(k) && #[trigger] room_members(rooms@[k]@).contains(m) ==> signed_up(
                signups@,
                m,
            ),
    ensures
        ({
            let entries = vstd::std_specs::hash::spec_hash_map_iter(rooms).remaining();
            &&& r@.len() == entries.len()
            &&& forall|i: int| 0 <= i < r@.len() ==> confirms_room(#[trigger] r@[i], (*entries[i].1)@)
        }),
        r@.len() == rooms@.len(),
        forall|k: usize|
            #[trigger] rooms@.contains_key(k) ==> exists|i: int|
                0 <= i < r@.len() && confirms_room(#[trigger] r@[i], rooms@[k]@),
{
    let ghost entries = vstd::std_specs::hash::spec_hash_map_iter(rooms).remaining();
    let mut out: Vec<ConfirmedRoom> = Vec::new();
    for entry in it: rooms.iter()
        invariant
            it.seq() == entries,
            forall|i: int|
                #![trigger entries[i]]
                0 <= i < entries.len() ==> rooms@.contains_key(*entries[i].0) && rooms@[*entries[i].0]
                    == *entries[i].1,
            forall|k: usize, m: i64|
                rooms@.contains_key(k) && #[trigger] room_members(rooms@[k]@).contains(m) ==> signed_up(
                    signups@,
                    m,
                ),
            out@.len() == it.index(),
            forall|i: int| 0 <= i < out@.len() ==> confirms_room(#[trigger] out@[i], (*entries[i].1)@),
    {
        let (key, room) = entry;
        proof {
            let i = it.index() as int;
            assert(entries[i] == (key, room));
            assert(rooms@.contains_key(*key) && rooms@[*key] == *room);
            assert forall|m: i64| #[trigger] room_members(room@).contains(m) implies signed_up(signups@, m) by {
                assert(room_members(rooms@[*key]@).contains(m));
            }
        }
        let c = confirm_room(room, signups);
        out.push(c);
    }
    proof {
        assert forall|k: usize| #[trigger] rooms@.contains_key(k) implies exists|i: int|
            0 <= i < out@.len() && confirms_room(#[trigger] out@[i], rooms@[k]@) by {
            assert(entries.contains((&k, &rooms@[k])));
            let i = choose|i: int| 0 <= i < entries.len() && entries[i] == (&k, &rooms@[k]);
            assert(confirms_room(out@[i], (*entries[i].1)@));
        }
    }
    out
}

} // verus!
