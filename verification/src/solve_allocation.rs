//! Turning the solution of the allocation problem into rooms.
//!
//! The allocation problem assigns every participant of a spar either to one
//! of the four teams of some room or to the panel of some room. The solver
//! reports, for each participant, room and role (0 to 3 for OG, OO, CG, CO,
//! 4 for the panel), whether the participant takes that role in that room.

use crate::draft_draw::RoomSets;
use std::collections::{HashMap, HashSet};
use vstd::prelude::*;
use vstd::std_specs::iter::IteratorSpec;

verus! {

broadcast use vstd::std_specs::hash::group_hash_axioms;

#[derive(Hash, Eq, PartialEq, PartialOrd, Ord, Clone, Copy, Debug, Structural)]
pub enum Team {
    Og,
    Oo,
    Cg,
    Co,
}

/// Where the solver placed one participant.
#[derive(Copy, Clone, Debug, PartialEq, Eq, Hash, Structural)]
pub enum Assignment {
    /// Allocated to the given team in the given room.
    Team { room: usize, team: Team },
    /// On the panel of the given room.
    Judge(usize),
}

impl Assignment {
    /// The room of the assignment.
    pub open spec fn room_of(self) -> usize {
        match self {
            Assignment::Team { room, team: _ } => room,
            Assignment::Judge(room) => room,
        }
    }
}

/// A room reconstructed from the solver output. A team that nobody was
/// allocated to has an empty set. Each team is a field of its own rather
/// than an entry of a map keyed by `Team`, whose derived hash the verifier
/// does not read.
#[derive(Debug)]
pub struct SolverRoom {
    /// The panel.
    pub panel: HashSet<i64>,
    pub og: HashSet<i64>,
    pub oo: HashSet<i64>,
    pub cg: HashSet<i64>,
    pub co: HashSet<i64>,
}

impl View for SolverRoom {
    type V = RoomSets;

    open spec fn view(&self) -> RoomSets {
        RoomSets { panel: self.panel@, og: self.og@, oo: self.oo@, cg: self.cg@, co: self.co@ }
    }
}

impl SolverRoom {
    /// The members of one team.
    pub fn team(&self, team: Team) -> (s: &HashSet<i64>)
        ensures
            s@ == team_set(self@, team),
    {
        match team {
            Team::Og => &self.og,
            Team::Oo => &self.oo,
            Team::Cg => &self.cg,
            Team::Co => &self.co,
        }
    }
}

/// The members of one team of a room.
pub open spec fn team_set(r: RoomSets, team: Team) -> Set<i64> {
    match team {
        Team::Og => r.og,
        Team::Oo => r.oo,
        Team::Cg => r.cg,
        Team::Co => r.co,
    }
}

/// The participants among `keys` whom `params` places exactly at `a`.
pub open spec fn placed_at(params: Map<i64, Assignment>, keys: Set<i64>, a: Assignment) -> Set<i64> {
    Set::new(|p: i64| keys.contains(p) && params.contains_key(p) && params[p] == a)
}

/// Room `r` as `params` fills it, counting only the participants in `keys`.
pub open spec fn room_model(params: Map<i64, Assignment>, keys: Set<i64>, r: usize) -> RoomSets {
    RoomSets {
        panel: placed_at(params, keys, Assignment::Judge(r)),
        og: placed_at(params, keys, Assignment::Team { room: r, team: Team::Og }),
        oo: placed_at(params, keys, Assignment::Team { room: r, team: Team::Oo }),
        cg: placed_at(params, keys, Assignment::Team { room: r, team: Team::Cg }),
        co: placed_at(params, keys, Assignment::Team { room: r, team: Team::Co }),
    }
}

/// Some participant among `keys` is placed in room `r`.
pub open spec fn room_used(params: Map<i64, Assignment>, keys: Set<i64>, r: usize) -> bool {
    exists|p: i64| #[trigger] keys.contains(p) && params.contains_key(p) && params[p].room_of() == r
}

fn room_with(a: Assignment, p: i64) -> (r: SolverRoom)
    ensures
        r@ == (RoomSets {
            panel: Set::empty(),
            og: Set::empty(),
            oo: Set::empty(),
            cg: Set::empty(),
            co: Set::empty(),
        }).with_member(a, p),
{
    let mut r = SolverRoom {
        panel: HashSet::new(),
        og: HashSet::new(),
        oo: HashSet::new(),
        cg: HashSet::new(),
        co: HashSet::new(),
    };
    add_member(&mut r, a, p);
    r
}

fn add_member(r: &mut SolverRoom, a: Assignment, p: i64)
    ensures
        final(r)@ == old(r)@.with_member(a, p),
{
    match a {
        Assignment::Judge(_) => {
            r.panel.insert(p);
        },
        Assignment::Team { room: _, team: Team::Og } => {
            r.og.insert(p);
        },
        Assignment::Team { room: _, team: Team::Oo } => {
            r.oo.insert(p);
        },
        Assignment::Team { room: _, team: Team::Cg } => {
            r.cg.insert(p);
        },
        Assignment::Team { room: _, team: Team::Co } => {
            r.co.insert(p);
        },
    }
}

/// Groups the participants by room: for every room that the assignment
/// uses, its panel and the members of each of its teams.
pub fn rooms_of_speaker_assignments(params: &HashMap<i64, Assignment>) -> (rooms: HashMap<
    usize,
    SolverRoom,
>)
    ensures
        forall|r: usize|
            #[trigger] rooms@.contains_key(r) <==> room_used(params@, params@.dom(), r),
        forall|r: usize|
            #[trigger] rooms@.contains_key(r) ==> rooms@[r]@ == room_model(
                params@,
                params@.dom(),
                r,
            ),
{
    let mut rooms: HashMap<usize, SolverRoom> = HashMap::new();
    let ghost entries = vstd::std_specs::hash::spec_hash_map_iter(params).remaining();
    // fill in the rooms hashmap
    for entry in it: params.iter()
        invariant
            it.seq() == entries,
            entries.no_duplicates(),
            forall|i: int|
                #![trigger entries[i]]
                0 <= i < entries.len() ==> params@.contains_key(*entries[i].0) && params@[*entries[i].0]
                    == *entries[i].1,
            forall|r: usize|
                #[trigger] rooms@.contains_key(r) <==> room_used(
                    params@,
                    seen_keys(entries, it.index()),
                    r,
                ),
            forall|r: usize|
                #[trigger] rooms@.contains_key(r) ==> rooms@[r]@ == room_model(
                    params@,
                    seen_keys(entries, it.index()),
                    r,
                ),
    {
        let (speaker_id, allocated_as) = entry;
        let ghost i = it.index();
        let ghost before = seen_keys(entries, i);
        let ghost after = seen_keys(entries, i + 1);
        proof {
            lemma_seen_keys_step(entries, i);
        }
        let room_idx = match allocated_as {
            Assignment::Team { room, team: _ } => *room,
            Assignment::Judge(room) => *room,
        };
        let ghost old_rooms = rooms@;
        match rooms.remove(&room_idx) {
            Some(mut room) => {
                add_member(&mut room, *allocated_as, *speaker_id);
                rooms.insert(room_idx, room);
            },
            None => {
                rooms.insert(room_idx, room_with(*allocated_as, *speaker_id));
            },
        }
        proof {
            lemma_room_model_step(params@, before, *speaker_id, room_idx);
            assert forall|r: usize| #[trigger] rooms@.contains_key(r) <==> room_used(params@, after, r) by {
                if r != room_idx {
                    if room_used(params@, after, r) {
                        let q = choose|q: i64| #[trigger] after.contains(q) && params@.contains_key(q)
                            && params@[q].room_of() == r;
                        assert(before.contains(q));
                    }
                    if room_used(params@, before, r) {
                        let q = choose|q: i64| #[trigger] before.contains(q) && params@.contains_key(q)
                            && params@[q].room_of() == r;
                        assert(after.contains(q));
                    }
                } else {
                    assert(after.contains(*speaker_id));
                }
            }
            assert forall|r: usize| #[trigger] rooms@.contains_key(r) implies rooms@[r]@ == room_model(params@, after, r) by {
                if r != room_idx {
                    assert(old_rooms.contains_key(r));
                } else if old_rooms.contains_key(r) {
                } else {
                    assert(!room_used(params@, before, r));
                    lemma_unused_room_empty(params@, before, r);
                }
            }
        }
    }
    proof {
        lemma_seen_keys_all(params@, entries);
    }
    rooms
}

/// The keys of the first `n` entries.
pub open spec fn seen_keys(entries: Seq<(&i64, &Assignment)>, n: int) -> Set<i64> {
    Set::new(|p: i64| exists|j: int| 0 <= j < n && *(#[trigger] entries[j]).0 == p)
}

impl RoomSets {
    /// The room with `p` added at the place of assignment `a`.
    pub open spec fn with_member(self, a: Assignment, p: i64) -> RoomSets {
        match a {
            Assignment::Judge(_) => RoomSets { panel: self.panel.insert(p), ..self },
            Assignment::Team { room: _, team: Team::Og } => RoomSets { og: self.og.insert(p), ..self },
            Assignment::Team { room: _, team: Team::Oo } => RoomSets { oo: self.oo.insert(p), ..self },
            Assignment::Team { room: _, team: Team::Cg } => RoomSets { cg: self.cg.insert(p), ..self },
            Assignment::Team { room: _, team: Team::Co } => RoomSets { co: self.co.insert(p), ..self },
        }
    }
}

proof fn lemma_seen_keys_step(entries: Seq<(&i64, &Assignment)>, i: int)
    requires
        0 <= i < entries.len(),
        entries.no_duplicates(),
    ensures
        seen_keys(entries, i + 1) == seen_keys(entries, i).insert(*entries[i].0),
{
    assert(seen_keys(entries, i + 1) =~= seen_keys(entries, i).insert(*entries[i].0)) by {
        assert(0 <= i < i + 1 && *entries[i].0 == *entries[i].0);
    }
}

proof fn lemma_room_model_step(params: Map<i64, Assignment>, before: Set<i64>, p: i64, r: usize)
    requires
        params.contains_key(p),
        params[p].room_of() == r,
    ensures
        room_model(params, before.insert(p), r) == room_model(params, before, r).with_member(params[p], p),
        forall|r2: usize| r2 != r ==> #[trigger] room_model(params, before.insert(p), r2) == room_model(params, before, r2),
{
    let a = params[p];
    let m = room_model(params, before, r);
    assert(room_model(params, before.insert(p), r) =~= m.with_member(a, p));
    assert forall|r2: usize| r2 != r implies #[trigger] room_model(params, before.insert(p), r2) == room_model(params, before, r2) by {
        assert(room_model(params, before.insert(p), r2) =~= room_model(params, before, r2));
    }
}

proof fn lemma_unused_room_empty(params: Map<i64, Assignment>, keys: Set<i64>, r: usize)
    requires
        !room_used(params, keys, r),
    ensures
        room_model(params, keys, r) == (RoomSets {
            panel: Set::empty(),
            og: Set::empty(),
            oo: Set::empty(),
            cg: Set::empty(),
            co: Set::empty(),
        }),
{
    assert forall|p: i64| !(#[trigger] keys.contains(p)) || !params.contains_key(p) || params[p].room_of() != r by {
    }
    assert(room_model(params, keys, r) =~= RoomSets {
        panel: Set::empty(),
        og: Set::empty(),
        oo: Set::empty(),
        cg: Set::empty(),
        co: Set::empty(),
    });
}

proof fn lemma_seen_keys_all(params: Map<i64, Assignment>, entries: Seq<(&i64, &Assignment)>)
    requires
        entries.len() == params.dom().len(),
        forall|k: i64| #[trigger] params.contains_key(k) ==> entries.contains((&k, &params[k])),
        forall|i: int| #![trigger entries[i]] 0 <= i < entries.len() ==> params.contains_key(*entries[i].0),
    ensures
        seen_keys(entries, entries.len() as int) == params.dom(),
{
    assert forall|k: i64| params.dom().contains(k) implies seen_keys(entries, entries.len() as int).contains(k) by {
        assert(entries.contains((&k, &params[k])));
        let j = choose|j: int| 0 <= j < entries.len() && entries[j] == (&k, &params[k]);
        assert(*entries[j].0 == k);
    }
    assert(seen_keys(entries, entries.len() as int) =~= params.dom());
}

/// What the solver's choice of `role` in `room` places a participant at:
/// roles 0 to 3 are the teams, role 4 the panel.
pub open spec fn assignment_for(room: usize, role: usize) -> Assignment {
    if role == 4 {
        Assignment::Judge(room)
    } else {
        Assignment::Team { room, team: team_of_role(role) }
    }
}

/// Why a solver output is not an allocation.
#[derive(Debug, Clone, Copy, PartialEq, Eq, Structural)]
pub enum InvalidSolution {
    /// The participant was chosen for more than one role.
    PlacedTwice(i64),
    /// A role number beyond the five roles of a room.
    UnknownRole(usize),
}

/// Every chosen role is one of the five roles of a room, and no participant
/// is chosen twice.
pub open spec fn is_allocation(chosen: Seq<(i64, usize, usize)>) -> bool {
    &&& forall|i: int| 0 <= i < chosen.len() ==> (#[trigger] chosen[i]).2 <= 4
    &&& forall|i: int, j: int|
        0 <= i < j < chosen.len() ==> (#[trigger] chosen[i]).0 != (#[trigger] chosen[j]).0
}

/// Reads the allocation off the solver's choices: each triple is a
/// participant, a room and a role that the solver chose.
pub fn assignments_of_solution(chosen: &Vec<(i64, usize, usize)>) -> (r: Result<
    HashMap<i64, Assignment>,
    InvalidSolution,
>)
    ensures
        r is Ok <==> is_allocation(chosen@),
        r matches Ok(m) ==> {
            &&& forall|p: i64|
                #[trigger] m@.contains_key(p) <==> exists|i: int|
                    0 <= i < chosen@.len() && (#[trigger] chosen@[i]).0 == p
            &&& forall|i: int|
                0 <= i < chosen@.len() ==> m@[(#[trigger] chosen@[i]).0] == assignment_for(
                    chosen@[i].1,
                    chosen@[i].2,
                )
        },
        r matches Err(InvalidSolution::PlacedTwice(p)) ==> exists|i: int, j: int|
            0 <= i < j < chosen@.len() && (#[trigger] chosen@[i]).0 == p && (#[trigger] chosen@[j]).0 == p,
        r matches Err(InvalidSolution::UnknownRole(role)) ==> role > 4 && exists|i: int|
            0 <= i < chosen@.len() && (#[trigger] chosen@[i]).2 == role,
{
    let mut params: HashMap<i64, Assignment> = HashMap::new();
    let mut i: usize = 0;
    while i < chosen.len()
        invariant
            0 <= i <= chosen@.len(),
            is_allocation(chosen@.take(i as int)),
            forall|p: i64|
                #[trigger] params@.contains_key(p) <==> exists|j: int|
                    0 <= j < i && (#[trigger] chosen@[j]).0 == p,
            forall|j: int|
                0 <= j < i ==> params@[(#[trigger] chosen@[j]).0] == assignment_for(
                    chosen@[j].1,
                    chosen@[j].2,
                ),
        decreases chosen@.len() - i,
    {
        let (participant_id, room, role) = chosen[i];
        if params.contains_key(&participant_id) {
            proof {
                let j = choose|j: int| 0 <= j < i && (#[trigger] chosen@[j]).0 == participant_id;
                assert(chosen@[i as int].0 == participant_id);
                assert(!is_allocation(chosen@)) by {
                    assert(chosen@[j].0 == chosen@[i as int].0);
                }
            }
            return Err(InvalidSolution::PlacedTwice(participant_id));
        }
        let assignment = if role == 4 {
            Assignment::Judge(room)
        } else if role < 4 {
            Assignment::Team { room, team: team_of_int(role) }
        } else {
            proof {
                assert(chosen@[i as int].2 == role);
            }
            return Err(InvalidSolution::UnknownRole(role));
        };
        params.insert(participant_id, assignment);
        proof {
            assert forall|a: int, b: int| 0 <= a < b < i + 1 implies (#[trigger] chosen@.take(i + 1)[a]).0
                != (#[trigger] chosen@.take(i + 1)[b]).0 by {
                if b == i {
                    if chosen@[a].0 == participant_id {
                        assert(params@.contains_key(participant_id)) by {
                            assert(0 <= a < i && chosen@[a].0 == participant_id);
                        }
                    }
                } else {
                    assert(chosen@.take(i as int)[a] == chosen@[a]);
                    assert(chosen@.take(i as int)[b] == chosen@[b]);
                }
            }
            assert forall|a: int| 0 <= a < i + 1 implies (#[trigger] chosen@.take(i + 1)[a]).2 <= 4 by {
                if a < i {
                    assert(chosen@.take(i as int)[a] == chosen@[a]);
                }
            }
            assert forall|j: int| 0 <= j < i + 1 implies params@[(#[trigger] chosen@[j]).0]
                == assignment_for(chosen@[j].1, chosen@[j].2) by {
                if j < i {
                    assert(chosen@[j].0 != participant_id);
                }
            }
        }
        i = i + 1;
    }
    assert(chosen@.take(chosen@.len() as int) =~= chosen@);
    Ok(params)
}

/// The team that a solver role number stands for.
pub fn team_of_int(role: usize) -> (t: Team)
    requires
        role < 4,
    ensures
        t == team_of_role(role),
{
    match role {
        0 => Team::Og,
        1 => Team::Oo,
        2 => Team::Cg,
        _ => Team::Co,
    }
}

/// Roles 0 to 3 are OG, OO, CG and CO.
pub open spec fn team_of_role(role: usize) -> Team {
    if role == 0 {
        Team::Og
    } else if role == 1 {
        Team::Oo
    } else if role == 2 {
        Team::Cg
    } else {
        Team::Co
    }
}

} // verus!
