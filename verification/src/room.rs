//! A complete room. Rooms are stored in relational form; this assembles the
//! rows that belong to one room into a single value.

use crate::spar::{SparRoomAdjudicator, SparRoomTeam, SparRoomTeamSpeaker, SparSeriesMember};
use std::collections::HashMap;
use vstd::prelude::*;

verus! {

broadcast use vstd::std_specs::hash::group_hash_axioms;

#[derive(Debug, Clone)]
pub struct SparRoom {
    pub id: i64,
    pub public_id: String,
    pub spar_id: i64,
}

/// A team of a room with the ids of its speakers.
#[derive(Debug, Clone)]
pub struct TeamRepr {
    pub inner: SparRoomTeam,
    pub speakers: Vec<i64>,
}

#[derive(Debug)]
pub struct SparRoomRepr {
    pub inner: SparRoom,
    /// The teams, in the order they speak. For BP teams[0] = og,
    /// teams[1] = oo, teams[2] = cg, teams[3] = co.
    pub teams: Vec<TeamRepr>,
    /// Maps speakers to relevant records.
    pub speakers: HashMap<i64, SparRoomTeamSpeaker>,
    /// All judges assigned to this room.
    pub judges: Vec<SparRoomAdjudicator>,
    /// Maps member IDs to records.
    pub members: HashMap<i64, SparSeriesMember>,
}

/// The ids of those among the first `n` speakers who speak for team
/// `team_id`, in order.
pub open spec fn team_speaker_ids(speakers: Seq<SparRoomTeamSpeaker>, team_id: i64, n: int) -> Seq<
    i64,
>
    decreases n,
{
    if n <= 0 {
        Seq::empty()
    } else if speakers[n - 1].team_id == team_id {
        team_speaker_ids(speakers, team_id, n - 1).push(speakers[n - 1].id)
    } else {
        team_speaker_ids(speakers, team_id, n - 1)
    }
}

/// The ids listed for a team are exactly the ids of the speaker records of
/// that team: each listed id is that of a record of the team, and each
/// record of the team is listed.
pub proof fn lemma_team_lists_its_speaker_records(speakers: Seq<SparRoomTeamSpeaker>, team_id: i64, n: int)
    requires
        0 <= n <= speakers.len(),
    ensures
        forall|x: i64|
            #[trigger] team_speaker_ids(speakers, team_id, n).contains(x) ==> exists|i: int|
                0 <= i < n && speakers[i].id == x && speakers[i].team_id == team_id,
        forall|i: int|
            0 <= i < n && (#[trigger] speakers[i]).team_id == team_id ==> team_speaker_ids(
                speakers,
                team_id,
                n,
            ).contains(speakers[i].id),
    decreases n,
{
    if n > 0 {
        lemma_team_lists_its_speaker_records(speakers, team_id, n - 1);
        let prev = team_speaker_ids(speakers, team_id, n - 1);
        let cur = team_speaker_ids(speakers, team_id, n);
        assert forall|x: i64| #[trigger] cur.contains(x) implies exists|i: int|
            0 <= i < n && speakers[i].id == x && speakers[i].team_id == team_id by {
            if prev.contains(x) {
            } else {
                let j = choose|j: int| 0 <= j < cur.len() && cur[j] == x;
                assert(speakers[n - 1].team_id == team_id);
                assert(j == prev.len());
                assert(speakers[n - 1].id == x);
            }
        }
        assert forall|i: int| 0 <= i < n && (#[trigger] speakers[i]).team_id == team_id implies cur.contains(
            speakers[i].id,
        ) by {
            if i < n - 1 {
                assert(prev.contains(speakers[i].id));
                let j = choose|j: int| 0 <= j < prev.len() && prev[j] == speakers[i].id;
                assert(cur[j] == speakers[i].id);
            } else {
                assert(cur[cur.len() - 1] == speakers[i].id);
            }
        }
    }
}

/// The last speaker record with the given id.
pub open spec fn last_speaker_with_id(speakers: Seq<SparRoomTeamSpeaker>, id: i64) -> int {
    choose|i: int|
        0 <= i < speakers.len() && speakers[i].id == id && forall|j: int|
            i < j < speakers.len() ==> (#[trigger] speakers[j]).id != id
}

/// The last member record with the given id.
pub open spec fn last_member_with_id(members: Seq<SparSeriesMember>, id: i64) -> int {
    choose|i: int|
        0 <= i < members.len() && members[i].id == id && forall|j: int|
            i < j < members.len() ==> (#[trigger] members[j]).id != id
}

fn speakers_of_team(speakers: &Vec<SparRoomTeamSpeaker>, team_id: i64) -> (r: Vec<i64>)
    ensures
        r@ == team_speaker_ids(speakers@, team_id, speakers@.len() as int),
{
    let mut r: Vec<i64> = Vec::new();
    let mut i: usize = 0;
    while i < speakers.len()
        invariant
            0 <= i <= speakers@.len(),
            r@ == team_speaker_ids(speakers@, team_id, i as int),
        decreases speakers@.len() - i,
    {
        if speakers[i].team_id == team_id {
            r.push(speakers[i].id);
        }
        i = i + 1;
    }
    r
}

fn speakers_by_id(speakers: &Vec<SparRoomTeamSpeaker>) -> (m: HashMap<i64, SparRoomTeamSpeaker>)
    ensures
        forall|id: i64|
            #[trigger] m@.contains_key(id) <==> exists|i: int|
                0 <= i < speakers@.len() && (#[trigger] speakers@[i]).id == id,
        forall|id: i64|
            #[trigger] m@.contains_key(id) ==> m@[id] == speakers@[last_speaker_with_id(
                speakers@,
                id,
            )],
{
    let mut m: HashMap<i64, SparRoomTeamSpeaker> = HashMap::new();
    let mut i: usize = 0;
    while i < speakers.len()
        invariant
            0 <= i <= speakers@.len(),
            forall|id: i64|
                #[trigger] m@.contains_key(id) <==> exists|k: int|
                    0 <= k < i && (#[trigger] speakers@[k]).id == id,
            forall|id: i64|
                #[trigger] m@.contains_key(id) ==> exists|k: int|
                    0 <= k < i && speakers@[k].id == id && m@[id] == speakers@[k] && forall|j: int|
                        k < j < i ==> (#[trigger] speakers@[j]).id != id,
        decreases speakers@.len() - i,
    {
        let s = speakers[i].clone();
        let ghost before = m@;
        m.insert(speakers[i].id, s);
        proof {
            assert forall|id: i64| #[trigger] m@.contains_key(id) implies exists|k: int|
                0 <= k < i + 1 && speakers@[k].id == id && m@[id] == speakers@[k] && forall|j: int|
                    k < j < i + 1 ==> (#[trigger] speakers@[j]).id != id by {
                if id != speakers@[i as int].id {
                    assert(before.contains_key(id));
                    let k = choose|k: int|
                        0 <= k < i && speakers@[k].id == id && before[id] == speakers@[k] && forall|j: int|
                            k < j < i ==> (#[trigger] speakers@[j]).id != id;
                    assert(forall|j: int| k < j < i + 1 ==> (#[trigger] speakers@[j]).id != id);
                } else {
                    assert(speakers@[i as int].id == id && m@[id] == speakers@[i as int]);
                }
            }
            assert forall|id: i64| #[trigger] m@.contains_key(id) <==> exists|k: int|
                0 <= k < i + 1 && (#[trigger] speakers@[k]).id == id by {
                if exists|k: int| 0 <= k < i + 1 && (#[trigger] speakers@[k]).id == id {
                    let k = choose|k: int| 0 <= k < i + 1 && (#[trigger] speakers@[k]).id == id;
                    if k < i {
                        assert(before.contains_key(id));
                    }
                }
            }
        }
        i = i + 1;
    }
    proof {
        assert forall|id: i64| #[trigger] m@.contains_key(id) implies m@[id] == speakers@[last_speaker_with_id(speakers@, id)] by {
            let k = choose|k: int|
                0 <= k < speakers@.len() && speakers@[k].id == id && m@[id] == speakers@[k] && forall|j: int|
                    k < j < speakers@.len() ==> (#[trigger] speakers@[j]).id != id;
            let l = last_speaker_with_id(speakers@, id);
            if l < k {
                assert(speakers@[k].id != id);
            }
            if k < l {
                assert(speakers@[l].id != id);
            }
        }
    }
    m
}

fn members_by_id(members: &Vec<SparSeriesMember>) -> (m: HashMap<i64, SparSeriesMember>)
    ensures
        forall|id: i64|
            #[trigger] m@.contains_key(id) <==> exists|i: int|
                0 <= i < members@.len() && (#[trigger] members@[i]).id == id,
        forall|id: i64|
            #[trigger] m@.contains_key(id) ==> m@[id] == members@[last_member_with_id(
                members@,
                id,
            )],
{
    let mut m: HashMap<i64, SparSeriesMember> = HashMap::new();
    let mut i: usize = 0;
    while i < members.len()
        invariant
            0 <= i <= members@.len(),
            forall|id: i64|
                #[trigger] m@.contains_key(id) <==> exists|k: int|
                    0 <= k < i && (#[trigger] members@[k]).id == id,
            forall|id: i64|
                #[trigger] m@.contains_key(id) ==> exists|k: int|
                    0 <= k < i && members@[k].id == id && m@[id] == members@[k] && forall|j: int|
                        k < j < i ==> (#[trigger] members@[j]).id != id,
        decreases members@.len() - i,
    {
        let s = members[i].clone();
        let ghost before = m@;
        m.insert(members[i].id, s);
        proof {
            assert forall|id: i64| #[trigger] m@.contains_key(id) implies exists|k: int|
                0 <= k < i + 1 && members@[k].id == id && m@[id] == members@[k] && forall|j: int|
                    k < j < i + 1 ==> (#[trigger] members@[j]).id != id by {
                if id != members@[i as int].id {
                    assert(before.contains_key(id));
                    let k = choose|k: int|
                        0 <= k < i && members@[k].id == id && before[id] == members@[k] && forall|j: int|
                            k < j < i ==> (#[trigger] members@[j]).id != id;
                    assert(forall|j: int| k < j < i + 1 ==> (#[trigger] members@[j]).id != id);
                } else {
                    assert(members@[i as int].id == id && m@[id] == members@[i as int]);
                }
            }
            assert forall|id: i64| #[trigger] m@.contains_key(id) <==> exists|k: int|
                0 <= k < i + 1 && (#[trigger] members@[k]).id == id by {
                if exists|k: int| 0 <= k < i + 1 && (#[trigger] members@[k]).id == id {
                    let k = choose|k: int| 0 <= k < i + 1 && (#[trigger] members@[k]).id == id;
                    if k < i {
                        assert(before.contains_key(id));
                    }
                }
            }
        }
        i = i + 1;
    }
    proof {
        assert forall|id: i64| #[trigger] m@.contains_key(id) implies m@[id] == members@[last_member_with_id(members@, id)] by {
            let k = choose|k: int|
                0 <= k < members@.len() && members@[k].id == id && m@[id] == members@[k] && forall|j: int|
                    k < j < members@.len() ==> (#[trigger] members@[j]).id != id;
            let l = last_member_with_id(members@, id);
            if l < k {
                assert(members@[k].id != id);
            }
            if k < l {
                assert(members@[l].id != id);
            }
        }
    }
    m
}

impl SparRoomRepr {
    /// Puts together the rows of one room: its teams in speaking order, the
    /// speakers of the room in id order, its judges, and the series members
    /// who speak or judge in it. Each team lists the ids of its speakers in
    /// the order given; the maps hold, for each id, the last record with
    /// that id.
    pub fn assemble(
        room: SparRoom,
        teams: Vec<SparRoomTeam>,
        speakers: Vec<SparRoomTeamSpeaker>,
        judges: Vec<SparRoomAdjudicator>,
        members: Vec<SparSeriesMember>,
    ) -> (r: SparRoomRepr)
        requires
            teams@.len() == 4,
        ensures
            r.inner == room,
            r.judges == judges,
            r.teams@.len() == 4,
            forall|k: int|
                0 <= k < 4 ==> (#[trigger] r.teams@[k]).inner == teams@[k] && r.teams@[k].speakers@
                    == team_speaker_ids(speakers@, teams@[k].id, speakers@.len() as int),
            forall|id: i64|
                #[trigger] r.speakers@.contains_key(id) <==> exists|i: int|
                    0 <= i < speakers@.len() && (#[trigger] speakers@[i]).id == id,
            forall|id: i64|
                #[trigger] r.speakers@.contains_key(id) ==> r.speakers@[id]
                    == speakers@[last_speaker_with_id(speakers@, id)],
            forall|id: i64|
                #[trigger] r.members@.contains_key(id) <==> exists|i: int|
                    0 <= i < members@.len() && (#[trigger] members@[i]).id == id,
            forall|id: i64|
                #[trigger] r.members@.contains_key(id) ==> r.members@[id]
                    == members@[last_member_with_id(members@, id)],
            forall|k: int, x: i64|
                0 <= k < 4 && #[trigger] r.teams@[k].speakers@.contains(x) ==> r.speakers@.contains_key(x)
                    && exists|i: int|
                    0 <= i < speakers@.len() && speakers@[i].id == x && speakers@[i].team_id
                        == teams@[k].id,
            forall|k: int, i: int|
                0 <= k < 4 && 0 <= i < speakers@.len() && (#[trigger] speakers@[i]).team_id
                    == (#[trigger] teams@[k]).id ==> r.teams@[k].speakers@.contains(speakers@[i].id),
    {
        let mut team_repr: Vec<TeamRepr> = Vec::new();
        let mut k: usize = 0;
        while k < teams.len()
            invariant
                teams@.len() == 4,
                0 <= k <= 4,
                team_repr@.len() == k,
                forall|j: int|
                    0 <= j < k ==> (#[trigger] team_repr@[j]).inner == teams@[j]
                        && team_repr@[j].speakers@ == team_speaker_ids(
                        speakers@,
                        teams@[j].id,
                        speakers@.len() as int,
                    ),
            decreases 4 - k,
        {
            let team = teams[k].clone();
            let ids = speakers_of_team(&speakers, team.id);
            team_repr.push(TeamRepr { inner: team, speakers: ids });
            k = k + 1;
        }
        let speaker_map = speakers_by_id(&speakers);
        let member_map = members_by_id(&members);
        proof {
            assert forall|k: int| #![trigger teams@[k]] 0 <= k < 4 implies {
                &&& forall|x: i64|
                    #[trigger] team_repr@[k].speakers@.contains(x) ==> exists|i: int|
                        0 <= i < speakers@.len() && speakers@[i].id == x && speakers@[i].team_id
                            == teams@[k].id
                &&& forall|i: int|
                    0 <= i < speakers@.len() && (#[trigger] speakers@[i]).team_id == teams@[k].id
                        ==> team_repr@[k].speakers@.contains(speakers@[i].id)
            } by {
                lemma_team_lists_its_speaker_records(speakers@, teams@[k].id, speakers@.len() as int);
            }
            assert forall|k: int, x: i64|
                0 <= k < 4 && #[trigger] team_repr@[k].speakers@.contains(x) implies speaker_map@.contains_key(x) by {
                let i = choose|i: int|
                    0 <= i < speakers@.len() && speakers@[i].id == x && speakers@[i].team_id == teams@[k].id;
                assert(speakers@[i].id == x);
            }
        }
        SparRoomRepr {
            inner: room,
            teams: team_repr,
            speakers: speaker_map,
            judges,
            members: member_map,
        }
    }
}

} // verus!
