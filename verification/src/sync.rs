//! Reloading the model from the records that the service's database holds:
//! every record is renumbered by its index, and every reference between
//! records is renumbered to match.

use crate::ballot::AdjudicatorBallot;
use crate::group::{Group, GroupMember};
use crate::model::{GroupMembershipData, GroupMembershipEntry, Model, State};
use crate::room::SparRoom;
use crate::spar::{
    open_spar_unreleased, Spar, SparRoomAdjudicator, SparRoomTeam, SparRoomTeamSpeaker,
    SparSeries, SparSeriesMember, SparSignup,
};
use crate::user::User;
use std::collections::HashMap;
use vstd::prelude::*;

verus! {

broadcast use vstd::std_specs::hash::group_hash_axioms;

/// A record that the database identifies by an id.
pub trait Record: Sized {
    spec fn spec_record_id(&self) -> i64;

    fn record_id(&self) -> (r: i64)
        ensures
            r == self.spec_record_id(),
    ;
}

impl Record for User {
    open spec fn spec_record_id(&self) -> i64 {
        self.id
    }

    fn record_id(&self) -> (r: i64) {
        self.id
    }
}

impl Record for Group {
    open spec fn spec_record_id(&self) -> i64 {
        self.id
    }

    fn record_id(&self) -> (r: i64) {
        self.id
    }
}

impl Record for SparSeries {
    open spec fn spec_record_id(&self) -> i64 {
        self.id
    }

    fn record_id(&self) -> (r: i64) {
        self.id
    }
}

impl Record for SparSeriesMember {
    open spec fn spec_record_id(&self) -> i64 {
        self.id
    }

    fn record_id(&self) -> (r: i64) {
        self.id
    }
}

impl Record for Spar {
    open spec fn spec_record_id(&self) -> i64 {
        self.id
    }

    fn record_id(&self) -> (r: i64) {
        self.id
    }
}

impl Record for SparRoom {
    open spec fn spec_record_id(&self) -> i64 {
        self.id
    }

    fn record_id(&self) -> (r: i64) {
        self.id
    }
}

impl Record for SparRoomTeam {
    open spec fn spec_record_id(&self) -> i64 {
        self.id
    }

    fn record_id(&self) -> (r: i64) {
        self.id
    }
}

impl Record for SparRoomAdjudicator {
    open spec fn spec_record_id(&self) -> i64 {
        self.id
    }

    fn record_id(&self) -> (r: i64) {
        self.id
    }
}

/// The ids of the records, in order.
pub open spec fn ids_of<T: Record>(rows: Seq<T>) -> Seq<i64> {
    rows.map_values(|r: T| r.spec_record_id())
}

/// The last index of `ids` that holds `id`, or -1 if none does.
pub open spec fn last_index_of(ids: Seq<i64>, id: i64) -> int
    decreases ids.len(),
{
    if ids.len() == 0 {
        -1
    } else if ids.last() == id {
        ids.len() - 1
    } else {
        last_index_of(ids.drop_last(), id)
    }
}

/// Some record has the id.
pub open spec fn has_id(ids: Seq<i64>, id: i64) -> bool {
    last_index_of(ids, id) >= 0
}

proof fn lemma_last_index_of(ids: Seq<i64>, id: i64)
    ensures
        -1 <= last_index_of(ids, id) < ids.len(),
        has_id(ids, id) ==> ids[last_index_of(ids, id)] == id,
        has_id(ids, id) <==> ids.contains(id),
    decreases ids.len(),
{
    if ids.len() > 0 {
        lemma_last_index_of(ids.drop_last(), id);
        if ids.last() != id && ids.contains(id) {
            let k = choose|k: int| 0 <= k < ids.len() && ids[k] == id;
            assert(ids.drop_last()[k] == id);
        }
    }
}

/// `m` maps every id of `ids` to its last index, and nothing else.
pub open spec fn indexes(m: Map<i64, usize>, ids: Seq<i64>) -> bool {
    forall|id: i64|
        #[trigger] m.contains_key(id) == has_id(ids, id) && (m.contains_key(id) ==> m[id]
            == last_index_of(ids, id))
}

/// A map from each id of the records to its last index.
fn index_map<T: Record>(rows: &Vec<T>) -> (m: HashMap<i64, usize>)
    ensures
        indexes(m@, ids_of(rows@)),
{
    let mut m: HashMap<i64, usize> = HashMap::new();
    let mut i: usize = 0;
    while i < rows.len()
        invariant
            0 <= i <= rows.len(),
            indexes(m@, ids_of(rows@).take(i as int)),
        decreases rows.len() - i,
    {
        let id = rows[i].record_id();
        proof {
            let pre = ids_of(rows@).take(i as int);
            let next = ids_of(rows@).take(i + 1);
            assert(next.drop_last() =~= pre);
            assert(next.last() == id);
        }
        m.insert(id, i);
        i = i + 1;
    }
    proof {
        assert(ids_of(rows@).take(rows.len() as int) =~= ids_of(rows@));
    }
    m
}

/// The index of the record with the given id.
fn index_of_id(m: &HashMap<i64, usize>, id: i64, Ghost(ids): Ghost<Seq<i64>>) -> (r: usize)
    requires
        indexes(m@, ids),
        has_id(ids, id),
    ensures
        r == last_index_of(ids, id),
{
    match m.get(&id) {
        Some(i) => *i,
        None => {
            assert(m@.contains_key(id));
            0
        },
    }
}

/// The last user of `users` with the given public id, or -1.
pub open spec fn last_with_public_id(users: Seq<User>, public_id: Seq<char>) -> int
    decreases users.len(),
{
    if users.len() == 0 {
        -1
    } else if users.last().public_id@ == public_id {
        users.len() - 1
    } else {
        last_with_public_id(users.drop_last(), public_id)
    }
}

proof fn lemma_last_with_public_id(users: Seq<User>, public_id: Seq<char>, k: int)
    requires
        0 <= k < users.len(),
        users[k].public_id@ == public_id,
    ensures
        0 <= last_with_public_id(users, public_id) < users.len(),
        users[last_with_public_id(users, public_id)].public_id@ == public_id,
    decreases users.len(),
{
    if users.last().public_id@ != public_id {
        assert(k < users.len() - 1);
        assert(users.drop_last()[k] == users[k]);
        lemma_last_with_public_id(users.drop_last(), public_id, k);
        let j = last_with_public_id(users.drop_last(), public_id);
        assert(users.drop_last()[j] == users[j]);
    }
}

proof fn lemma_first_with_public_id(users: Seq<User>, public_id: Seq<char>, k: int)
    requires
        0 <= k < users.len(),
        users[k].public_id@ == public_id,
    ensures
        exists|f: int| is_first_with_public_id(users, public_id, f),
    decreases k,
{
    if exists|j: int| 0 <= j < k && (#[trigger] users[j]).public_id@ == public_id {
        let j = choose|j: int| 0 <= j < k && (#[trigger] users[j]).public_id@ == public_id;
        lemma_first_with_public_id(users, public_id, j);
    } else {
        assert(is_first_with_public_id(users, public_id, k));
    }
}

/// Reloading is idempotent: the reloaded model can be reloaded from the
/// same records, and doing so changes nothing (the passwords and the
/// logged-in user that a reload carries over are found again).
pub proof fn lemma_reload_idempotent(m: Model, stored: StoredRecords)
    requires
        stored.loadable_into(m),
    ensures
        stored.loadable_into(stored.reloaded(m)),
        stored.reloaded(stored.reloaded(m)) == stored.reloaded(m),
{
    let r1 = stored.reloaded(m);
    let su = stored.users@;
    assert forall|i: int| 0 <= i < su.len() implies last_with_public_id(
        r1.users,
        (#[trigger] su[i]).public_id@,
    ) >= 0 by {
        assert(r1.users[i].public_id@ == su[i].public_id@);
        lemma_last_with_public_id(r1.users, su[i].public_id@, i);
    }
    if let Some(a) = m.active_user {
        let k = choose|k: int| 0 <= k < su.len() && (#[trigger] su[k]).public_id@ == a.public_id@;
        assert(r1.users[k].public_id@ == a.public_id@);
        lemma_first_with_public_id(r1.users, a.public_id@, k);
        let k1 = choose|f: int| is_first_with_public_id(r1.users, a.public_id@, f);
        assert(r1.active_user == Some(r1.users[k1]));
        assert(r1.users[k1].public_id@ == a.public_id@);
    }
    assert(stored.loadable_into(r1));
    let r2 = stored.reloaded(r1);
    assert forall|i: int| 0 <= i < su.len() implies #[trigger] r2.users[i] == r1.users[i] by {
        let p = su[i].public_id@;
        assert(r1.users[i].public_id@ == p);
        lemma_last_with_public_id(r1.users, p, i);
        let j = last_with_public_id(r1.users, p);
        assert(su[j].public_id@ == r1.users[j].public_id@);
    }
    assert(r2.users =~= r1.users);
}

/// User `k` is the first of `users` with the given public id.
pub open spec fn is_first_with_public_id(users: Seq<User>, public_id: Seq<char>, k: int) -> bool {
    &&& 0 <= k < users.len()
    &&& users[k].public_id@ == public_id
    &&& forall|j: int| 0 <= j < k ==> (#[trigger] users[j]).public_id@ != public_id
}

/// The records of the service's database, with the database's ids.
pub struct StoredRecords {
    pub users: Vec<User>,
    pub groups: Vec<Group>,
    pub group_members: Vec<GroupMember>,
    pub spar_series: Vec<SparSeries>,
    pub spar_series_members: Vec<SparSeriesMember>,
    pub spars: Vec<Spar>,
    pub spar_signups: Vec<SparSignup>,
    pub rooms: Vec<SparRoom>,
    pub teams: Vec<SparRoomTeam>,
    pub adjs: Vec<SparRoomAdjudicator>,
    pub speakers: Vec<SparRoomTeamSpeaker>,
    pub ballots: Vec<AdjudicatorBallot>,
}

/// The entry for a user's rights in a group, keyed by their new indices.
pub open spec fn entry_of(row: GroupMember, user_ids: Seq<i64>, group_ids: Seq<i64>) -> GroupMembershipEntry {
    GroupMembershipEntry {
        user: last_index_of(user_ids, row.user_id) as usize,
        group: last_index_of(group_ids, row.group_id) as i64,
        data: GroupMembershipData { is_admin: row.is_admin, is_superuser: row.has_signing_power_bool },
    }
}

/// The entries with `e` stored under its key: an entry with the same
/// user and group is replaced, else `e` is added.
pub open spec fn with_entry(entries: Seq<GroupMembershipEntry>, e: GroupMembershipEntry) -> Seq<
    GroupMembershipEntry,
> {
    if exists|k: int|
        0 <= k < entries.len() && (#[trigger] entries[k]).user == e.user && entries[k].group == e.group {
        let k = choose|k: int|
            0 <= k < entries.len() && (#[trigger] entries[k]).user == e.user && entries[k].group
                == e.group;
        entries.update(k, e)
    } else {
        entries.push(e)
    }
}

/// The entries for the stored rights, each stored in turn under its key.
pub open spec fn entries_of(rows: Seq<GroupMember>, user_ids: Seq<i64>, group_ids: Seq<i64>) -> Seq<
    GroupMembershipEntry,
>
    decreases rows.len(),
{
    if rows.len() == 0 {
        Seq::empty()
    } else {
        with_entry(
            entries_of(rows.drop_last(), user_ids, group_ids),
            entry_of(rows.last(), user_ids, group_ids),
        )
    }
}

/// No two entries have the same user and group.
pub open spec fn keys_unique(entries: Seq<GroupMembershipEntry>) -> bool {
    forall|i: int, j: int|
        0 <= i < j < entries.len() ==> (#[trigger] entries[i]).user != (#[trigger] entries[j]).user
            || entries[i].group != entries[j].group
}

impl StoredRecords {
    /// The stored records can be loaded into the model: every stored user
    /// is known to the model (which holds the user's password), the
    /// logged-in user is among the stored users, every reference between
    /// stored records points at a stored record, and no list is too long.
    pub open spec fn loadable_into(self, m: Model) -> bool {
        let user_ids = ids_of(self.users@);
        let group_ids = ids_of(self.groups@);
        let series_ids = ids_of(self.spar_series@);
        let member_ids = ids_of(self.spar_series_members@);
        let spar_ids = ids_of(self.spars@);
        let room_ids = ids_of(self.rooms@);
        let team_ids = ids_of(self.teams@);
        let adj_ids = ids_of(self.adjs@);
        &&& forall|i: int|
            0 <= i < self.users@.len() ==> last_with_public_id(m.users, (#[trigger] self.users@[i]).public_id@)
                >= 0
        &&& m.active_user matches Some(a) ==> exists|k: int|
            0 <= k < self.users@.len() && (#[trigger] self.users@[k]).public_id@ == a.public_id@
        &&& forall|i: int|
            0 <= i < self.group_members@.len() ==> has_id(user_ids, (#[trigger] self.group_members@[i]).user_id)
                && has_id(group_ids, self.group_members@[i].group_id)
        &&& forall|i: int|
            0 <= i < self.spar_series@.len() ==> has_id(group_ids, (#[trigger] self.spar_series@[i]).group_id)
        &&& forall|i: int|
            0 <= i < self.spar_series_members@.len() ==> has_id(
                series_ids,
                (#[trigger] self.spar_series_members@[i]).spar_series_id,
            )
        &&& forall|i: int|
            0 <= i < self.spars@.len() ==> has_id(series_ids, (#[trigger] self.spars@[i]).spar_series_id)
        &&& forall|i: int|
            0 <= i < self.spar_signups@.len() ==> has_id(member_ids, (#[trigger] self.spar_signups@[i]).member_id)
                && has_id(spar_ids, self.spar_signups@[i].spar_id)
        &&& forall|i: int| 0 <= i < self.rooms@.len() ==> has_id(spar_ids, (#[trigger] self.rooms@[i]).spar_id)
        &&& forall|i: int| 0 <= i < self.teams@.len() ==> has_id(room_ids, (#[trigger] self.teams@[i]).room_id)
        &&& forall|i: int|
            0 <= i < self.adjs@.len() ==> has_id(user_ids, (#[trigger] self.adjs@[i]).member_id)
                && has_id(room_ids, self.adjs@[i].room_id)
        &&& forall|i: int|
            0 <= i < self.speakers@.len() ==> has_id(user_ids, (#[trigger] self.speakers@[i]).member_id)
                && has_id(team_ids, self.speakers@[i].team_id)
        &&& forall|i: int|
            0 <= i < self.ballots@.len() ==> has_id(adj_ids, (#[trigger] self.ballots@[i]).adjudicator_id)
                && has_id(room_ids, self.ballots@[i].room_id)
        &&& self.users@.len() < 0x4000_0000_0000_0000
        &&& self.groups@.len() < 0x4000_0000_0000_0000
        &&& self.spar_series@.len() < 0x4000_0000_0000_0000
        &&& self.spar_series_members@.len() < 0x4000_0000_0000_0000
        &&& self.spars@.len() < 0x4000_0000_0000_0000
        &&& self.spar_signups@.len() < 0x4000_0000_0000_0000
        &&& self.rooms@.len() < 0x4000_0000_0000_0000
        &&& self.teams@.len() < 0x4000_0000_0000_0000
        &&& self.adjs@.len() < 0x4000_0000_0000_0000
        &&& self.speakers@.len() < 0x4000_0000_0000_0000
        &&& self.ballots@.len() < 0x4000_0000_0000_0000
    }

    /// The stored users, renumbered, each with the password that the model
    /// holds for the user's public id.
    pub open spec fn reloaded_users(self, m: Model) -> Seq<User> {
        Seq::new(
            self.users@.len(),
            |i: int|
                User {
                    id: i as i64,
                    password_hash: m.users[last_with_public_id(m.users, self.users@[i].public_id@)].password_hash,
                    ..self.users@[i]
                },
        )
    }

    /// The model reloaded from the stored records.
    pub open spec fn reloaded(self, m: Model) -> Model {
        let users = self.reloaded_users(m);
        let user_ids = ids_of(self.users@);
        let group_ids = ids_of(self.groups@);
        let series_ids = ids_of(self.spar_series@);
        let member_ids = ids_of(self.spar_series_members@);
        let spar_ids = ids_of(self.spars@);
        let room_ids = ids_of(self.rooms@);
        let team_ids = ids_of(self.teams@);
        let adj_ids = ids_of(self.adjs@);
        Model {
            users: users,
            groups: Seq::new(self.groups@.len(), |i: int| Group { id: i as i64, ..self.groups@[i] }),
            group_members: entries_of(self.group_members@, user_ids, group_ids),
            spar_series: Seq::new(
                self.spar_series@.len(),
                |i: int|
                    SparSeries {
                        id: i as i64,
                        group_id: last_index_of(group_ids, self.spar_series@[i].group_id) as i64,
                        ..self.spar_series@[i]
                    },
            ),
            spar_series_members: Seq::new(
                self.spar_series_members@.len(),
                |i: int|
                    SparSeriesMember {
                        id: i as i64,
                        spar_series_id: last_index_of(
                            series_ids,
                            self.spar_series_members@[i].spar_series_id,
                        ) as i64,
                        ..self.spar_series_members@[i]
                    },
            ),
            spars: Seq::new(
                self.spars@.len(),
                |i: int|
                    Spar {
                        id: i as i64,
                        spar_series_id: last_index_of(series_ids, self.spars@[i].spar_series_id) as i64,
                        ..self.spars@[i]
                    },
            ),
            spar_signups: Seq::new(
                self.spar_signups@.len(),
                |i: int|
                    SparSignup {
                        id: i as i64,
                        member_id: last_index_of(member_ids, self.spar_signups@[i].member_id) as i64,
                        spar_id: last_index_of(spar_ids, self.spar_signups@[i].spar_id) as i64,
                        ..self.spar_signups@[i]
                    },
            ),
            active_user: match m.active_user {
                None => None,
                Some(a) => Some(
                    users[choose|k: int| is_first_with_public_id(users, a.public_id@, k)],
                ),
            },
            rooms: Seq::new(
                self.rooms@.len(),
                |i: int|
                    SparRoom {
                        id: i as i64,
                        spar_id: last_index_of(spar_ids, self.rooms@[i].spar_id) as i64,
                        ..self.rooms@[i]
                    },
            ),
            teams: Seq::new(
                self.teams@.len(),
                |i: int|
                    SparRoomTeam {
                        id: i as i64,
                        room_id: last_index_of(room_ids, self.teams@[i].room_id) as i64,
                        ..self.teams@[i]
                    },
            ),
            adjs: Seq::new(
                self.adjs@.len(),
                |i: int|
                    SparRoomAdjudicator {
                        id: i as i64,
                        member_id: last_index_of(user_ids, self.adjs@[i].member_id) as i64,
                        room_id: last_index_of(room_ids, self.adjs@[i].room_id) as i64,
                        ..self.adjs@[i]
                    },
            ),
            speakers: Seq::new(
                self.speakers@.len(),
                |i: int|
                    SparRoomTeamSpeaker {
                        id: i as i64,
                        member_id: last_index_of(user_ids, self.speakers@[i].member_id) as i64,
                        team_id: last_index_of(team_ids, self.speakers@[i].team_id) as i64,
                        ..self.speakers@[i]
                    },
            ),
            ballots: Seq::new(
                self.ballots@.len(),
                |i: int|
                    AdjudicatorBallot {
                        id: i as i64,
                        adjudicator_id: last_index_of(adj_ids, self.ballots@[i].adjudicator_id) as i64,
                        room_id: last_index_of(room_ids, self.ballots@[i].room_id) as i64,
                        ..self.ballots@[i]
                    },
            ),
            ballot_links: Seq::empty(),
            ballot_entries: Seq::empty(),
        }
    }
}


/// The password that the last of `known` with the public id has.
fn password_of(known: &Vec<User>, public_id: &String) -> (r: String)
    requires
        last_with_public_id(known@, public_id@) >= 0,
    ensures
        r == known@[last_with_public_id(known@, public_id@)].password_hash,
{
    let mut k: usize = known.len();
    proof {
        assert(known@.take(k as int) =~= known@);
    }
    while k > 0
        invariant
            0 <= k <= known.len(),
            last_with_public_id(known@.take(k as int), public_id@) == last_with_public_id(
                known@,
                public_id@,
            ),
        decreases k,
    {
        proof {
            assert(known@.take(k as int).drop_last() =~= known@.take(k - 1));
            assert(known@.take(k as int).last() == known@[k - 1]);
        }
        if known[k - 1].public_id == *public_id {
            return known[k - 1].password_hash.clone();
        }
        k = k - 1;
    }
    proof {
        assert(known@.take(0) =~= Seq::<User>::empty());
    }
    known[0].password_hash.clone()
}

/// The stored users, renumbered, with the passwords that `known` holds.
fn reload_users(users: Vec<User>, known: &Vec<User>) -> (r: Vec<User>)
    requires
        forall|i: int|
            0 <= i < users@.len() ==> last_with_public_id(known@, (#[trigger] users@[i]).public_id@)
                >= 0,
        users@.len() < 0x4000_0000_0000_0000,
    ensures
        r@ == Seq::new(
            users@.len(),
            |i: int|
                User {
                    id: i as i64,
                    password_hash: known@[last_with_public_id(known@, users@[i].public_id@)].password_hash,
                    ..users@[i]
                },
        ),
{
    let ghost orig = users@;
    let mut users = users;
    let mut i: usize = 0;
    while i < users.len()
        invariant
            users@.len() == orig.len(),
            orig.len() < 0x4000_0000_0000_0000,
            0 <= i <= orig.len(),
            forall|j: int|
                0 <= j < orig.len() ==> last_with_public_id(known@, (#[trigger] orig[j]).public_id@) >= 0,
            forall|j: int|
                0 <= j < i ==> #[trigger] users@[j] == (User {
                    id: j as i64,
                    password_hash: known@[last_with_public_id(known@, orig[j].public_id@)].password_hash,
                    ..orig[j]
                }),
            forall|j: int| i <= j < orig.len() ==> #[trigger] users@[j] == orig[j],
        decreases orig.len() - i,
    {
        let password = password_of(known, &users[i].public_id);
        let u = &mut users[i];
        u.id = i as i64;
        u.password_hash = password;
        i = i + 1;
    }
    assert(users@ =~= Seq::new(
        orig.len(),
        |j: int|
            User {
                id: j as i64,
                password_hash: known@[last_with_public_id(known@, orig[j].public_id@)].password_hash,
                ..orig[j]
            },
    ));
    users
}

/// The stored groups, renumbered.
fn reload_groups(groups: Vec<Group>) -> (r: Vec<Group>)
    requires
        groups@.len() < 0x4000_0000_0000_0000,
    ensures
        r@ == Seq::new(groups@.len(), |i: int| Group { id: i as i64, ..groups@[i] }),
{
    let ghost orig = groups@;
    let mut groups = groups;
    let mut i: usize = 0;
    while i < groups.len()
        invariant
            groups@.len() == orig.len(),
            orig.len() < 0x4000_0000_0000_0000,
            0 <= i <= orig.len(),
            forall|j: int| 0 <= j < i ==> #[trigger] groups@[j] == (Group { id: j as i64, ..orig[j] }),
            forall|j: int| i <= j < orig.len() ==> #[trigger] groups@[j] == orig[j],
        decreases orig.len() - i,
    {
        groups[i].id = i as i64;
        i = i + 1;
    }
    assert(groups@ =~= Seq::new(orig.len(), |j: int| Group { id: j as i64, ..orig[j] }));
    groups
}

/// Stores `e` under its key: an entry with the same user and group is
/// replaced, else `e` is added.
#[verifier::loop_isolation(false)]
fn store_entry(entries: &mut Vec<GroupMembershipEntry>, e: GroupMembershipEntry)
    requires
        keys_unique(old(entries)@),
    ensures
        final(entries)@ == with_entry(old(entries)@, e),
        keys_unique(final(entries)@),
{
    let ghost orig = entries@;
    let mut k: usize = 0;
    while k < entries.len()
        invariant
            entries@ == orig,
            keys_unique(orig),
            0 <= k <= orig.len(),
            forall|j: int| 0 <= j < k ==> !((#[trigger] orig[j]).user == e.user && orig[j].group == e.group),
        decreases orig.len() - k,
    {
        if entries[k].user == e.user && entries[k].group == e.group {
            proof {
                assert(orig[k as int].user == e.user && orig[k as int].group == e.group);
                let c = choose|c: int|
                    0 <= c < orig.len() && (#[trigger] orig[c]).user == e.user && orig[c].group == e.group;
                if c < k {
                    assert(orig[c].user != orig[k as int].user || orig[c].group != orig[k as int].group);
                }
                if c > k {
                    assert(orig[k as int].user != orig[c].user || orig[k as int].group != orig[c].group);
                }
                assert(c == k);
            }
            entries.set(k, e);
            assert forall|i: int, j: int|
                0 <= i < j < entries@.len() implies (#[trigger] entries@[i]).user != (
                #[trigger] entries@[j]).user || entries@[i].group != entries@[j].group by {
                if i != k && j != k {
                    assert(entries@[i] == orig[i] && entries@[j] == orig[j]);
                } else if i == k {
                    assert(entries@[j] == orig[j]);
                } else {
                    assert(entries@[i] == orig[i]);
                }
            }
            return;
        }
        k = k + 1;
    }
    entries.push(e);
    assert forall|i: int, j: int|
        0 <= i < j < entries@.len() implies (#[trigger] entries@[i]).user != (
        #[trigger] entries@[j]).user || entries@[i].group != entries@[j].group by {
        if j < orig.len() {
            assert(entries@[i] == orig[i] && entries@[j] == orig[j]);
        } else {
            assert(entries@[i] == orig[i]);
        }
    }
}

/// The entries for the stored rights, keyed by the new indices of the
/// user and the group.
fn reload_group_members(
    rows: &Vec<GroupMember>,
    user_map: &HashMap<i64, usize>,
    group_map: &HashMap<i64, usize>,
    Ghost(user_ids): Ghost<Seq<i64>>,
    Ghost(group_ids): Ghost<Seq<i64>>,
) -> (r: Vec<GroupMembershipEntry>)
    requires
        indexes(user_map@, user_ids),
        indexes(group_map@, group_ids),
        forall|i: int|
            0 <= i < rows@.len() ==> has_id(user_ids, (#[trigger] rows@[i]).user_id) && has_id(
                group_ids,
                rows@[i].group_id,
            ),
        group_ids.len() < 0x4000_0000_0000_0000,
    ensures
        r@ == entries_of(rows@, user_ids, group_ids),
        keys_unique(r@),
        forall|i: int| 0 <= i < r@.len() ==> 0 <= #[trigger] r@[i].group < group_ids.len(),
{
    let mut entries: Vec<GroupMembershipEntry> = Vec::new();
    let mut i: usize = 0;
    while i < rows.len()
        invariant
            indexes(user_map@, user_ids),
            indexes(group_map@, group_ids),
            forall|j: int|
                0 <= j < rows@.len() ==> has_id(user_ids, (#[trigger] rows@[j]).user_id) && has_id(
                    group_ids,
                    rows@[j].group_id,
                ),
            group_ids.len() < 0x4000_0000_0000_0000,
            0 <= i <= rows.len(),
            entries@ == entries_of(rows@.take(i as int), user_ids, group_ids),
            keys_unique(entries@),
            forall|j: int| 0 <= j < entries@.len() ==> 0 <= #[trigger] entries@[j].group < group_ids.len(),
        decreases rows.len() - i,
    {
        let row = &rows[i];
        let user = index_of_id(user_map, row.user_id, Ghost(user_ids));
        let group = index_of_id(group_map, row.group_id, Ghost(group_ids));
        proof {
            lemma_last_index_of(group_ids, row.group_id);
        }
        let e = GroupMembershipEntry {
            user,
            group: group as i64,
            data: GroupMembershipData { is_admin: row.is_admin, is_superuser: row.has_signing_power_bool },
        };
        let ghost before = entries@;
        store_entry(&mut entries, e);
        proof {
            assert(rows@.take(i + 1).drop_last() =~= rows@.take(i as int));
            assert(rows@.take(i + 1).last() == *row);
            assert(e == entry_of(*row, user_ids, group_ids));
            assert forall|j: int| 0 <= j < entries@.len() implies 0 <= #[trigger] entries@[j].group
                < group_ids.len() by {
                if exists|k: int|
                    0 <= k < before.len() && (#[trigger] before[k]).user == e.user && before[k].group == e.group {
                    let k = choose|k: int|
                        0 <= k < before.len() && (#[trigger] before[k]).user == e.user && before[k].group
                            == e.group;
                    if j != k {
                        assert(entries@[j] == before[j]);
                    }
                } else if j < before.len() {
                    assert(entries@[j] == before[j]);
                }
            }
        }
        i = i + 1;
    }
    proof {
        assert(rows@.take(rows.len() as int) =~= rows@);
    }
    entries
}


/// The stored spar series, renumbered, each pointing at its group's new index.
fn reload_spar_series(
    rows: Vec<SparSeries>,
    group_map: &HashMap<i64, usize>,
    Ghost(group_ids): Ghost<Seq<i64>>,
) -> (r: Vec<SparSeries>)
    requires
        indexes(group_map@, group_ids),
        forall|i: int| 0 <= i < rows@.len() ==> has_id(group_ids, (#[trigger] rows@[i]).group_id),
        rows@.len() < 0x4000_0000_0000_0000,
        group_ids.len() < 0x4000_0000_0000_0000,
    ensures
        r@ == Seq::new(rows@.len(), |i: int| SparSeries { id: i as i64, group_id: last_index_of(group_ids, rows@[i].group_id) as i64, ..rows@[i] }),
{
    let ghost orig = rows@;
    let mut rows = rows;
    let mut i: usize = 0;
    while i < rows.len()
        invariant
            indexes(group_map@, group_ids),
            rows@.len() == orig.len(),
            orig.len() < 0x4000_0000_0000_0000,
            group_ids.len() < 0x4000_0000_0000_0000,
            0 <= i <= orig.len(),
            forall|j: int| 0 <= j < orig.len() ==> has_id(group_ids, (#[trigger] orig[j]).group_id),
            forall|j: int| 0 <= j < i ==> #[trigger] rows@[j] == (SparSeries { id: j as i64, group_id: last_index_of(group_ids, orig[j].group_id) as i64, ..orig[j] }),
            forall|j: int| i <= j < orig.len() ==> #[trigger] rows@[j] == orig[j],
        decreases orig.len() - i,
    {
        let group_id = index_of_id(group_map, rows[i].group_id, Ghost(group_ids));
        proof {
            lemma_last_index_of(group_ids, rows@[i as int].group_id);
        }
        let r = &mut rows[i];
        r.id = i as i64;
        r.group_id = group_id as i64;
        i = i + 1;
    }
    assert(rows@ =~= Seq::new(orig.len(), |j: int| SparSeries { id: j as i64, group_id: last_index_of(group_ids, orig[j].group_id) as i64, ..orig[j] }));
    rows
}

/// The stored series members, renumbered, each pointing at its series' new index.
fn reload_spar_series_members(
    rows: Vec<SparSeriesMember>,
    series_map: &HashMap<i64, usize>,
    Ghost(series_ids): Ghost<Seq<i64>>,
) -> (r: Vec<SparSeriesMember>)
    requires
        indexes(series_map@, series_ids),
        forall|i: int| 0 <= i < rows@.len() ==> has_id(series_ids, (#[trigger] rows@[i]).spar_series_id),
        rows@.len() < 0x4000_0000_0000_0000,
        series_ids.len() < 0x4000_0000_0000_0000,
    ensures
        r@ == Seq::new(rows@.len(), |i: int| SparSeriesMember { id: i as i64, spar_series_id: last_index_of(series_ids, rows@[i].spar_series_id) as i64, ..rows@[i] }),
{
    let ghost orig = rows@;
    let mut rows = rows;
    let mut i: usize = 0;
    while i < rows.len()
        invariant
            indexes(series_map@, series_ids),
            rows@.len() == orig.len(),
            orig.len() < 0x4000_0000_0000_0000,
            series_ids.len() < 0x4000_0000_0000_0000,
            0 <= i <= orig.len(),
            forall|j: int| 0 <= j < orig.len() ==> has_id(series_ids, (#[trigger] orig[j]).spar_series_id),
            forall|j: int| 0 <= j < i ==> #[trigger] rows@[j] == (SparSeriesMember { id: j as i64, spar_series_id: last_index_of(series_ids, orig[j].spar_series_id) as i64, ..orig[j] }),
            forall|j: int| i <= j < orig.len() ==> #[trigger] rows@[j] == orig[j],
        decreases orig.len() - i,
    {
        let spar_series_id = index_of_id(series_map, rows[i].spar_series_id, Ghost(series_ids));
        proof {
            lemma_last_index_of(series_ids, rows@[i as int].spar_series_id);
        }
        let r = &mut rows[i];
        r.id = i as i64;
        r.spar_series_id = spar_series_id as i64;
        i = i + 1;
    }
    assert(rows@ =~= Seq::new(orig.len(), |j: int| SparSeriesMember { id: j as i64, spar_series_id: last_index_of(series_ids, orig[j].spar_series_id) as i64, ..orig[j] }));
    rows
}

/// The stored spars, renumbered, each pointing at its series' new index.
fn reload_spars(
    rows: Vec<Spar>,
    series_map: &HashMap<i64, usize>,
    Ghost(series_ids): Ghost<Seq<i64>>,
) -> (r: Vec<Spar>)
    requires
        indexes(series_map@, series_ids),
        forall|i: int| 0 <= i < rows@.len() ==> has_id(series_ids, (#[trigger] rows@[i]).spar_series_id),
        rows@.len() < 0x4000_0000_0000_0000,
        series_ids.len() < 0x4000_0000_0000_0000,
    ensures
        r@ == Seq::new(rows@.len(), |i: int| Spar { id: i as i64, spar_series_id: last_index_of(series_ids, rows@[i].spar_series_id) as i64, ..rows@[i] }),
{
    let ghost orig = rows@;
    let mut rows = rows;
    let mut i: usize = 0;
    while i < rows.len()
        invariant
            indexes(series_map@, series_ids),
            rows@.len() == orig.len(),
            orig.len() < 0x4000_0000_0000_0000,
            series_ids.len() < 0x4000_0000_0000_0000,
            0 <= i <= orig.len(),
            forall|j: int| 0 <= j < orig.len() ==> has_id(series_ids, (#[trigger] orig[j]).spar_series_id),
            forall|j: int| 0 <= j < i ==> #[trigger] rows@[j] == (Spar { id: j as i64, spar_series_id: last_index_of(series_ids, orig[j].spar_series_id) as i64, ..orig[j] }),
            forall|j: int| i <= j < orig.len() ==> #[trigger] rows@[j] == orig[j],
        decreases orig.len() - i,
    {
        let spar_series_id = index_of_id(series_map, rows[i].spar_series_id, Ghost(series_ids));
        proof {
            lemma_last_index_of(series_ids, rows@[i as int].spar_series_id);
        }
        let r = &mut rows[i];
        r.id = i as i64;
        r.spar_series_id = spar_series_id as i64;
        i = i + 1;
    }
    assert(rows@ =~= Seq::new(orig.len(), |j: int| Spar { id: j as i64, spar_series_id: last_index_of(series_ids, orig[j].spar_series_id) as i64, ..orig[j] }));
    rows
}

/// The stored sign-ups, renumbered, each pointing at its member's and its spar's new index.
fn reload_spar_signups(
    rows: Vec<SparSignup>,
    member_map: &HashMap<i64, usize>,
    spar_map: &HashMap<i64, usize>,
    Ghost(member_ids): Ghost<Seq<i64>>,
    Ghost(spar_ids): Ghost<Seq<i64>>,
) -> (r: Vec<SparSignup>)
    requires
        indexes(member_map@, member_ids),
        indexes(spar_map@, spar_ids),
        forall|i: int| 0 <= i < rows@.len() ==> has_id(member_ids, (#[trigger] rows@[i]).member_id) && has_id(spar_ids, rows@[i].spar_id),
        rows@.len() < 0x4000_0000_0000_0000,
        member_ids.len() < 0x4000_0000_0000_0000,
        spar_ids.len() < 0x4000_0000_0000_0000,
    ensures
        r@ == Seq::new(rows@.len(), |i: int| SparSignup { id: i as i64, member_id: last_index_of(member_ids, rows@[i].member_id) as i64, spar_id: last_index_of(spar_ids, rows@[i].spar_id) as i64, ..rows@[i] }),
{
    let ghost orig = rows@;
    let mut rows = rows;
    let mut i: usize = 0;
    while i < rows.len()
        invariant
            indexes(member_map@, member_ids),
            indexes(spar_map@, spar_ids),
            rows@.len() == orig.len(),
            orig.len() < 0x4000_0000_0000_0000,
            member_ids.len() < 0x4000_0000_0000_0000,
            spar_ids.len() < 0x4000_0000_0000_0000,
            0 <= i <= orig.len(),
            forall|j: int| 0 <= j < orig.len() ==> has_id(member_ids, (#[trigger] orig[j]).member_id) && has_id(spar_ids, orig[j].spar_id),
            forall|j: int| 0 <= j < i ==> #[trigger] rows@[j] == (SparSignup { id: j as i64, member_id: last_index_of(member_ids, orig[j].member_id) as i64, spar_id: last_index_of(spar_ids, orig[j].spar_id) as i64, ..orig[j] }),
            forall|j: int| i <= j < orig.len() ==> #[trigger] rows@[j] == orig[j],
        decreases orig.len() - i,
    {
        let member_id = index_of_id(member_map, rows[i].member_id, Ghost(member_ids));
        proof {
            lemma_last_index_of(member_ids, rows@[i as int].member_id);
        }
        let spar_id = index_of_id(spar_map, rows[i].spar_id, Ghost(spar_ids));
        proof {
            lemma_last_index_of(spar_ids, rows@[i as int].spar_id);
        }
        let r = &mut rows[i];
        r.id = i as i64;
        r.member_id = member_id as i64;
        r.spar_id = spar_id as i64;
        i = i + 1;
    }
    assert(rows@ =~= Seq::new(orig.len(), |j: int| SparSignup { id: j as i64, member_id: last_index_of(member_ids, orig[j].member_id) as i64, spar_id: last_index_of(spar_ids, orig[j].spar_id) as i64, ..orig[j] }));
    rows
}

/// The stored rooms, renumbered, each pointing at its spar's new index.
fn reload_rooms(
    rows: Vec<SparRoom>,
    spar_map: &HashMap<i64, usize>,
    Ghost(spar_ids): Ghost<Seq<i64>>,
) -> (r: Vec<SparRoom>)
    requires
        indexes(spar_map@, spar_ids),
        forall|i: int| 0 <= i < rows@.len() ==> has_id(spar_ids, (#[trigger] rows@[i]).spar_id),
        rows@.len() < 0x4000_0000_0000_0000,
        spar_ids.len() < 0x4000_0000_0000_0000,
    ensures
        r@ == Seq::new(rows@.len(), |i: int| SparRoom { id: i as i64, spar_id: last_index_of(spar_ids, rows@[i].spar_id) as i64, ..rows@[i] }),
{
    let ghost orig = rows@;
    let mut rows = rows;
    let mut i: usize = 0;
    while i < rows.len()
        invariant
            indexes(spar_map@, spar_ids),
            rows@.len() == orig.len(),
            orig.len() < 0x4000_0000_0000_0000,
            spar_ids.len() < 0x4000_0000_0000_0000,
            0 <= i <= orig.len(),
            forall|j: int| 0 <= j < orig.len() ==> has_id(spar_ids, (#[trigger] orig[j]).spar_id),
            forall|j: int| 0 <= j < i ==> #[trigger] rows@[j] == (SparRoom { id: j as i64, spar_id: last_index_of(spar_ids, orig[j].spar_id) as i64, ..orig[j] }),
            forall|j: int| i <= j < orig.len() ==> #[trigger] rows@[j] == orig[j],
        decreases orig.len() - i,
    {
        let spar_id = index_of_id(spar_map, rows[i].spar_id, Ghost(spar_ids));
        proof {
            lemma_last_index_of(spar_ids, rows@[i as int].spar_id);
        }
        let r = &mut rows[i];
        r.id = i as i64;
        r.spar_id = spar_id as i64;
        i = i + 1;
    }
    assert(rows@ =~= Seq::new(orig.len(), |j: int| SparRoom { id: j as i64, spar_id: last_index_of(spar_ids, orig[j].spar_id) as i64, ..orig[j] }));
    rows
}

/// The stored teams, renumbered, each pointing at its room's new index.
fn reload_teams(
    rows: Vec<SparRoomTeam>,
    room_map: &HashMap<i64, usize>,
    Ghost(room_ids): Ghost<Seq<i64>>,
) -> (r: Vec<SparRoomTeam>)
    requires
        indexes(room_map@, room_ids),
        forall|i: int| 0 <= i < rows@.len() ==> has_id(room_ids, (#[trigger] rows@[i]).room_id),
        rows@.len() < 0x4000_0000_0000_0000,
        room_ids.len() < 0x4000_0000_0000_0000,
    ensures
        r@ == Seq::new(rows@.len(), |i: int| SparRoomTeam { id: i as i64, room_id: last_index_of(room_ids, rows@[i].room_id) as i64, ..rows@[i] }),
{
    let ghost orig = rows@;
    let mut rows = rows;
    let mut i: usize = 0;
    while i < rows.len()
        invariant
            indexes(room_map@, room_ids),
            rows@.len() == orig.len(),
            orig.len() < 0x4000_0000_0000_0000,
            room_ids.len() < 0x4000_0000_0000_0000,
            0 <= i <= orig.len(),
            forall|j: int| 0 <= j < orig.len() ==> has_id(room_ids, (#[trigger] orig[j]).room_id),
            forall|j: int| 0 <= j < i ==> #[trigger] rows@[j] == (SparRoomTeam { id: j as i64, room_id: last_index_of(room_ids, orig[j].room_id) as i64, ..orig[j] }),
            forall|j: int| i <= j < orig.len() ==> #[trigger] rows@[j] == orig[j],
        decreases orig.len() - i,
    {
        let room_id = index_of_id(room_map, rows[i].room_id, Ghost(room_ids));
        proof {
            lemma_last_index_of(room_ids, rows@[i as int].room_id);
        }
        let r = &mut rows[i];
        r.id = i as i64;
        r.room_id = room_id as i64;
        i = i + 1;
    }
    assert(rows@ =~= Seq::new(orig.len(), |j: int| SparRoomTeam { id: j as i64, room_id: last_index_of(room_ids, orig[j].room_id) as i64, ..orig[j] }));
    rows
}

/// The stored adjudicators, renumbered, each pointing at the new index of the user with its member id and at its room's new index.
fn reload_adjs(
    rows: Vec<SparRoomAdjudicator>,
    user_map: &HashMap<i64, usize>,
    room_map: &HashMap<i64, usize>,
    Ghost(user_ids): Ghost<Seq<i64>>,
    Ghost(room_ids): Ghost<Seq<i64>>,
) -> (r: Vec<SparRoomAdjudicator>)
    requires
        indexes(user_map@, user_ids),
        indexes(room_map@, room_ids),
        forall|i: int| 0 <= i < rows@.len() ==> has_id(user_ids, (#[trigger] rows@[i]).member_id) && has_id(room_ids, rows@[i].room_id),
        rows@.len() < 0x4000_0000_0000_0000,
        user_ids.len() < 0x4000_0000_0000_0000,
        room_ids.len() < 0x4000_0000_0000_0000,
    ensures
        r@ == Seq::new(rows@.len(), |i: int| SparRoomAdjudicator { id: i as i64, member_id: last_index_of(user_ids, rows@[i].member_id) as i64, room_id: last_index_of(room_ids, rows@[i].room_id) as i64, ..rows@[i] }),
{
    let ghost orig = rows@;
    let mut rows = rows;
    let mut i: usize = 0;
    while i < rows.len()
        invariant
            indexes(user_map@, user_ids),
            indexes(room_map@, room_ids),
            rows@.len() == orig.len(),
            orig.len() < 0x4000_0000_0000_0000,
            user_ids.len() < 0x4000_0000_0000_0000,
            room_ids.len() < 0x4000_0000_0000_0000,
            0 <= i <= orig.len(),
            forall|j: int| 0 <= j < orig.len() ==> has_id(user_ids, (#[trigger] orig[j]).member_id) && has_id(room_ids, orig[j].room_id),
            forall|j: int| 0 <= j < i ==> #[trigger] rows@[j] == (SparRoomAdjudicator { id: j as i64, member_id: last_index_of(user_ids, orig[j].member_id) as i64, room_id: last_index_of(room_ids, orig[j].room_id) as i64, ..orig[j] }),
            forall|j: int| i <= j < orig.len() ==> #[trigger] rows@[j] == orig[j],
        decreases orig.len() - i,
    {
        let member_id = index_of_id(user_map, rows[i].member_id, Ghost(user_ids));
        proof {
            lemma_last_index_of(user_ids, rows@[i as int].member_id);
        }
        let room_id = index_of_id(room_map, rows[i].room_id, Ghost(room_ids));
        proof {
            lemma_last_index_of(room_ids, rows@[i as int].room_id);
        }
        let r = &mut rows[i];
        r.id = i as i64;
        r.member_id = member_id as i64;
        r.room_id = room_id as i64;
        i = i + 1;
    }
    assert(rows@ =~= Seq::new(orig.len(), |j: int| SparRoomAdjudicator { id: j as i64, member_id: last_index_of(user_ids, orig[j].member_id) as i64, room_id: last_index_of(room_ids, orig[j].room_id) as i64, ..orig[j] }));
    rows
}

/// The stored speakers, renumbered, each pointing at the new index of the user with its member id and at its team's new index.
fn reload_speakers(
    rows: Vec<SparRoomTeamSpeaker>,
    user_map: &HashMap<i64, usize>,
    team_map: &HashMap<i64, usize>,
    Ghost(user_ids): Ghost<Seq<i64>>,
    Ghost(team_ids): Ghost<Seq<i64>>,
) -> (r: Vec<SparRoomTeamSpeaker>)
    requires
        indexes(user_map@, user_ids),
        indexes(team_map@, team_ids),
        forall|i: int| 0 <= i < rows@.len() ==> has_id(user_ids, (#[trigger] rows@[i]).member_id) && has_id(team_ids, rows@[i].team_id),
        rows@.len() < 0x4000_0000_0000_0000,
        user_ids.len() < 0x4000_0000_0000_0000,
        team_ids.len() < 0x4000_0000_0000_0000,
    ensures
        r@ == Seq::new(rows@.len(), |i: int| SparRoomTeamSpeaker { id: i as i64, member_id: last_index_of(user_ids, rows@[i].member_id) as i64, team_id: last_index_of(team_ids, rows@[i].team_id) as i64, ..rows@[i] }),
{
    let ghost orig = rows@;
    let mut rows = rows;
    let mut i: usize = 0;
    while i < rows.len()
        invariant
            indexes(user_map@, user_ids),
            indexes(team_map@, team_ids),
            rows@.len() == orig.len(),
            orig.len() < 0x4000_0000_0000_0000,
            user_ids.len() < 0x4000_0000_0000_0000,
            team_ids.len() < 0x4000_0000_0000_0000,
            0 <= i <= orig.len(),
            forall|j: int| 0 <= j < orig.len() ==> has_id(user_ids, (#[trigger] orig[j]).member_id) && has_id(team_ids, orig[j].team_id),
            forall|j: int| 0 <= j < i ==> #[trigger] rows@[j] == (SparRoomTeamSpeaker { id: j as i64, member_id: last_index_of(user_ids, orig[j].member_id) as i64, team_id: last_index_of(team_ids, orig[j].team_id) as i64, ..orig[j] }),
            forall|j: int| i <= j < orig.len() ==> #[trigger] rows@[j] == orig[j],
        decreases orig.len() - i,
    {
        let member_id = index_of_id(user_map, rows[i].member_id, Ghost(user_ids));
        proof {
            lemma_last_index_of(user_ids, rows@[i as int].member_id);
        }
        let team_id = index_of_id(team_map, rows[i].team_id, Ghost(team_ids));
        proof {
            lemma_last_index_of(team_ids, rows@[i as int].team_id);
        }
        let r = &mut rows[i];
        r.id = i as i64;
        r.member_id = member_id as i64;
        r.team_id = team_id as i64;
        i = i + 1;
    }
    assert(rows@ =~= Seq::new(orig.len(), |j: int| SparRoomTeamSpeaker { id: j as i64, member_id: last_index_of(user_ids, orig[j].member_id) as i64, team_id: last_index_of(team_ids, orig[j].team_id) as i64, ..orig[j] }));
    rows
}

/// The stored ballots, renumbered, each pointing at its adjudicator's and its room's new index.
fn reload_ballots(
    rows: Vec<AdjudicatorBallot>,
    adj_map: &HashMap<i64, usize>,
    room_map: &HashMap<i64, usize>,
    Ghost(adj_ids): Ghost<Seq<i64>>,
    Ghost(room_ids): Ghost<Seq<i64>>,
) -> (r: Vec<AdjudicatorBallot>)
    requires
        indexes(adj_map@, adj_ids),
        indexes(room_map@, room_ids),
        forall|i: int| 0 <= i < rows@.len() ==> has_id(adj_ids, (#[trigger] rows@[i]).adjudicator_id) && has_id(room_ids, rows@[i].room_id),
        rows@.len() < 0x4000_0000_0000_0000,
        adj_ids.len() < 0x4000_0000_0000_0000,
        room_ids.len() < 0x4000_0000_0000_0000,
    ensures
        r@ == Seq::new(rows@.len(), |i: int| AdjudicatorBallot { id: i as i64, adjudicator_id: last_index_of(adj_ids, rows@[i].adjudicator_id) as i64, room_id: last_index_of(room_ids, rows@[i].room_id) as i64, ..rows@[i] }),
{
    let ghost orig = rows@;
    let mut rows = rows;
    let mut i: usize = 0;
    while i < rows.len()
        invariant
            indexes(adj_map@, adj_ids),
            indexes(room_map@, room_ids),
            rows@.len() == orig.len(),
            orig.len() < 0x4000_0000_0000_0000,
            adj_ids.len() < 0x4000_0000_0000_0000,
            room_ids.len() < 0x4000_0000_0000_0000,
            0 <= i <= orig.len(),
            forall|j: int| 0 <= j < orig.len() ==> has_id(adj_ids, (#[trigger] orig[j]).adjudicator_id) && has_id(room_ids, orig[j].room_id),
            forall|j: int| 0 <= j < i ==> #[trigger] rows@[j] == (AdjudicatorBallot { id: j as i64, adjudicator_id: last_index_of(adj_ids, orig[j].adjudicator_id) as i64, room_id: last_index_of(room_ids, orig[j].room_id) as i64, ..orig[j] }),
            forall|j: int| i <= j < orig.len() ==> #[trigger] rows@[j] == orig[j],
        decreases orig.len() - i,
    {
        let adjudicator_id = index_of_id(adj_map, rows[i].adjudicator_id, Ghost(adj_ids));
        proof {
            lemma_last_index_of(adj_ids, rows@[i as int].adjudicator_id);
        }
        let room_id = index_of_id(room_map, rows[i].room_id, Ghost(room_ids));
        proof {
            lemma_last_index_of(room_ids, rows@[i as int].room_id);
        }
        let r = &mut rows[i];
        r.id = i as i64;
        r.adjudicator_id = adjudicator_id as i64;
        r.room_id = room_id as i64;
        i = i + 1;
    }
    assert(rows@ =~= Seq::new(orig.len(), |j: int| AdjudicatorBallot { id: j as i64, adjudicator_id: last_index_of(adj_ids, orig[j].adjudicator_id) as i64, room_id: last_index_of(room_ids, orig[j].room_id) as i64, ..orig[j] }));
    rows
}


/// The first of `users` with the given public id.
fn first_with_public_id(users: &Vec<User>, public_id: &String) -> (r: usize)
    requires
        exists|k: int| 0 <= k < users@.len() && (#[trigger] users@[k]).public_id@ == public_id@,
    ensures
        is_first_with_public_id(users@, public_id@, r as int),
        (choose|k: int| is_first_with_public_id(users@, public_id@, k)) == r,
{
    let mut k: usize = 0;
    while k < users.len()
        invariant
            0 <= k <= users.len(),
            exists|c: int| 0 <= c < users@.len() && (#[trigger] users@[c]).public_id@ == public_id@,
            forall|j: int| 0 <= j < k ==> (#[trigger] users@[j]).public_id@ != public_id@,
        decreases users.len() - k,
    {
        if users[k].public_id == *public_id {
            proof {
                assert(is_first_with_public_id(users@, public_id@, k as int));
                let c = choose|c: int| is_first_with_public_id(users@, public_id@, c);
                if c < k {
                    assert(users@[c].public_id@ != public_id@);
                }
                if c > k {
                    assert(users@[k as int].public_id@ != public_id@);
                }
            }
            return k;
        }
        k = k + 1;
    }
    proof {
        let c = choose|c: int| 0 <= c < users@.len() && (#[trigger] users@[c]).public_id@ == public_id@;
        assert(users@[c].public_id@ != public_id@);
    }
    0
}

impl State {
    /// Replaces the model by the records of the service's database: each
    /// record is renumbered by its index, each reference between records
    /// follows the renumbering, each user keeps the password that the model
    /// held for the user's public id, and the logged-in user stays logged
    /// in. When no stored spar is open with its draw released, the reloaded
    /// model is well formed.
    #[verifier::loop_isolation(false)]
    pub fn sync(&mut self, stored: StoredRecords)
        requires
            stored.loadable_into(old(self)@),
        ensures
            final(self)@ == stored.reloaded(old(self)@),
            (forall|i: int|
                0 <= i < stored.spars@.len() ==> open_spar_unreleased(#[trigger] stored.spars@[i]))
                ==> final(self)@.well_formed() && final(self)@.lengths_fit(),
    {
        let ghost m0 = self@;
        let ghost user_ids = ids_of(stored.users@);
        let ghost group_ids = ids_of(stored.groups@);
        let ghost series_ids = ids_of(stored.spar_series@);
        let ghost member_ids = ids_of(stored.spar_series_members@);
        let ghost spar_ids = ids_of(stored.spars@);
        let ghost room_ids = ids_of(stored.rooms@);
        let ghost team_ids = ids_of(stored.teams@);
        let ghost adj_ids = ids_of(stored.adjs@);
        let user_map = index_map(&stored.users);
        let group_map = index_map(&stored.groups);
        let series_map = index_map(&stored.spar_series);
        let member_map = index_map(&stored.spar_series_members);
        let spar_map = index_map(&stored.spars);
        let room_map = index_map(&stored.rooms);
        let team_map = index_map(&stored.teams);
        let adj_map = index_map(&stored.adjs);
        let members = reload_group_members(
            &stored.group_members,
            &user_map,
            &group_map,
            Ghost(user_ids),
            Ghost(group_ids),
        );
        let StoredRecords {
            users,
            groups,
            group_members: _,
            spar_series,
            spar_series_members,
            spars,
            spar_signups,
            rooms,
            teams,
            adjs,
            speakers,
            ballots,
        } = stored;
        let users = reload_users(users, &self.users);
        let active_user = match &self.active_user {
            None => None,
            Some(a) => {
                proof {
                    let k = choose|k: int|
                        0 <= k < stored.users@.len() && (#[trigger] stored.users@[k]).public_id@
                            == a.public_id@;
                    assert(users@[k].public_id@ == a.public_id@);
                }
                let k = first_with_public_id(&users, &a.public_id);
                Some(users[k].clone())
            },
        };
        self.users = users;
        self.active_user = active_user;
        self.groups = reload_groups(groups);
        self.group_members = members;
        self.spar_series = reload_spar_series(spar_series, &group_map, Ghost(group_ids));
        self.spar_series_members = reload_spar_series_members(
            spar_series_members,
            &series_map,
            Ghost(series_ids),
        );
        self.spars = reload_spars(spars, &series_map, Ghost(series_ids));
        self.spar_signups = reload_spar_signups(
            spar_signups,
            &member_map,
            &spar_map,
            Ghost(member_ids),
            Ghost(spar_ids),
        );
        self.rooms = reload_rooms(rooms, &spar_map, Ghost(spar_ids));
        self.teams = reload_teams(teams, &room_map, Ghost(room_ids));
        self.adjs = reload_adjs(adjs, &user_map, &room_map, Ghost(user_ids), Ghost(room_ids));
        self.speakers = reload_speakers(speakers, &user_map, &team_map, Ghost(user_ids), Ghost(team_ids));
        self.ballots = reload_ballots(ballots, &adj_map, &room_map, Ghost(adj_ids), Ghost(room_ids));
        self.ballot_links = Vec::new();
        self.ballot_entries = Vec::new();
        assert(self@ =~= stored.reloaded(m0));
        proof {
            let m = self@;
            assert forall|i: int| 0 <= i < m.spar_series.len() implies 0 <= #[trigger] m.spar_series[i].group_id
                < m.groups.len() by {
                lemma_last_index_of(group_ids, stored.spar_series@[i].group_id);
            }
            assert forall|i: int| 0 <= i < m.spars.len() implies 0 <= #[trigger] m.spars[i].spar_series_id
                < m.spar_series.len() by {
                lemma_last_index_of(series_ids, stored.spars@[i].spar_series_id);
            }
            if forall|i: int|
                0 <= i < stored.spars@.len() ==> open_spar_unreleased(#[trigger] stored.spars@[i]) {
                assert forall|i: int| 0 <= i < m.spars.len() implies open_spar_unreleased(
                    #[trigger] m.spars[i],
                ) by {
                    assert(open_spar_unreleased(stored.spars@[i]));
                }
            }
        }
    }
}

} // verus!
