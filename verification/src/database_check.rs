//! Whether the model agrees with the service's database: every table holds
//! as many rows as the model holds records, and every record of the model
//! has a row with its public id whose compared fields are the same.

use crate::ballot::AdjudicatorBallot;
use crate::group::Group;
use crate::model::{same_text, texts_equal, State};
use crate::room::SparRoom;
use crate::spar::{
    Spar, SparRoomAdjudicator, SparRoomTeam, SparRoomTeamSpeaker, SparSeries, SparSeriesMember,
    SparSignup,
};
use crate::sync::StoredRecords;
use crate::user::User;
use vstd::prelude::*;

verus! {

/// A record that is looked up by its public id and compared field by field.
pub trait Compared: Sized {
    spec fn spec_public_id(&self) -> Seq<char>;

    /// The fields that the comparison looks at are the same in `self` and
    /// in `stored`.
    spec fn agrees(&self, stored: &Self) -> bool;

    fn public_id_text(&self) -> (r: &String)
        ensures
            r@ == self.spec_public_id(),
    ;

    fn agrees_with(&self, stored: &Self) -> (b: bool)
        ensures
            b == self.agrees(stored),
    ;
}

impl Compared for User {
    open spec fn spec_public_id(&self) -> Seq<char> {
        self.public_id@
    }

    /// The username, whether the email address is verified, and the email
    /// address.
    open spec fn agrees(&self, stored: &Self) -> bool {
        same_text(self.username, stored.username) && self.email_verified == stored.email_verified
            && self.email@ == stored.email@
    }

    fn public_id_text(&self) -> (r: &String) {
        &self.public_id
    }

    fn agrees_with(&self, stored: &Self) -> (b: bool) {
        texts_equal(&self.username, &stored.username) && self.email_verified == stored.email_verified
            && self.email == stored.email
    }
}

impl Compared for Group {
    open spec fn spec_public_id(&self) -> Seq<char> {
        self.public_id@
    }

    /// The name and the website.
    open spec fn agrees(&self, stored: &Self) -> bool {
        self.name@ == stored.name@ && same_text(self.website, stored.website)
    }

    fn public_id_text(&self) -> (r: &String) {
        &self.public_id
    }

    fn agrees_with(&self, stored: &Self) -> (b: bool) {
        self.name == stored.name && texts_equal(&self.website, &stored.website)
    }
}

impl Compared for SparSeries {
    open spec fn spec_public_id(&self) -> Seq<char> {
        self.public_id@
    }

    /// The title and the description.
    open spec fn agrees(&self, stored: &Self) -> bool {
        self.title@ == stored.title@ && same_text(self.description, stored.description)
    }

    fn public_id_text(&self) -> (r: &String) {
        &self.public_id
    }

    fn agrees_with(&self, stored: &Self) -> (b: bool) {
        self.title == stored.title && texts_equal(&self.description, &stored.description)
    }
}

impl Compared for Spar {
    open spec fn spec_public_id(&self) -> Seq<char> {
        self.public_id@
    }

    /// Whether sign-ups are open.
    open spec fn agrees(&self, stored: &Self) -> bool {
        self.is_open == stored.is_open
    }

    fn public_id_text(&self) -> (r: &String) {
        &self.public_id
    }

    fn agrees_with(&self, stored: &Self) -> (b: bool) {
        self.is_open == stored.is_open
    }
}

impl Compared for SparSignup {
    open spec fn spec_public_id(&self) -> Seq<char> {
        self.public_id@
    }

    /// Whether the member judges, and whether the member speaks.
    open spec fn agrees(&self, stored: &Self) -> bool {
        self.as_judge == stored.as_judge && self.as_speaker == stored.as_speaker
    }

    fn public_id_text(&self) -> (r: &String) {
        &self.public_id
    }

    fn agrees_with(&self, stored: &Self) -> (b: bool) {
        self.as_judge == stored.as_judge && self.as_speaker == stored.as_speaker
    }
}

impl Compared for SparSeriesMember {
    open spec fn spec_public_id(&self) -> Seq<char> {
        self.public_id@
    }

    /// The name and the email address.
    open spec fn agrees(&self, stored: &Self) -> bool {
        self.name@ == stored.name@ && self.email@ == stored.email@
    }

    fn public_id_text(&self) -> (r: &String) {
        &self.public_id
    }

    fn agrees_with(&self, stored: &Self) -> (b: bool) {
        self.name == stored.name && self.email == stored.email
    }
}

impl Compared for SparRoom {
    open spec fn spec_public_id(&self) -> Seq<char> {
        self.public_id@
    }

    /// Nothing beyond the public id.
    open spec fn agrees(&self, stored: &Self) -> bool {
        true
    }

    fn public_id_text(&self) -> (r: &String) {
        &self.public_id
    }

    fn agrees_with(&self, stored: &Self) -> (b: bool) {
        true
    }
}

impl Compared for SparRoomTeam {
    open spec fn spec_public_id(&self) -> Seq<char> {
        self.public_id@
    }

    /// The speaking position.
    open spec fn agrees(&self, stored: &Self) -> bool {
        self.position == stored.position
    }

    fn public_id_text(&self) -> (r: &String) {
        &self.public_id
    }

    fn agrees_with(&self, stored: &Self) -> (b: bool) {
        self.position == stored.position
    }
}

impl Compared for SparRoomAdjudicator {
    open spec fn spec_public_id(&self) -> Seq<char> {
        self.public_id@
    }

    /// The member id, the room id and the status, as they stand.
    open spec fn agrees(&self, stored: &Self) -> bool {
        self.member_id == stored.member_id && self.room_id == stored.room_id && self.status@
            == stored.status@
    }

    fn public_id_text(&self) -> (r: &String) {
        &self.public_id
    }

    fn agrees_with(&self, stored: &Self) -> (b: bool) {
        self.member_id == stored.member_id && self.room_id == stored.room_id && self.status
            == stored.status
    }
}

impl Compared for SparRoomTeamSpeaker {
    open spec fn spec_public_id(&self) -> Seq<char> {
        self.public_id@
    }

    /// The member id and the team id, as they stand.
    open spec fn agrees(&self, stored: &Self) -> bool {
        self.member_id == stored.member_id && self.team_id == stored.team_id
    }

    fn public_id_text(&self) -> (r: &String) {
        &self.public_id
    }

    fn agrees_with(&self, stored: &Self) -> (b: bool) {
        self.member_id == stored.member_id && self.team_id == stored.team_id
    }
}

impl Compared for AdjudicatorBallot {
    open spec fn spec_public_id(&self) -> Seq<char> {
        self.public_id@
    }

    /// The adjudicator id and the room id, as they stand.
    open spec fn agrees(&self, stored: &Self) -> bool {
        self.adjudicator_id == stored.adjudicator_id && self.room_id == stored.room_id
    }

    fn public_id_text(&self) -> (r: &String) {
        &self.public_id
    }

    fn agrees_with(&self, stored: &Self) -> (b: bool) {
        self.adjudicator_id == stored.adjudicator_id && self.room_id == stored.room_id
    }
}

/// Row `k` is the first stored row with the public id.
pub open spec fn is_first_row<T: Compared>(stored: Seq<T>, public_id: Seq<char>, k: int) -> bool {
    &&& 0 <= k < stored.len()
    &&& stored[k].spec_public_id() == public_id
    &&& forall|j: int| 0 <= j < k ==> (#[trigger] stored[j]).spec_public_id() != public_id
}

/// The record has a stored row, and the first row with its public id
/// agrees with it.
pub open spec fn record_found<T: Compared>(record: T, stored: Seq<T>) -> bool {
    exists|k: int| is_first_row(stored, record.spec_public_id(), k) && record.agrees(&stored[k])
}

/// The table holds as many rows as the model holds records, and each
/// record is found.
pub open spec fn table_matches<T: Compared>(model: Seq<T>, stored: Seq<T>) -> bool {
    &&& model.len() == stored.len()
    &&& forall|i: int| 0 <= i < model.len() ==> record_found(#[trigger] model[i], stored)
}

/// A table of the service's database.
#[derive(Debug, Clone, Copy, PartialEq, Eq, Structural)]
pub enum Table {
    Users,
    Groups,
    SparSeries,
    Spars,
    SparSignups,
    SparSeriesMembers,
    Rooms,
    Teams,
    Adjudicators,
    Speakers,
    Ballots,
}

proof fn lemma_first_row_unique<T: Compared>(stored: Seq<T>, public_id: Seq<char>, k: int, c: int)
    requires
        is_first_row(stored, public_id, k),
        is_first_row(stored, public_id, c),
    ensures
        k == c,
{
    if c < k {
        assert(stored[c].spec_public_id() != public_id);
    }
    if k < c {
        assert(stored[k].spec_public_id() != public_id);
    }
}

/// Whether the record is found among the stored rows.
fn find_record<T: Compared>(record: &T, stored: &Vec<T>) -> (b: bool)
    ensures
        b == record_found(*record, stored@),
{
    let public_id = record.public_id_text();
    let mut k: usize = 0;
    while k < stored.len()
        invariant
            0 <= k <= stored.len(),
            public_id@ == record.spec_public_id(),
            forall|j: int| 0 <= j < k ==> (#[trigger] stored@[j]).spec_public_id() != public_id@,
        decreases stored.len() - k,
    {
        if *stored[k].public_id_text() == *public_id {
            proof {
                assert(is_first_row(stored@, record.spec_public_id(), k as int));
                if record_found(*record, stored@) {
                    let c = choose|c: int|
                        is_first_row(stored@, record.spec_public_id(), c) && record.agrees(&stored@[c]);
                    lemma_first_row_unique(stored@, record.spec_public_id(), k as int, c);
                }
            }
            return record.agrees_with(&stored[k]);
        }
        k = k + 1;
    }
    proof {
        if record_found(*record, stored@) {
            let c = choose|c: int|
                is_first_row(stored@, record.spec_public_id(), c) && record.agrees(&stored@[c]);
            assert(stored@[c].spec_public_id() != public_id@);
        }
    }
    false
}

/// Whether the table matches the model's records.
fn check_table<T: Compared>(model: &Vec<T>, stored: &Vec<T>) -> (b: bool)
    ensures
        b == table_matches(model@, stored@),
{
    if model.len() != stored.len() {
        return false;
    }
    let mut i: usize = 0;
    while i < model.len()
        invariant
            0 <= i <= model.len(),
            model@.len() == stored@.len(),
            forall|j: int| 0 <= j < i ==> record_found(#[trigger] model@[j], stored@),
        decreases model.len() - i,
    {
        if !find_record(&model[i], stored) {
            return false;
        }
        i = i + 1;
    }
    true
}

impl State {
    /// The first table, in the order users, groups, spar series, spars,
    /// sign-ups, series members, rooms, teams, adjudicators, speakers and
    /// ballots, that does not match the model; `Ok` when all match.
    pub fn matches_database(&self, stored: &StoredRecords) -> (r: Result<(), Table>)
        ensures
            r == (if !table_matches(self@.users, stored.users@) {
                Err(Table::Users)
            } else if !table_matches(self@.groups, stored.groups@) {
                Err(Table::Groups)
            } else if !table_matches(self@.spar_series, stored.spar_series@) {
                Err(Table::SparSeries)
            } else if !table_matches(self@.spars, stored.spars@) {
                Err(Table::Spars)
            } else if !table_matches(self@.spar_signups, stored.spar_signups@) {
                Err(Table::SparSignups)
            } else if !table_matches(self@.spar_series_members, stored.spar_series_members@) {
                Err(Table::SparSeriesMembers)
            } else if !table_matches(self@.rooms, stored.rooms@) {
                Err(Table::Rooms)
            } else if !table_matches(self@.teams, stored.teams@) {
                Err(Table::Teams)
            } else if !table_matches(self@.adjs, stored.adjs@) {
                Err(Table::Adjudicators)
            } else if !table_matches(self@.speakers, stored.speakers@) {
                Err(Table::Speakers)
            } else if !table_matches(self@.ballots, stored.ballots@) {
                Err(Table::Ballots)
            } else {
                Ok(())
            }),
    {
        if !check_table(&self.users, &stored.users) {
            return Err(Table::Users);
        }
        if !check_table(&self.groups, &stored.groups) {
            return Err(Table::Groups);
        }
        if !check_table(&self.spar_series, &stored.spar_series) {
            return Err(Table::SparSeries);
        }
        if !check_table(&self.spars, &stored.spars) {
            return Err(Table::Spars);
        }
        if !check_table(&self.spar_signups, &stored.spar_signups) {
            return Err(Table::SparSignups);
        }
        if !check_table(&self.spar_series_members, &stored.spar_series_members) {
            return Err(Table::SparSeriesMembers);
        }
        if !check_table(&self.rooms, &stored.rooms) {
            return Err(Table::Rooms);
        }
        if !check_table(&self.teams, &stored.teams) {
            return Err(Table::Teams);
        }
        if !check_table(&self.adjs, &stored.adjs) {
            return Err(Table::Adjudicators);
        }
        if !check_table(&self.speakers, &stored.speakers) {
            return Err(Table::Speakers);
        }
        if !check_table(&self.ballots, &stored.ballots) {
            return Err(Table::Ballots);
        }
        Ok(())
    }
}

} // verus!
