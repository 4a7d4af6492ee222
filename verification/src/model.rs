//! A reference model of the service: the records it should hold, kept in
//! memory and stepped by the same actions that are sent to the running
//! service, so that the two can be compared. Every record's `id` is its
//! index in the list that holds it.

use crate::ballot::{AdjudicatorBallot, AdjudicatorBallotEntry, AdjudicatorBallotLink};
use crate::group::Group;
use crate::room::SparRoom;
use crate::spar::{
    open_spar_unreleased, Spar, SparRoomAdjudicator, SparRoomTeam, SparRoomTeamSpeaker,
    SparSeries, SparSeriesMember, SparSignup,
};
use crate::user::{
    regex_compiles, regex_is_match, valid_group_name, valid_password, valid_username, User,
    EMAIL_PATTERN,
};
use chrono::NaiveDateTime;
use vstd::prelude::*;

verus! {

/// The rights a user holds in a group.
#[derive(Debug, Clone, Copy, PartialEq, Eq, Hash, Structural)]
pub struct GroupMembershipData {
    pub is_admin: bool,
    pub is_superuser: bool,
}

/// One user's rights in one group: `user` is the user's index and `group`
/// the group's id.
#[derive(Debug, Clone, Copy, PartialEq, Eq, Structural)]
pub struct GroupMembershipEntry {
    pub user: usize,
    pub group: i64,
    pub data: GroupMembershipData,
}

/// A ballot as a fuzzer writes it: the index of each of the eight
/// speakers among the model's speakers, and each speaker's score.
#[derive(Debug, Clone, Copy, PartialEq, Eq, Structural)]
pub struct FuzzerBpBallotForm {
    pub pm: usize,
    pub pm_score: i64,
    pub dpm: usize,
    pub dpm_score: i64,
    pub lo: usize,
    pub lo_score: i64,
    pub dlo: usize,
    pub dlo_score: i64,
    pub mg: usize,
    pub mg_score: i64,
    pub gw: usize,
    pub gw_score: i64,
    pub mo: usize,
    pub mo_score: i64,
    pub ow: usize,
    pub ow_score: i64,
    pub force: bool,
}

/// What is done to the service (and to the model).
#[derive(Debug)]
pub enum Action {
    /// Create the first user.
    Setup(User),
    /// Log in as the nth user.
    Login(usize),
    /// Create a group; the logged-in user becomes its administrator.
    CreateGroup(Group),
    /// Create a spar series in a group.
    CreateSparSeries(SparSeries),
    /// Add a member to a spar series.
    AddMember(SparSeriesMember),
    /// Create a spar in a series.
    CreateSpar(Spar),
    /// Release the draw of the nth spar.
    ReleaseDraw(usize),
    /// Sign a member up for a spar.
    Signup { member_idx: usize, spar_idx: usize, as_judge: bool, as_speaker: bool },
    /// Generate the draw of the nth spar.
    GenerateDraw(usize),
    /// Submit a ballot for a room, as an adjudicator.
    SubmitBallot(FuzzerBpBallotForm, usize, usize),
    /// Open or close sign-ups for a spar.
    SetSparIsOpen { spar: usize, state: bool },
}

/// The values that a step takes from outside the model: the public id
/// that the service gave the record it created last, fresh ids for the
/// entries of a ballot, and the current time.
pub struct FreshValues {
    pub public_id: String,
    pub entry_ids: Vec<String>,
    pub now: NaiveDateTime,
}

/// What the caller has to do after a step.
#[derive(Debug, Clone, Copy, PartialEq, Eq, Structural)]
pub enum StepOutcome {
    /// Nothing more.
    Done,
    /// Reload the model from the service's database.
    Reload,
}

/// The records of the model, as mathematical sequences.
#[verifier::ext_equal]
pub struct Model {
    pub users: Seq<User>,
    pub groups: Seq<Group>,
    pub group_members: Seq<GroupMembershipEntry>,
    pub spar_series: Seq<SparSeries>,
    pub spar_series_members: Seq<SparSeriesMember>,
    pub spars: Seq<Spar>,
    pub spar_signups: Seq<SparSignup>,
    pub active_user: Option<User>,
    pub rooms: Seq<SparRoom>,
    pub teams: Seq<SparRoomTeam>,
    pub adjs: Seq<SparRoomAdjudicator>,
    pub speakers: Seq<SparRoomTeamSpeaker>,
    pub ballots: Seq<AdjudicatorBallot>,
    pub ballot_links: Seq<AdjudicatorBallotLink>,
    pub ballot_entries: Seq<AdjudicatorBallotEntry>,
}

/// The index that `i` is clamped to in a list of `len` records: `i` itself
/// if it is in range, else the last index (`0` for an empty list).
pub open spec fn clamped(i: usize, len: nat) -> int {
    if len == 0 {
        0
    } else if (i as int) < len {
        i as int
    } else {
        len - 1
    }
}

/// Two optional pieces of text are equal.
pub open spec fn same_text(a: Option<String>, b: Option<String>) -> bool {
    match (a, b) {
        (Some(x), Some(y)) => x@ == y@,
        (None, None) => true,
        _ => false,
    }
}

/// The text is an email address, by `EMAIL_PATTERN`.
pub open spec fn valid_email(s: Seq<char>) -> bool {
    regex_compiles(EMAIL_PATTERN@) && regex_is_match(EMAIL_PATTERN@, s)
}

impl Model {
    /// Every record's id is its index, every reference between records
    /// points at a record, every user has at most one entry per group,
    /// and no open spar has its draw released.
    pub open spec fn well_formed(self) -> bool {
        &&& self.ids_are_indices()
        &&& forall|i: int|
            0 <= i < self.spar_series.len() ==> 0 <= #[trigger] self.spar_series[i].group_id
                < self.groups.len()
        &&& forall|i: int|
            0 <= i < self.spars.len() ==> 0 <= #[trigger] self.spars[i].spar_series_id
                < self.spar_series.len()
        &&& forall|i: int|
            0 <= i < self.group_members.len() ==> 0 <= #[trigger] self.group_members[i].group
                < self.groups.len()
        &&& forall|i: int, j: int|
            0 <= i < j < self.group_members.len() ==> (#[trigger] self.group_members[i]).user
                != (#[trigger] self.group_members[j]).user || self.group_members[i].group
                != self.group_members[j].group
        &&& forall|i: int| 0 <= i < self.spars.len() ==> open_spar_unreleased(#[trigger] self.spars[i])
    }

    /// Every record's id is its index in the list that holds it.
    pub open spec fn ids_are_indices(self) -> bool {
        &&& forall|i: int| 0 <= i < self.users.len() ==> #[trigger] self.users[i].id == i
        &&& forall|i: int| 0 <= i < self.groups.len() ==> #[trigger] self.groups[i].id == i
        &&& forall|i: int| 0 <= i < self.spar_series.len() ==> #[trigger] self.spar_series[i].id == i
        &&& forall|i: int|
            0 <= i < self.spar_series_members.len() ==> #[trigger] self.spar_series_members[i].id == i
        &&& forall|i: int| 0 <= i < self.spars.len() ==> #[trigger] self.spars[i].id == i
        &&& forall|i: int| 0 <= i < self.spar_signups.len() ==> #[trigger] self.spar_signups[i].id == i
        &&& forall|i: int| 0 <= i < self.rooms.len() ==> #[trigger] self.rooms[i].id == i
        &&& forall|i: int| 0 <= i < self.teams.len() ==> #[trigger] self.teams[i].id == i
        &&& forall|i: int| 0 <= i < self.adjs.len() ==> #[trigger] self.adjs[i].id == i
        &&& forall|i: int| 0 <= i < self.speakers.len() ==> #[trigger] self.speakers[i].id == i
        &&& forall|i: int| 0 <= i < self.ballots.len() ==> #[trigger] self.ballots[i].id == i
        &&& forall|i: int| 0 <= i < self.ballot_entries.len() ==> #[trigger] self.ballot_entries[i].id == i
    }

    /// The rights that user `user` holds in group `group`, if any.
    pub open spec fn membership(self, user: usize, group: i64) -> Option<GroupMembershipData> {
        if exists|i: int|
            0 <= i < self.group_members.len() && (#[trigger] self.group_members[i]).user == user
                && self.group_members[i].group == group {
            let i = choose|i: int|
                0 <= i < self.group_members.len() && (#[trigger] self.group_members[i]).user == user
                    && self.group_members[i].group == group;
            Some(self.group_members[i].data)
        } else {
            None
        }
    }

    /// The logged-in user administers the group with the given id (is its
    /// administrator or has signing power in it).
    pub open spec fn active_user_administers(self, group: i64) -> bool {
        &&& self.active_user is Some
        &&& self.membership(self.active_user->0.id as usize, group) matches Some(m)
        &&& (m.is_admin || m.is_superuser)
    }
}

/// The speaker index of the `k`th entry of a ballot form, in the order PM,
/// DPM, LO, DLO, MG, GW, MO, OW.
pub open spec fn form_speaker(form: FuzzerBpBallotForm, k: int) -> usize {
    if k == 0 { form.pm }
    else if k == 1 { form.dpm }
    else if k == 2 { form.lo }
    else if k == 3 { form.dlo }
    else if k == 4 { form.mg }
    else if k == 5 { form.gw }
    else if k == 6 { form.mo }
    else { form.ow }
}

/// The score of the `k`th entry of a ballot form.
pub open spec fn form_score(form: FuzzerBpBallotForm, k: int) -> i64 {
    if k == 0 { form.pm_score }
    else if k == 1 { form.dpm_score }
    else if k == 2 { form.lo_score }
    else if k == 3 { form.dlo_score }
    else if k == 4 { form.mg_score }
    else if k == 5 { form.gw_score }
    else if k == 6 { form.mo_score }
    else { form.ow_score }
}

impl Model {
    /// No list is so long that its next ids could overflow.
    pub open spec fn lengths_fit(self) -> bool {
        &&& self.users.len() < 0x4000_0000_0000_0000
        &&& self.groups.len() < 0x4000_0000_0000_0000
        &&& self.spar_series.len() < 0x4000_0000_0000_0000
        &&& self.spar_series_members.len() < 0x4000_0000_0000_0000
        &&& self.spars.len() < 0x4000_0000_0000_0000
        &&& self.spar_signups.len() < 0x4000_0000_0000_0000
        &&& self.ballots.len() < 0x4000_0000_0000_0000
        &&& self.ballot_entries.len() < 0x4000_0000_0000_0000
    }

    /// The first user may be created: there is no user yet, and the user
    /// has a username, a long enough password, a valid email address and a
    /// valid username.
    pub open spec fn setup_accepted(self, user: User) -> bool {
        &&& self.users.len() == 0
        &&& user.username is Some
        &&& valid_password(user.password_hash@)
        &&& valid_email(user.email@)
        &&& valid_username(user.username->0@)
    }

    /// After `Setup(user)`: the user is stored with id 0, an unverified
    /// email address and signing power.
    pub open spec fn after_setup(self, user: User, public_id: String) -> Model {
        if self.setup_accepted(user) {
            Model {
                users: self.users.push(User {
                    id: 0,
                    public_id: public_id,
                    email_verified: false,
                    is_superuser: true,
                    ..user
                }),
                ..self
            }
        } else {
            self
        }
    }

    /// After `Login(i)`: the clamped `i`th user is logged in, if there is
    /// any user.
    pub open spec fn after_login(self, i: usize) -> Model {
        if self.users.len() > 0 {
            Model { active_user: Some(self.users[clamped(i, self.users.len())]), ..self }
        } else {
            self
        }
    }

    /// Some group has the name of `group`, or its website.
    pub open spec fn group_clashes(self, group: Group) -> bool {
        exists|k: int|
            0 <= k < self.groups.len() && ((#[trigger] self.groups[k]).name@ == group.name@ || (
            group.website is Some && same_text(group.website, self.groups[k].website)))
    }

    /// After `CreateGroup(group)`: a logged-in user creates a group with a
    /// valid name that no group has, and whose website no group has; the
    /// user becomes its administrator with signing power.
    pub open spec fn after_create_group(self, group: Group, public_id: String) -> Model {
        if self.active_user is Some && valid_group_name(group.name@) && !self.group_clashes(group) {
            let n = self.groups.len();
            Model {
                groups: self.groups.push(Group { id: n as i64, public_id: public_id, ..group }),
                group_members: self.group_members.push(
                    GroupMembershipEntry {
                        user: self.active_user->0.id as usize,
                        group: n as i64,
                        data: GroupMembershipData { is_admin: true, is_superuser: true },
                    },
                ),
                ..self
            }
        } else {
            self
        }
    }

    /// After `CreateSparSeries(series)`: the series is created in the
    /// group that its clamped group id names, when the logged-in user
    /// administers that group and no series of the group has its title.
    pub open spec fn after_create_spar_series(self, series: SparSeries, public_id: String) -> Model {
        let g = clamped(series.group_id as usize, self.groups.len());
        if self.groups.len() > 0 && self.active_user_administers(self.groups[g].id) && !(exists|k: int|
            0 <= k < self.spar_series.len() && (#[trigger] self.spar_series[k]).group_id
                == self.groups[g].id && self.spar_series[k].title@ == series.title@) {
            Model {
                spar_series: self.spar_series.push(
                    SparSeries {
                        id: self.spar_series.len() as i64,
                        group_id: self.groups[g].id,
                        public_id: public_id,
                        ..series
                    },
                ),
                ..self
            }
        } else {
            self
        }
    }

    /// After `CreateSpar(spar)`: the spar is created, not complete and with
    /// its draw withheld, in the series that its clamped series id names,
    /// when the logged-in user administers the series' group and every
    /// earlier spar of the series is complete.
    pub open spec fn after_create_spar(self, spar: Spar, public_id: String) -> Model {
        let si = clamped(spar.spar_series_id as usize, self.spar_series.len());
        let series = self.spar_series[si];
        if self.spar_series.len() > 0 && (series.group_id as usize) < self.groups.len()
            && self.active_user_administers(self.groups[series.group_id as usize as int].id)
            && (forall|k: int|
            0 <= k < self.spars.len() && (#[trigger] self.spars[k]).spar_series_id as usize == si
                ==> self.spars[k].is_complete) {
            Model {
                spars: self.spars.push(
                    Spar {
                        id: self.spars.len() as i64,
                        spar_series_id: series.id,
                        is_complete: false,
                        release_draw: false,
                        public_id: public_id,
                        ..spar
                    },
                ),
                ..self
            }
        } else {
            self
        }
    }

    /// Sign-up `k` is the first one of the member for the spar.
    pub open spec fn is_first_signup(self, member_id: i64, spar_id: i64, k: int) -> bool {
        &&& 0 <= k < self.spar_signups.len()
        &&& self.spar_signups[k].member_id == member_id
        &&& self.spar_signups[k].spar_id == spar_id
        &&& forall|j: int|
            0 <= j < k ==> !((#[trigger] self.spar_signups[j]).member_id == member_id
                && self.spar_signups[j].spar_id == spar_id)
    }

    /// After `Signup`: when the spar (clamped by the number of sign-ups)
    /// and the member exist and the spar is open, the member's first
    /// sign-up for it is updated, or a new one is made.
    pub open spec fn after_signup(
        self,
        member_idx: usize,
        spar_idx: usize,
        as_judge: bool,
        as_speaker: bool,
        public_id: String,
    ) -> Model {
        let si = clamped(spar_idx, self.spar_signups.len());
        let mi = clamped(member_idx, self.spar_series_members.len());
        if si < self.spars.len() && mi < self.spar_series_members.len() && self.spars[si].is_open {
            let member_id = self.spar_series_members[mi].id;
            let spar_id = self.spars[si].id;
            if exists|k: int| self.is_first_signup(member_id, spar_id, k) {
                let k = choose|k: int| self.is_first_signup(member_id, spar_id, k);
                Model {
                    spar_signups: self.spar_signups.update(
                        k,
                        SparSignup { as_judge: as_judge, as_speaker: as_speaker, ..self.spar_signups[k] },
                    ),
                    ..self
                }
            } else {
                Model {
                    spar_signups: self.spar_signups.push(
                        SparSignup {
                            id: self.spar_signups.len() as i64,
                            public_id: public_id,
                            member_id: member_id,
                            spar_id: spar_id,
                            as_judge: as_judge,
                            as_speaker: as_speaker,
                        },
                    ),
                    ..self
                }
            }
        } else {
            self
        }
    }
}

impl Model {
    /// Team `k` is the first team of the room with id `room_id` that
    /// speaks at `position`.
    pub open spec fn is_first_team(self, room_id: i64, position: i64, k: int) -> bool {
        &&& 0 <= k < self.teams.len()
        &&& self.teams[k].room_id == room_id
        &&& self.teams[k].position == position
        &&& forall|j: int|
            0 <= j < k ==> !((#[trigger] self.teams[j]).room_id == room_id
                && self.teams[j].position == position)
    }

    /// The room has a team at `position`.
    pub open spec fn has_team(self, room_id: i64, position: i64) -> bool {
        exists|k: int| self.is_first_team(room_id, position, k)
    }

    /// The first team of the room at `position`.
    pub open spec fn team_at(self, room_id: i64, position: i64) -> SparRoomTeam {
        self.teams[choose|k: int| self.is_first_team(room_id, position, k)]
    }

    /// The speaker that the `k`th entry of the form names.
    pub open spec fn form_speaker_record(self, form: FuzzerBpBallotForm, k: int) -> SparRoomTeamSpeaker {
        self.speakers[clamped(form_speaker(form, k), self.speakers.len())]
    }

    /// The ballot can be recorded: there are adjudicators, rooms and
    /// speakers, the room (clamped) has all four teams, and each pair of
    /// speakers of the form belongs to its team.
    pub open spec fn ballot_accepted(self, form: FuzzerBpBallotForm, room_idx: usize) -> bool {
        let room_id = self.rooms[clamped(room_idx, self.rooms.len())].id;
        &&& self.adjs.len() > 0
        &&& self.rooms.len() > 0
        &&& self.speakers.len() > 0
        &&& forall|t: int| 0 <= t < 4 ==> #[trigger] self.has_team(room_id, t as i64)
        &&& forall|k: int|
            0 <= k < 8 ==> (#[trigger] self.form_speaker_record(form, k)).team_id == self.team_at(
                room_id,
                (k / 2) as i64,
            ).id
    }

    /// The `k`th entry of the ballot with id `ballot_id`.
    pub open spec fn ballot_entry(
        self,
        form: FuzzerBpBallotForm,
        room_id: i64,
        ballot_id: i64,
        entry_ids: Seq<String>,
        k: int,
    ) -> AdjudicatorBallotEntry {
        AdjudicatorBallotEntry {
            id: (self.ballot_entries.len() + k) as i64,
            public_id: entry_ids[k],
            ballot_id: ballot_id,
            speaker_id: self.form_speaker_record(form, k).id,
            team_id: self.team_at(room_id, (k / 2) as i64).id,
            speak: form_score(form, k),
            position: (k % 2) as i64,
        }
    }

    /// After `SubmitBallot(form, adj_idx, room_idx)`: an accepted ballot
    /// is stored for the clamped adjudicator and room, with one entry per
    /// speaker.
    pub open spec fn after_submit_ballot(
        self,
        form: FuzzerBpBallotForm,
        adj_idx: usize,
        room_idx: usize,
        fresh: FreshValues,
    ) -> Model {
        let room_id = self.rooms[clamped(room_idx, self.rooms.len())].id;
        let ballot_id = self.ballots.len() as i64;
        if self.ballot_accepted(form, room_idx) {
            Model {
                ballots: self.ballots.push(
                    AdjudicatorBallot {
                        id: ballot_id,
                        public_id: fresh.public_id,
                        adjudicator_id: self.adjs[clamped(adj_idx, self.adjs.len())].id,
                        room_id: room_id,
                        created_at: fresh.now,
                    },
                ),
                ballot_entries: self.ballot_entries + Seq::new(
                    8,
                    |k: int| self.ballot_entry(form, room_id, ballot_id, fresh.entry_ids@, k),
                ),
                ..self
            }
        } else {
            self
        }
    }

    /// After `AddMember(member)`: a member with a valid name and email
    /// address joins the series that its series id names (clamped by the
    /// number of members), when the logged-in user administers the
    /// series' group.
    pub open spec fn after_add_member(self, member: SparSeriesMember, public_id: String) -> Model {
        let si = clamped(member.spar_series_id as usize, self.spar_series_members.len());
        if valid_username(member.name@) && valid_email(member.email@) && si
            < self.spar_series.len() && self.active_user_administers(
            self.groups[self.spar_series[si].group_id as usize as int].id,
        ) {
            Model {
                spar_series_members: self.spar_series_members.push(
                    SparSeriesMember {
                        spar_series_id: self.spar_series[si].id,
                        id: self.spar_series_members.len() as i64,
                        public_id: public_id,
                        ..member
                    },
                ),
                ..self
            }
        } else {
            self
        }
    }

    /// The logged-in user administers the group of the series of spar
    /// `si`.
    pub open spec fn administers_spar(self, si: int) -> bool {
        let series = self.spar_series[self.spars[si].spar_series_id as usize as int];
        self.active_user_administers(self.groups[series.group_id as usize as int].id)
    }

    /// After `ReleaseDraw(i)`: the draw of the clamped `i`th spar is
    /// released and its sign-ups closed, when the logged-in user
    /// administers it.
    pub open spec fn after_release_draw(self, spar_idx: usize) -> Model {
        let si = clamped(spar_idx, self.spars.len());
        if self.spars.len() > 0 && self.administers_spar(si) {
            Model {
                spars: self.spars.update(
                    si,
                    Spar { release_draw: true, is_open: false, ..self.spars[si] },
                ),
                ..self
            }
        } else {
            self
        }
    }

    /// After `SetSparIsOpen { spar, state }`: sign-ups for the clamped
    /// spar are opened or closed, when the logged-in user administers it;
    /// opening them withdraws the draw.
    pub open spec fn after_set_spar_is_open(self, spar_idx: usize, state: bool) -> Model {
        let si = clamped(spar_idx, self.spars.len());
        if self.spars.len() > 0 && self.administers_spar(si) {
            Model {
                spars: self.spars.update(
                    si,
                    Spar {
                        is_open: state,
                        release_draw: if state { false } else { self.spars[si].release_draw },
                        ..self.spars[si]
                    },
                ),
                ..self
            }
        } else {
            self
        }
    }

    /// The model after one action. Generating a draw leaves it as it is:
    /// the model is then reloaded from the service.
    pub open spec fn after(self, action: Action, fresh: FreshValues) -> Model {
        match action {
            Action::Setup(user) => self.after_setup(user, fresh.public_id),
            Action::Login(i) => self.after_login(i),
            Action::CreateGroup(group) => self.after_create_group(group, fresh.public_id),
            Action::CreateSparSeries(series) => self.after_create_spar_series(series, fresh.public_id),
            Action::AddMember(member) => self.after_add_member(member, fresh.public_id),
            Action::CreateSpar(spar) => self.after_create_spar(spar, fresh.public_id),
            Action::ReleaseDraw(i) => self.after_release_draw(i),
            Action::Signup { member_idx, spar_idx, as_judge, as_speaker } => self.after_signup(
                member_idx,
                spar_idx,
                as_judge,
                as_speaker,
                fresh.public_id,
            ),
            Action::GenerateDraw(_) => self,
            Action::SubmitBallot(form, adj_idx, room_idx) => self.after_submit_ballot(
                form,
                adj_idx,
                room_idx,
                fresh,
            ),
            Action::SetSparIsOpen { spar, state } => self.after_set_spar_is_open(spar, state),
        }
    }
}

/// What the caller has to do after the action: reload the model after a
/// draw was generated, else nothing.
pub open spec fn outcome_of(action: Action) -> StepOutcome {
    match action {
        Action::GenerateDraw(_) => StepOutcome::Reload,
        _ => StepOutcome::Done,
    }
}

/// The model, with its records in growable lists.
pub struct State {
    pub users: Vec<User>,
    pub groups: Vec<Group>,
    /// One entry per user and group (a list, since a map keyed by a
    /// user and a group would rest on a derived hash that the verifier
    /// does not read).
    pub group_members: Vec<GroupMembershipEntry>,
    pub spar_series: Vec<SparSeries>,
    pub spar_series_members: Vec<SparSeriesMember>,
    pub spars: Vec<Spar>,
    pub spar_signups: Vec<SparSignup>,
    pub active_user: Option<User>,
    pub rooms: Vec<SparRoom>,
    pub teams: Vec<SparRoomTeam>,
    pub adjs: Vec<SparRoomAdjudicator>,
    pub speakers: Vec<SparRoomTeamSpeaker>,
    pub ballots: Vec<AdjudicatorBallot>,
    pub ballot_links: Vec<AdjudicatorBallotLink>,
    pub ballot_entries: Vec<AdjudicatorBallotEntry>,
}

impl View for State {
    type V = Model;

    open spec fn view(&self) -> Model {
        Model {
            users: self.users@,
            groups: self.groups@,
            group_members: self.group_members@,
            spar_series: self.spar_series@,
            spar_series_members: self.spar_series_members@,
            spars: self.spars@,
            spar_signups: self.spar_signups@,
            active_user: self.active_user,
            rooms: self.rooms@,
            teams: self.teams@,
            adjs: self.adjs@,
            speakers: self.speakers@,
            ballots: self.ballots@,
            ballot_links: self.ballot_links@,
            ballot_entries: self.ballot_entries@,
        }
    }
}

/// The model with no records and nobody logged in.
pub open spec fn empty_model() -> Model {
    Model {
        users: Seq::empty(),
        groups: Seq::empty(),
        group_members: Seq::empty(),
        spar_series: Seq::empty(),
        spar_series_members: Seq::empty(),
        spars: Seq::empty(),
        spar_signups: Seq::empty(),
        active_user: None,
        rooms: Seq::empty(),
        teams: Seq::empty(),
        adjs: Seq::empty(),
        speakers: Seq::empty(),
        ballots: Seq::empty(),
        ballot_links: Seq::empty(),
        ballot_entries: Seq::empty(),
    }
}

/// The index that `i` is clamped to in a list of `len` records.
pub(crate) fn clamp_index(i: usize, len: usize) -> (r: usize)
    ensures
        r == clamped(i, len as nat),
{
    if len == 0 {
        0
    } else if i < len {
        i
    } else {
        len - 1
    }
}

impl State {
    /// An empty model.
    pub fn new() -> (s: State)
        ensures
            s@ == empty_model(),
            s@.well_formed(),
    {
        State {
            users: Vec::new(),
            groups: Vec::new(),
            group_members: Vec::new(),
            spar_series: Vec::new(),
            spar_series_members: Vec::new(),
            spars: Vec::new(),
            spar_signups: Vec::new(),
            active_user: None,
            rooms: Vec::new(),
            teams: Vec::new(),
            adjs: Vec::new(),
            speakers: Vec::new(),
            ballots: Vec::new(),
            ballot_links: Vec::new(),
            ballot_entries: Vec::new(),
        }
    }

    /// Forgets every record and logs out.
    pub fn reset(&mut self)
        ensures
            final(self)@ == empty_model(),
    {
        self.active_user = None;
        self.users.clear();
        self.groups.clear();
        self.group_members.clear();
        self.spar_series.clear();
        self.spar_series_members.clear();
        self.spars.clear();
        self.spar_signups.clear();
        self.rooms.clear();
        self.teams.clear();
        self.adjs.clear();
        self.speakers.clear();
        self.ballots.clear();
        self.ballot_links.clear();
        self.ballot_entries.clear();
    }

    /// The rights that user `user` holds in group `group`, if any.
    fn membership(&self, user: usize, group: i64) -> (r: Option<GroupMembershipData>)
        requires
            self@.well_formed(),
        ensures
            r == self@.membership(user, group),
    {
        let mut i: usize = 0;
        while i < self.group_members.len()
            invariant
                self@.well_formed(),
                0 <= i <= self.group_members.len(),
                forall|j: int|
                    0 <= j < i ==> !((#[trigger] self.group_members@[j]).user == user
                        && self.group_members@[j].group == group),
            decreases self.group_members.len() - i,
        {
            let e = self.group_members[i];
            if e.user == user && e.group == group {
                proof {
                    assert(self@.group_members[i as int].user == user && self@.group_members[i as int].group == group);
                    let k = choose|k: int|
                        0 <= k < self@.group_members.len() && (#[trigger] self@.group_members[k]).user
                            == user && self@.group_members[k].group == group;
                    if k != i {
                        assert(self@.group_members[i as int].user == user);
                    }
                }
                return Some(e.data);
            }
            i = i + 1;
        }
        None
    }

    /// The logged-in user administers the group with the given id.
    fn active_user_administers(&self, group: i64) -> (b: bool)
        requires
            self@.well_formed(),
        ensures
            b == self@.active_user_administers(group),
    {
        match &self.active_user {
            None => false,
            Some(user) => match self.membership(user.id as usize, group) {
                None => false,
                Some(m) => m.is_admin || m.is_superuser,
            },
        }
    }
}


/// Two optional pieces of text are equal.
pub(crate) fn texts_equal(a: &Option<String>, b: &Option<String>) -> (r: bool)
    ensures
        r == same_text(*a, *b),
{
    match (a, b) {
        (Some(x), Some(y)) => *x == *y,
        (None, None) => true,
        _ => false,
    }
}

/// The speaker index of the `k`th entry of a ballot form.
fn form_speaker_index(form: &FuzzerBpBallotForm, k: usize) -> (r: usize)
    ensures
        r == form_speaker(*form, k as int),
{
    if k == 0 { form.pm }
    else if k == 1 { form.dpm }
    else if k == 2 { form.lo }
    else if k == 3 { form.dlo }
    else if k == 4 { form.mg }
    else if k == 5 { form.gw }
    else if k == 6 { form.mo }
    else { form.ow }
}

/// The score of the `k`th entry of a ballot form.
fn form_speaker_score(form: &FuzzerBpBallotForm, k: usize) -> (r: i64)
    ensures
        r == form_score(*form, k as int),
{
    if k == 0 { form.pm_score }
    else if k == 1 { form.dpm_score }
    else if k == 2 { form.lo_score }
    else if k == 3 { form.dlo_score }
    else if k == 4 { form.mg_score }
    else if k == 5 { form.gw_score }
    else if k == 6 { form.mo_score }
    else { form.ow_score }
}

proof fn lemma_first_team_unique(m: Model, room_id: i64, position: i64, k: int)
    requires
        m.is_first_team(room_id, position, k),
    ensures
        m.has_team(room_id, position),
        m.team_at(room_id, position) == m.teams[k],
{
    let c = choose|c: int| m.is_first_team(room_id, position, c);
    if c < k {
        assert(!(m.teams[c].room_id == room_id && m.teams[c].position == position));
    }
    if k < c {
        assert(!(m.teams[k].room_id == room_id && m.teams[k].position == position));
    }
}

proof fn lemma_first_signup_unique(m: Model, member_id: i64, spar_id: i64, k: int)
    requires
        m.is_first_signup(member_id, spar_id, k),
    ensures
        (choose|c: int| m.is_first_signup(member_id, spar_id, c)) == k,
{
    let c = choose|c: int| m.is_first_signup(member_id, spar_id, c);
    if c < k {
        assert(!(m.spar_signups[c].member_id == member_id && m.spar_signups[c].spar_id == spar_id));
    }
    if k < c {
        assert(!(m.spar_signups[k].member_id == member_id && m.spar_signups[k].spar_id == spar_id));
    }
}

impl State {
    /// The first team of the room at `position`, by index.
    fn find_team(&self, room_id: i64, position: i64) -> (r: Option<usize>)
        ensures
            match r {
                Some(k) => self@.is_first_team(room_id, position, k as int),
                None => !self@.has_team(room_id, position),
            },
    {
        let mut k: usize = 0;
        while k < self.teams.len()
            invariant
                0 <= k <= self.teams.len(),
                forall|j: int|
                    0 <= j < k ==> !((#[trigger] self@.teams[j]).room_id == room_id
                        && self@.teams[j].position == position),
            decreases self.teams.len() - k,
        {
            if self.teams[k].room_id == room_id && self.teams[k].position == position {
                return Some(k);
            }
            k = k + 1;
        }
        proof {
            if self@.has_team(room_id, position) {
                let c = choose|c: int| self@.is_first_team(room_id, position, c);
                assert(!(self@.teams[c].room_id == room_id && self@.teams[c].position == position));
            }
        }
        None
    }

    fn step_setup(&mut self, user: &User, public_id: &String)
        ensures
            final(self)@ == old(self)@.after_setup(*user, *public_id),
    {
        if self.users.len() != 0 {
            return;
        }
        let username = match &user.username {
            None => return,
            Some(name) => name,
        };
        if !User::validate_password(&user.password_hash) {
            return;
        }
        if !User::validate_email(&user.email) {
            return;
        }
        if !User::validate_username(username) {
            return;
        }
        let mut user = user.clone();
        user.id = 0;
        user.email_verified = false;
        user.is_superuser = true;
        user.public_id = public_id.clone();
        self.users.push(user);
    }

    fn step_login(&mut self, i: usize)
        ensures
            final(self)@ == old(self)@.after_login(i),
    {
        if self.users.len() > 0 {
            let c = clamp_index(i, self.users.len());
            self.active_user = Some(self.users[c].clone());
        }
    }

    #[verifier::loop_isolation(false)]
    fn step_create_group(&mut self, group: &Group, public_id: &String)
        requires
            old(self)@.lengths_fit(),
        ensures
            final(self)@ == old(self)@.after_create_group(*group, *public_id),
    {
        let user_id = match &self.active_user {
            None => return,
            Some(user) => user.id,
        };
        if !Group::validate_name(&group.name) {
            return;
        }
        let mut k: usize = 0;
        while k < self.groups.len()
            invariant
                0 <= k <= self.groups.len(),
                forall|j: int|
                    0 <= j < k ==> !((#[trigger] self@.groups[j]).name@ == group.name@ || (
                    group.website is Some && same_text(group.website, self@.groups[j].website))),
            decreases self.groups.len() - k,
        {
            let t = &self.groups[k];
            if t.name == group.name || (group.website.is_some() && texts_equal(&group.website, &t.website)) {
                assert(self@.group_clashes(*group)) by {
                    assert(self@.groups[k as int] == *t);
                }
                return;
            }
            k = k + 1;
        }
        let n = self.groups.len();
        let mut g = group.clone();
        g.id = n as i64;
        g.public_id = public_id.clone();
        self.groups.push(g);
        self.group_members.push(
            GroupMembershipEntry {
                user: user_id as usize,
                group: n as i64,
                data: GroupMembershipData { is_admin: true, is_superuser: true },
            },
        );
    }

    #[verifier::loop_isolation(false)]
    fn step_create_spar_series(&mut self, series: &SparSeries, public_id: &String)
        requires
            old(self)@.well_formed(),
            old(self)@.lengths_fit(),
        ensures
            final(self)@ == old(self)@.after_create_spar_series(*series, *public_id),
    {
        if self.active_user.is_none() {
            return;
        }
        let g = clamp_index(series.group_id as usize, self.groups.len());
        if g >= self.groups.len() {
            return;
        }
        let group_id = self.groups[g].id;
        if !self.active_user_administers(group_id) {
            return;
        }
        let mut k: usize = 0;
        while k < self.spar_series.len()
            invariant
                0 <= k <= self.spar_series.len(),
                forall|j: int|
                    0 <= j < k ==> !((#[trigger] self@.spar_series[j]).group_id == group_id
                        && self@.spar_series[j].title@ == series.title@),
            decreases self.spar_series.len() - k,
        {
            let existing = &self.spar_series[k];
            if existing.group_id == group_id && existing.title == series.title {
                assert(self@.spar_series[k as int].group_id == self@.groups[g as int].id
                    && self@.spar_series[k as int].title@ == series.title@);
                return;
            }
            k = k + 1;
        }
        let mut created = series.clone();
        created.id = self.spar_series.len() as i64;
        created.group_id = group_id;
        created.public_id = public_id.clone();
        self.spar_series.push(created);
    }

    #[verifier::loop_isolation(false)]
    fn step_create_spar(&mut self, spar: &Spar, public_id: &String)
        requires
            old(self)@.well_formed(),
            old(self)@.lengths_fit(),
        ensures
            final(self)@ == old(self)@.after_create_spar(*spar, *public_id),
    {
        if self.active_user.is_none() {
            return;
        }
        let si = clamp_index(spar.spar_series_id as usize, self.spar_series.len());
        if si >= self.spar_series.len() {
            return;
        }
        let gi = self.spar_series[si].group_id as usize;
        if gi >= self.groups.len() {
            return;
        }
        if !self.active_user_administers(self.groups[gi].id) {
            return;
        }
        let mut k: usize = 0;
        while k < self.spars.len()
            invariant
                0 <= k <= self.spars.len(),
                forall|j: int|
                    0 <= j < k && (#[trigger] self@.spars[j]).spar_series_id as usize == si
                        ==> self@.spars[j].is_complete,
            decreases self.spars.len() - k,
        {
            if self.spars[k].spar_series_id as usize == si && !self.spars[k].is_complete {
                assert(self@.spars[k as int].spar_series_id as usize == si);
                return;
            }
            k = k + 1;
        }
        let mut created = spar.clone();
        created.id = self.spars.len() as i64;
        created.spar_series_id = self.spar_series[si].id;
        created.is_complete = false;
        created.release_draw = false;
        created.public_id = public_id.clone();
        self.spars.push(created);
    }

    #[verifier::loop_isolation(false)]
    fn step_signup(
        &mut self,
        member_idx: usize,
        spar_idx: usize,
        as_judge: bool,
        as_speaker: bool,
        public_id: &String,
    )
        requires
            old(self)@.well_formed(),
            old(self)@.lengths_fit(),
        ensures
            final(self)@ == old(self)@.after_signup(member_idx, spar_idx, as_judge, as_speaker, *public_id),
    {
        let si = clamp_index(spar_idx, self.spar_signups.len());
        let mi = clamp_index(member_idx, self.spar_series_members.len());
        if si >= self.spars.len() || mi >= self.spar_series_members.len() {
            return;
        }
        if !self.spars[si].is_open {
            return;
        }
        assert(!self@.spars[si as int].release_draw);
        let member_id = self.spar_series_members[mi].id;
        let spar_id = self.spars[si].id;
        let ghost m0 = self@;
        let mut k: usize = 0;
        while k < self.spar_signups.len()
            invariant
                self@ == m0,
                0 <= k <= self.spar_signups.len(),
                forall|j: int|
                    0 <= j < k ==> !((#[trigger] self@.spar_signups[j]).member_id == member_id
                        && self@.spar_signups[j].spar_id == spar_id),
            decreases self.spar_signups.len() - k,
        {
            if self.spar_signups[k].member_id == member_id && self.spar_signups[k].spar_id == spar_id {
                proof {
                    assert(m0.is_first_signup(member_id, spar_id, k as int));
                    lemma_first_signup_unique(m0, member_id, spar_id, k as int);
                }
                let entry = &mut self.spar_signups[k];
                entry.as_judge = as_judge;
                entry.as_speaker = as_speaker;
                assert(self@.spar_signups =~= m0.spar_signups.update(
                    k as int,
                    SparSignup { as_judge: as_judge, as_speaker: as_speaker, ..m0.spar_signups[k as int] },
                ));
                assert(self@ =~= m0.after_signup(member_idx, spar_idx, as_judge, as_speaker, *public_id));
                return;
            }
            k = k + 1;
        }
        proof {
            if exists|c: int| m0.is_first_signup(member_id, spar_id, c) {
                let c = choose|c: int| m0.is_first_signup(member_id, spar_id, c);
                assert(!(m0.spar_signups[c].member_id == member_id && m0.spar_signups[c].spar_id == spar_id));
            }
        }
        let id = self.spar_signups.len() as i64;
        self.spar_signups.push(
            SparSignup {
                id,
                public_id: public_id.clone(),
                member_id,
                spar_id,
                as_judge,
                as_speaker,
            },
        );
    }
}


impl State {
    #[verifier::loop_isolation(false)]
    fn step_submit_ballot(
        &mut self,
        form: &FuzzerBpBallotForm,
        adj_idx: usize,
        room_idx: usize,
        fresh: &FreshValues,
    )
        requires
            old(self)@.lengths_fit(),
            fresh.entry_ids.len() == 8,
        ensures
            final(self)@ == old(self)@.after_submit_ballot(*form, adj_idx, room_idx, *fresh),
    {
        let ghost m0 = self@;
        let ai = clamp_index(adj_idx, self.adjs.len());
        let ri = clamp_index(room_idx, self.rooms.len());
        let ghost room_id0 = m0.rooms[clamped(room_idx, m0.rooms.len())].id;
        if ai >= self.adjs.len() || ri >= self.rooms.len() || self.speakers.len() == 0 {
            return;
        }
        let room_id = self.rooms[ri].id;
        let mut team_ids: Vec<i64> = Vec::new();
        let mut t: usize = 0;
        while t < 4
            invariant
                self@ == m0,
                room_id == room_id0,
                0 <= t <= 4,
                team_ids@.len() == t,
                forall|u: int| 0 <= u < t ==> #[trigger] m0.has_team(room_id, u as i64),
                forall|u: int| 0 <= u < t ==> team_ids@[u] == m0.team_at(room_id, u as i64).id,
            decreases 4 - t,
        {
            match self.find_team(room_id, t as i64) {
                None => {
                    assert(!m0.ballot_accepted(*form, room_idx)) by {
                        assert(!m0.has_team(room_id, t as int as i64));
                    }
                    return;
                },
                Some(k) => {
                    proof {
                        lemma_first_team_unique(m0, room_id, t as i64, k as int);
                    }
                    team_ids.push(self.teams[k].id);
                },
            }
            t = t + 1;
        }
        let n = self.speakers.len();
        let mut speaker_ids: Vec<i64> = Vec::new();
        let mut k: usize = 0;
        while k < 8
            invariant
                self@ == m0,
                room_id == room_id0,
                n == m0.speakers.len(),
                n > 0,
                0 <= k <= 8,
                team_ids@.len() == 4,
                forall|u: int| 0 <= u < 4 ==> #[trigger] m0.has_team(room_id, u as i64),
                forall|u: int| 0 <= u < 4 ==> team_ids@[u] == m0.team_at(room_id, u as i64).id,
                speaker_ids@.len() == k,
                forall|j: int|
                    0 <= j < k ==> speaker_ids@[j] == (#[trigger] m0.form_speaker_record(*form, j)).id,
                forall|j: int|
                    0 <= j < k ==> (#[trigger] m0.form_speaker_record(*form, j)).team_id
                        == m0.team_at(room_id, (j / 2) as i64).id,
            decreases 8 - k,
        {
            let idx = clamp_index(form_speaker_index(form, k), n);
            let speaker = &self.speakers[idx];
            assert(*speaker == m0.form_speaker_record(*form, k as int));
            if speaker.team_id != team_ids[k / 2] {
                assert(!m0.ballot_accepted(*form, room_idx)) by {
                    assert(m0.form_speaker_record(*form, k as int).team_id != m0.team_at(
                        room_id,
                        (k as int / 2) as i64,
                    ).id);
                }
                return;
            }
            speaker_ids.push(speaker.id);
            k = k + 1;
        }
        assert(m0.ballot_accepted(*form, room_idx));
        let ballot_id = self.ballots.len() as i64;
        self.ballots.push(
            AdjudicatorBallot {
                id: ballot_id,
                public_id: fresh.public_id.clone(),
                adjudicator_id: self.adjs[ai].id,
                room_id,
                created_at: fresh.now.clone(),
            },
        );
        let ghost m1 = self@;
        let first_entry = self.ballot_entries.len();
        let mut k: usize = 0;
        while k < 8
            invariant
                0 <= k <= 8,
                first_entry == m0.ballot_entries.len(),
                m0.lengths_fit(),
                team_ids@.len() == 4,
                forall|u: int| 0 <= u < 4 ==> team_ids@[u] == m0.team_at(room_id, u as i64).id,
                speaker_ids@.len() == 8,
                forall|j: int|
                    0 <= j < 8 ==> speaker_ids@[j] == (#[trigger] m0.form_speaker_record(*form, j)).id,
                self@ == (Model {
                    ballot_entries: m0.ballot_entries + Seq::new(
                        k as nat,
                        |j: int| m0.ballot_entry(*form, room_id, ballot_id, fresh.entry_ids@, j),
                    ),
                    ..m1
                }),
            decreases 8 - k,
        {
            let entry = AdjudicatorBallotEntry {
                id: first_entry as i64 + k as i64,
                public_id: fresh.entry_ids[k].clone(),
                ballot_id,
                speaker_id: speaker_ids[k],
                team_id: team_ids[k / 2],
                speak: form_speaker_score(form, k),
                position: (k % 2) as i64,
            };
            assert(entry == m0.ballot_entry(*form, room_id, ballot_id, fresh.entry_ids@, k as int));
            self.ballot_entries.push(entry);
            assert(self@.ballot_entries =~= m0.ballot_entries + Seq::new(
                (k + 1) as nat,
                |j: int| m0.ballot_entry(*form, room_id, ballot_id, fresh.entry_ids@, j),
            ));
            k = k + 1;
        }
        assert(self@ =~= m0.after_submit_ballot(*form, adj_idx, room_idx, *fresh));
    }

    fn step_add_member(&mut self, member: &SparSeriesMember, public_id: &String)
        requires
            old(self)@.well_formed(),
            old(self)@.lengths_fit(),
        ensures
            final(self)@ == old(self)@.after_add_member(*member, *public_id),
    {
        if !User::validate_username(&member.name) || !User::validate_email(&member.email) {
            return;
        }
        if self.active_user.is_none() {
            return;
        }
        let si = clamp_index(member.spar_series_id as usize, self.spar_series_members.len());
        if si >= self.spar_series.len() {
            return;
        }
        let gi = self.spar_series[si].group_id as usize;
        let group_id = self.groups[gi].id;
        if !self.active_user_administers(group_id) {
            return;
        }
        let mut added = member.clone();
        added.spar_series_id = self.spar_series[si].id;
        added.id = self.spar_series_members.len() as i64;
        added.public_id = public_id.clone();
        self.spar_series_members.push(added);
    }

    /// The index of the clamped spar, when the logged-in user administers
    /// it.
    fn administered_spar(&self, spar_idx: usize) -> (r: Option<usize>)
        requires
            self@.well_formed(),
        ensures
            match r {
                Some(si) => si == clamped(spar_idx, self@.spars.len()) && si < self@.spars.len()
                    && self@.administers_spar(si as int),
                None => !(self@.spars.len() > 0 && self@.administers_spar(
                    clamped(spar_idx, self@.spars.len()),
                )),
            },
    {
        if self.active_user.is_none() {
            return None;
        }
        let si = clamp_index(spar_idx, self.spars.len());
        if si >= self.spars.len() {
            return None;
        }
        let series_idx = self.spars[si].spar_series_id as usize;
        let gi = self.spar_series[series_idx].group_id as usize;
        if self.active_user_administers(self.groups[gi].id) {
            Some(si)
        } else {
            None
        }
    }

    fn step_release_draw(&mut self, spar_idx: usize)
        requires
            old(self)@.well_formed(),
        ensures
            final(self)@ == old(self)@.after_release_draw(spar_idx),
    {
        if let Some(si) = self.administered_spar(spar_idx) {
            let ghost m0 = self@;
            self.spars[si].release();
            assert(self@.spars =~= m0.spars.update(
                si as int,
                Spar { release_draw: true, is_open: false, ..m0.spars[si as int] },
            ));
        }
    }

    fn step_set_spar_is_open(&mut self, spar_idx: usize, state: bool)
        requires
            old(self)@.well_formed(),
        ensures
            final(self)@ == old(self)@.after_set_spar_is_open(spar_idx, state),
    {
        if let Some(si) = self.administered_spar(spar_idx) {
            let ghost m0 = self@;
            self.spars[si].set_is_open(state);
            assert(self@.spars =~= m0.spars.update(
                si as int,
                Spar {
                    is_open: state,
                    release_draw: if state { false } else { m0.spars[si as int].release_draw },
                    ..m0.spars[si as int]
                },
            ));
        }
    }
}


/// Every step keeps each record's id equal to its index, whatever else
/// holds of the model: new records get the next index as their id, and
/// changed records keep theirs.
pub proof fn lemma_step_keeps_ids(m: Model, action: Action, fresh: FreshValues)
    requires
        m.ids_are_indices(),
        m.lengths_fit(),
    ensures
        m.after(action, fresh).ids_are_indices(),
{
    let r = m.after(action, fresh);
    match action {
        Action::Signup { member_idx, spar_idx, as_judge, as_speaker } => {
            let si = clamped(spar_idx, m.spar_signups.len());
            let mi = clamped(member_idx, m.spar_series_members.len());
            if si < m.spars.len() && mi < m.spar_series_members.len() && m.spars[si].is_open {
                let member_id = m.spar_series_members[mi].id;
                let spar_id = m.spars[si].id;
                if exists|k: int| m.is_first_signup(member_id, spar_id, k) {
                    let k = choose|k: int| m.is_first_signup(member_id, spar_id, k);
                    assert forall|i: int| 0 <= i < r.spar_signups.len() implies #[trigger] r.spar_signups[i].id == i by {
                        if i != k {
                            assert(r.spar_signups[i] == m.spar_signups[i]);
                        }
                    }
                }
            }
        },
        Action::SubmitBallot(form, adj_idx, room_idx) => {
            if m.ballot_accepted(form, room_idx) {
                assert forall|i: int| 0 <= i < r.ballot_entries.len() implies #[trigger] r.ballot_entries[i].id == i by {
                    if i >= m.ballot_entries.len() {
                        let k = i - m.ballot_entries.len();
                        assert(r.ballot_entries[i] == m.ballot_entry(
                            form,
                            m.rooms[clamped(room_idx, m.rooms.len())].id,
                            m.ballots.len() as i64,
                            fresh.entry_ids@,
                            k,
                        ));
                    }
                }
            }
        },
        Action::ReleaseDraw(spar_idx) => {
            let si = clamped(spar_idx, m.spars.len());
            assert forall|i: int| 0 <= i < r.spars.len() implies #[trigger] r.spars[i].id == i by {
                if i != si {
                    assert(r.spars[i] == m.spars[i]);
                }
            }
        },
        Action::SetSparIsOpen { spar, state } => {
            let si = clamped(spar, m.spars.len());
            assert forall|i: int| 0 <= i < r.spars.len() implies #[trigger] r.spars[i].id == i by {
                if i != si {
                    assert(r.spars[i] == m.spars[i]);
                }
            }
        },
        _ => {},
    }
}

/// Every step keeps the model well formed: every record's id stays its
/// index, references between records stay in range, each user keeps at
/// most one entry per group, and no open spar ever has its draw released.
pub proof fn lemma_step_keeps_well_formed(m: Model, action: Action, fresh: FreshValues)
    requires
        m.well_formed(),
        m.lengths_fit(),
    ensures
        m.after(action, fresh).well_formed(),
{
    let r = m.after(action, fresh);
    match action {
        Action::CreateGroup(group) => {
            if r != m {
                let n = m.groups.len();
                assert forall|i: int, j: int|
                    0 <= i < j < r.group_members.len() implies (#[trigger] r.group_members[i]).user
                    != (#[trigger] r.group_members[j]).user || r.group_members[i].group
                    != r.group_members[j].group by {
                    if j == m.group_members.len() {
                        assert(r.group_members[i] == m.group_members[i]);
                        assert(m.group_members[i].group < n);
                    } else {
                        assert(r.group_members[i] == m.group_members[i]);
                        assert(r.group_members[j] == m.group_members[j]);
                    }
                }
            }
        },
        Action::CreateSparSeries(series) => {
            let g = clamped(series.group_id as usize, m.groups.len());
            if m.groups.len() > 0 {
                assert(m.groups[g].id == g);
            }
        },
        Action::CreateSpar(spar) => {
            let si = clamped(spar.spar_series_id as usize, m.spar_series.len());
            if m.spar_series.len() > 0 {
                assert(m.spar_series[si].id == si);
            }
        },
        Action::Signup { member_idx, spar_idx, as_judge, as_speaker } => {
            let si = clamped(spar_idx, m.spar_signups.len());
            let mi = clamped(member_idx, m.spar_series_members.len());
            if si < m.spars.len() && mi < m.spar_series_members.len() && m.spars[si].is_open {
                let member_id = m.spar_series_members[mi].id;
                let spar_id = m.spars[si].id;
                if exists|k: int| m.is_first_signup(member_id, spar_id, k) {
                    let k = choose|k: int| m.is_first_signup(member_id, spar_id, k);
                    assert forall|i: int| 0 <= i < r.spar_signups.len() implies #[trigger] r.spar_signups[i].id == i by {
                        if i != k {
                            assert(r.spar_signups[i] == m.spar_signups[i]);
                        }
                    }
                }
            }
        },
        Action::SubmitBallot(form, adj_idx, room_idx) => {
            if m.ballot_accepted(form, room_idx) {
                assert forall|i: int| 0 <= i < r.ballot_entries.len() implies #[trigger] r.ballot_entries[i].id == i by {
                    if i >= m.ballot_entries.len() {
                        let k = i - m.ballot_entries.len();
                        assert(r.ballot_entries[i] == m.ballot_entry(
                            form,
                            m.rooms[clamped(room_idx, m.rooms.len())].id,
                            m.ballots.len() as i64,
                            fresh.entry_ids@,
                            k,
                        ));
                    }
                }
            }
        },
        Action::ReleaseDraw(spar_idx) => {
            let si = clamped(spar_idx, m.spars.len());
            assert forall|i: int| 0 <= i < r.spars.len() implies #[trigger] r.spars[i].id == i
                && 0 <= r.spars[i].spar_series_id < r.spar_series.len()
                && open_spar_unreleased(r.spars[i]) by {
                if i != si {
                    assert(r.spars[i] == m.spars[i]);
                }
            }
        },
        Action::SetSparIsOpen { spar, state } => {
            let si = clamped(spar, m.spars.len());
            assert forall|i: int| 0 <= i < r.spars.len() implies #[trigger] r.spars[i].id == i
                && 0 <= r.spars[i].spar_series_id < r.spar_series.len()
                && open_spar_unreleased(r.spars[i]) by {
                if i != si {
                    assert(r.spars[i] == m.spars[i]);
                }
            }
        },
        _ => {},
    }
}

impl State {
    /// Applies one action to the model, as the service should apply it.
    /// After `GenerateDraw` the model is left as it is and the caller is
    /// asked to reload it from the service.
    pub fn step_model(&mut self, action: &Action, fresh: &FreshValues) -> (o: StepOutcome)
        requires
            old(self)@.well_formed(),
            old(self)@.lengths_fit(),
            fresh.entry_ids.len() == 8,
        ensures
            final(self)@ == old(self)@.after(*action, *fresh),
            final(self)@.well_formed(),
            o == outcome_of(*action),
    {
        proof {
            lemma_step_keeps_well_formed(self@, *action, *fresh);
        }
        match action {
            Action::Setup(user) => self.step_setup(user, &fresh.public_id),
            Action::Login(i) => self.step_login(*i),
            Action::CreateGroup(group) => self.step_create_group(group, &fresh.public_id),
            Action::CreateSparSeries(series) => self.step_create_spar_series(series, &fresh.public_id),
            Action::AddMember(member) => self.step_add_member(member, &fresh.public_id),
            Action::CreateSpar(spar) => self.step_create_spar(spar, &fresh.public_id),
            Action::ReleaseDraw(i) => self.step_release_draw(*i),
            Action::Signup { member_idx, spar_idx, as_judge, as_speaker } => self.step_signup(
                *member_idx,
                *spar_idx,
                *as_judge,
                *as_speaker,
                &fresh.public_id,
            ),
            Action::GenerateDraw(_) => {
                return StepOutcome::Reload;
            },
            Action::SubmitBallot(form, adj_idx, room_idx) => self.step_submit_ballot(
                form,
                *adj_idx,
                *room_idx,
                fresh,
            ),
            Action::SetSparIsOpen { spar, state } => self.step_set_spar_is_open(*spar, *state),
        }
        StepOutcome::Done
    }
}

} // verus!
