//! Records of spar series, spars, sign-ups, rooms, teams, speakers and
//! adjudicators.

use crate::user::copy_text;
use chrono::NaiveDateTime;
use vstd::prelude::*;

verus! {

/// A series of related spars run by a group.
#[derive(Debug)]
pub struct SparSeries {
    pub id: i64,
    pub public_id: String,
    pub title: String,
    pub description: Option<String>,
    pub speakers_per_team: i64,
    pub group_id: i64,
    pub created_at: NaiveDateTime,
    pub allow_join_requests: bool,
    pub auto_approve_join_requests: bool,
}

/// A single spar (one session of debates).
#[derive(Debug)]
pub struct Spar {
    pub id: i64,
    pub public_id: String,
    pub start_time: NaiveDateTime,
    pub is_open: bool,
    pub release_draw: bool,
    pub spar_series_id: i64,
    pub is_complete: bool,
    pub created_at: NaiveDateTime,
}

/// A member's sign-up for a spar, as a judge, a speaker or both.
#[derive(Debug)]
pub struct SparSignup {
    pub id: i64,
    pub public_id: String,
    pub member_id: i64,
    pub spar_id: i64,
    pub as_judge: bool,
    pub as_speaker: bool,
}

/// A team of a room; `position` is its place in the speaking order.
#[derive(Debug)]
pub struct SparRoomTeam {
    pub id: i64,
    pub public_id: String,
    pub room_id: i64,
    pub position: i64,
}

/// A member of a spar series. These are not full user accounts: team
/// members are just recorded, and judges are emailed a link to fill out
/// their ballots when a spar begins.
#[derive(Debug)]
pub struct SparSeriesMember {
    pub id: i64,
    pub public_id: String,
    pub name: String,
    pub email: String,
    pub spar_series_id: i64,
    pub created_at: NaiveDateTime,
}

/// A member speaking in a team.
#[derive(Debug)]
pub struct SparRoomTeamSpeaker {
    pub id: i64,
    pub public_id: String,
    pub member_id: i64,
    pub team_id: i64,
}

/// A member adjudicating in a room; `status` is one of "chair",
/// "panelist" or "trainee".
#[derive(Debug)]
pub struct SparRoomAdjudicator {
    pub id: i64,
    pub public_id: String,
    pub member_id: i64,
    pub room_id: i64,
    pub status: String,
}

impl Clone for SparSeries {
    fn clone(&self) -> (r: Self)
        ensures
            r == *self,
    {
        SparSeries {
            id: self.id,
            public_id: self.public_id.clone(),
            title: self.title.clone(),
            description: copy_text(&self.description),
            speakers_per_team: self.speakers_per_team,
            group_id: self.group_id,
            created_at: self.created_at.clone(),
            allow_join_requests: self.allow_join_requests,
            auto_approve_join_requests: self.auto_approve_join_requests,
        }
    }
}

impl Clone for Spar {
    fn clone(&self) -> (r: Self)
        ensures
            r == *self,
    {
        Spar {
            id: self.id,
            public_id: self.public_id.clone(),
            start_time: self.start_time.clone(),
            is_open: self.is_open,
            release_draw: self.release_draw,
            spar_series_id: self.spar_series_id,
            is_complete: self.is_complete,
            created_at: self.created_at.clone(),
        }
    }
}

impl Clone for SparSignup {
    fn clone(&self) -> (r: Self)
        ensures
            r == *self,
    {
        SparSignup {
            id: self.id,
            public_id: self.public_id.clone(),
            member_id: self.member_id,
            spar_id: self.spar_id,
            as_judge: self.as_judge,
            as_speaker: self.as_speaker,
        }
    }
}

impl Clone for SparRoomTeam {
    fn clone(&self) -> (r: Self)
        ensures
            r == *self,
    {
        SparRoomTeam { id: self.id, public_id: self.public_id.clone(), room_id: self.room_id, position: self.position }
    }
}

impl Clone for SparSeriesMember {
    fn clone(&self) -> (r: Self)
        ensures
            r == *self,
    {
        SparSeriesMember { id: self.id, public_id: self.public_id.clone(), name: self.name.clone(), email: self.email.clone(), spar_series_id: self.spar_series_id, created_at: self.created_at.clone() }
    }
}

impl Clone for SparRoomTeamSpeaker {
    fn clone(&self) -> (r: Self)
        ensures
            r == *self,
    {
        SparRoomTeamSpeaker { id: self.id, public_id: self.public_id.clone(), member_id: self.member_id, team_id: self.team_id }
    }
}

impl Clone for SparRoomAdjudicator {
    fn clone(&self) -> (r: Self)
        ensures
            r == *self,
    {
        SparRoomAdjudicator { id: self.id, public_id: self.public_id.clone(), member_id: self.member_id, room_id: self.room_id, status: self.status.clone() }
    }
}

/// An open spar never has its draw released: the draw is published only
/// once sign-ups have closed.
pub open spec fn open_spar_unreleased(spar: Spar) -> bool {
    spar.is_open ==> !spar.release_draw
}

/// `after` is `before` with nothing but its state flags changed.
pub open spec fn same_spar(before: Spar, after: Spar) -> bool {
    &&& after.id == before.id
    &&& after.public_id == before.public_id
    &&& after.start_time == before.start_time
    &&& after.spar_series_id == before.spar_series_id
    &&& after.created_at == before.created_at
}

/// Sign-ups opened (`state`) or closed; opening them withdraws the draw.
pub open spec fn is_set_open(before: Spar, after: Spar, state: bool) -> bool {
    &&& same_spar(before, after)
    &&& after.is_open == state
    &&& after.release_draw == (if state { false } else { before.release_draw })
    &&& after.is_complete == before.is_complete
}

/// The draw released, sign-ups closed.
pub open spec fn is_released(before: Spar, after: Spar) -> bool {
    &&& same_spar(before, after)
    &&& after.release_draw
    &&& !after.is_open
    &&& after.is_complete == before.is_complete
}

/// The spar marked complete, sign-ups closed.
pub open spec fn is_completed(before: Spar, after: Spar) -> bool {
    &&& same_spar(before, after)
    &&& after.is_complete
    &&& !after.is_open
    &&& after.release_draw == before.release_draw
}

/// A spar as it is created: not complete, draw not released.
pub open spec fn is_new_spar(spar: Spar) -> bool {
    !spar.release_draw && !spar.is_complete
}

impl Spar {
    /// Opens or closes sign-ups; opening them withdraws a released draw.
    pub fn set_is_open(&mut self, state: bool)
        ensures
            is_set_open(*old(self), *final(self), state),
    {
        self.is_open = state;
        if state {
            self.release_draw = false;
        }
    }

    /// Releases the draw, which closes sign-ups.
    pub fn release(&mut self)
        ensures
            is_released(*old(self), *final(self)),
    {
        self.release_draw = true;
        self.is_open = false;
    }

    /// Marks the spar complete, which closes sign-ups.
    pub fn mark_complete(&mut self)
        ensures
            is_completed(*old(self), *final(self)),
    {
        self.is_open = false;
        self.is_complete = true;
    }
}

/// An open spar never has its draw released: a new spar starts so, and
/// opening or closing sign-ups, releasing the draw and marking the spar
/// complete all keep it so.
pub proof fn lemma_open_spar_never_released(before: Spar, after: Spar, state: bool)
    ensures
        is_new_spar(after) ==> open_spar_unreleased(after),
        open_spar_unreleased(before) && is_set_open(before, after, state) ==> open_spar_unreleased(after),
        open_spar_unreleased(before) && is_released(before, after) ==> open_spar_unreleased(after),
        open_spar_unreleased(before) && is_completed(before, after) ==> open_spar_unreleased(after),
{
}

/// Why a spar should not yet be marked complete.
#[derive(Debug, Clone, Copy, PartialEq, Eq, Structural)]
pub enum CompletionProblem {
    /// Some rooms have no ballot.
    MissingBallots { count: usize },
    /// No draw was generated for this spar.
    NoSparStarted,
}

/// The problems found when a spar is about to be marked complete: rooms
/// without a ballot, then a spar that never had rooms.
pub fn completion_problems(rooms_with_ballots: i64, total_rooms: i64) -> (r: Vec<CompletionProblem>)
    requires
        0 <= rooms_with_ballots <= total_rooms,
    ensures
        r@ == (if total_rooms - rooms_with_ballots > 0 {
            seq![CompletionProblem::MissingBallots { count: (total_rooms - rooms_with_ballots) as usize }]
        } else {
            Seq::empty()
        }) + (if total_rooms == 0 { seq![CompletionProblem::NoSparStarted] } else { Seq::empty() }),
{
    let mut problems: Vec<CompletionProblem> = Vec::new();
    let rooms_without_ballots = total_rooms - rooms_with_ballots;
    if rooms_without_ballots > 0 {
        problems.push(CompletionProblem::MissingBallots { count: rooms_without_ballots as usize });
    }
    if total_rooms == 0 {
        problems.push(CompletionProblem::NoSparStarted);
    }
    assert(problems@ =~= (if total_rooms - rooms_with_ballots > 0 {
            seq![CompletionProblem::MissingBallots { count: (total_rooms - rooms_with_ballots) as usize }]
        } else {
            Seq::empty()
        }) + (if total_rooms == 0 { seq![CompletionProblem::NoSparStarted] } else { Seq::empty() }));
    problems
}

/// A new spar may start in a series only when every earlier spar of the
/// series is complete. `earlier_complete` lists, for each spar already in
/// the series, whether it is complete.
pub fn may_start_new_spar(earlier_complete: &Vec<bool>) -> (b: bool)
    ensures
        b == forall|i: int| 0 <= i < earlier_complete@.len() ==> #[trigger] earlier_complete@[i],
{
    let mut i: usize = 0;
    while i < earlier_complete.len()
        invariant
            0 <= i <= earlier_complete@.len(),
            forall|j: int| 0 <= j < i ==> #[trigger] earlier_complete@[j],
        decreases earlier_complete@.len() - i,
    {
        if !earlier_complete[i] {
            return false;
        }
        i = i + 1;
    }
    true
}

/// Why the draw of a spar cannot be generated.
#[derive(Debug, Clone, Copy, PartialEq, Eq, Structural)]
pub enum DrawProblem {
    /// Fewer than four people will only speak.
    TooFewSpeakers,
    /// Even with everyone willing to judge on a panel, there are not enough
    /// judges for one per room of eight.
    TooFewJudges,
}

impl DrawProblem {
    /// The message shown to the administrator.
    pub fn message(&self) -> (s: &'static str)
        ensures
            match self {
                DrawProblem::TooFewSpeakers => s@ == "Error: too few speakers for a British Parliamentary spar (need at least 4)!"@,
                DrawProblem::TooFewJudges => s@ == "Error: too few people willing to judge for a British Parliamentary session (assuming 1 judge and 8 people)!"@,
            },
    {
        match self {
            DrawProblem::TooFewSpeakers => "Error: too few speakers for a British Parliamentary spar (need at least 4)!",
            DrawProblem::TooFewJudges => "Error: too few people willing to judge for a British Parliamentary session (assuming 1 judge and 8 people)!",
        }
    }
}

/// The number of sign-ups among the first `n` that offer to judge.
pub open spec fn judges_among(signups: Seq<SparSignup>, n: int) -> nat
    decreases n,
{
    if n <= 0 {
        0
    } else {
        judges_among(signups, n - 1) + if signups[n - 1].as_judge { 1nat } else { 0nat }
    }
}

/// The number of sign-ups among the first `n` that will only speak.
pub open spec fn only_speakers_among(signups: Seq<SparSignup>, n: int) -> nat
    decreases n,
{
    if n <= 0 {
        0
    } else {
        only_speakers_among(signups, n - 1) + if signups[n - 1].as_speaker && !signups[n - 1].as_judge {
            1nat
        } else {
            0nat
        }
    }
}

/// Counting sign-ups one by one agrees with picking out, from all of them,
/// those that offer to judge, and those that will speak but not judge.
pub proof fn lemma_sign_up_counts(signups: Seq<SparSignup>, n: int)
    requires
        0 <= n <= signups.len(),
    ensures
        judges_among(signups, n) == signups.take(n).filter(|x: SparSignup| x.as_judge).len(),
        only_speakers_among(signups, n) == signups.take(n).filter(
            |x: SparSignup| x.as_speaker && !x.as_judge,
        ).len(),
    decreases n,
{
    reveal(Seq::filter);
    if n > 0 {
        lemma_sign_up_counts(signups, n - 1);
        assert(signups.take(n).drop_last() =~= signups.take(n - 1));
        assert(signups.take(n).last() == signups[n - 1]);
    } else {
        assert(signups.take(n) =~= Seq::<SparSignup>::empty());
    }
}

/// Checks that the sign-ups of a spar (one per member) can form a British
/// Parliamentary draw: at least four people who will only speak, and at
/// least one judge per eight of them.
pub fn check_enough_people(signups: &Vec<SparSignup>) -> (r: Result<(), DrawProblem>)
    ensures
        ({
            let judges = judges_among(signups@, signups@.len() as int);
            let speakers = only_speakers_among(signups@, signups@.len() as int);
            if speakers < 4 {
                r == Err::<(), DrawProblem>(DrawProblem::TooFewSpeakers)
            } else if judges * 8 < speakers {
                r == Err::<(), DrawProblem>(DrawProblem::TooFewJudges)
            } else {
                r == Ok::<(), DrawProblem>(())
            }
        }),
        ({
            let speakers = signups@.filter(|x: SparSignup| x.as_speaker && !x.as_judge).len();
            let judges = signups@.filter(|x: SparSignup| x.as_judge).len();
            &&& (speakers < 4 <==> r == Err::<(), DrawProblem>(DrawProblem::TooFewSpeakers))
            &&& (r is Ok <==> 4 <= speakers && speakers <= 8 * judges)
        }),
{
    proof {
        lemma_sign_up_counts(signups@, signups@.len() as int);
        assert(signups@.take(signups@.len() as int) =~= signups@);
    }
    let mut judges: usize = 0;
    let mut speakers: usize = 0;
    let mut i: usize = 0;
    while i < signups.len()
        invariant
            0 <= i <= signups@.len(),
            judges == judges_among(signups@, i as int),
            speakers == only_speakers_among(signups@, i as int),
            judges <= i,
            speakers <= i,
        decreases signups@.len() - i,
    {
        if signups[i].as_judge {
            judges = judges + 1;
        }
        if signups[i].as_speaker && !signups[i].as_judge {
            speakers = speakers + 1;
        }
        i = i + 1;
    }
    if speakers < 4 {
        return Err(DrawProblem::TooFewSpeakers);
    }
    if (judges as u128) * 8 < speakers as u128 {
        return Err(DrawProblem::TooFewJudges);
    }
    Ok(())
}

} // verus!
