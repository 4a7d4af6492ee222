//! Ballots: the speaker scores that an adjudicator gives in a British
//! Parliamentary room, the ranking of the teams they imply, and the checks
//! made on a submitted ballot.

use crate::spar::SparRoomTeam;
use chrono::NaiveDateTime;
use vstd::prelude::*;

verus! {

/// A link through which an adjudicator submits a ballot for a room.
#[derive(Debug, Clone)]
pub struct AdjudicatorBallotLink {
    pub id: i64,
    pub public_id: String,
    pub link: String,
    pub room_id: i64,
    pub member_id: i64,
    pub created_at: NaiveDateTime,
    pub expires_at: NaiveDateTime,
}

/// A submitted ballot.
#[derive(Debug, Clone)]
pub struct AdjudicatorBallot {
    pub id: i64,
    pub public_id: String,
    pub adjudicator_id: i64,
    pub room_id: i64,
    pub created_at: NaiveDateTime,
}

/// One speaker's score on a submitted ballot.
#[derive(Debug, Clone)]
pub struct AdjudicatorBallotEntry {
    pub id: i64,
    pub public_id: String,
    pub ballot_id: i64,
    pub speaker_id: i64,
    pub team_id: i64,
    pub speak: i64,
    pub position: i64,
}

/// A ballot together with its scoresheet. When comparing ballots you most
/// likely want to compare the scoresheets.
#[derive(Debug, Clone)]
pub struct BallotRepr {
    pub inner: AdjudicatorBallot,
    pub scoresheet: Scoresheet,
}

#[derive(Debug, Clone, Copy, PartialEq, Eq, Structural)]
pub enum BpTeam {
    Og,
    Oo,
    Cg,
    Co,
}

/// The teams of a scoresheet, in speaking order.
#[derive(Debug, Clone, PartialEq, Eq)]
pub struct Scoresheet {
    pub teams: Vec<TeamScoresheet>,
}

#[derive(Debug, Clone, PartialEq, Eq)]
pub struct TeamScoresheet {
    pub speakers: Vec<SpeakerScoresheet>,
}

#[derive(Debug, Copy, Clone, Eq, PartialEq, Structural)]
pub struct SpeakerScoresheet {
    pub speaker_id: i64,
    pub score: i64,
}

/// The sum of the scores of the first `n` speakers.
pub open spec fn score_sum(speakers: Seq<SpeakerScoresheet>, n: int) -> int
    decreases n,
{
    if n <= 0 {
        0
    } else {
        score_sum(speakers, n - 1) + speakers[n - 1].score
    }
}

/// The total score of a team.
pub open spec fn team_total(team: TeamScoresheet) -> int {
    score_sum(team.speakers@, team.speakers@.len() as int)
}

/// Team `i` ranks above team `j`: it scored more, or as much and speaks
/// earlier.
pub open spec fn ranks_above(totals: Seq<int>, i: int, j: int) -> bool {
    totals[i] > totals[j] || (totals[i] == totals[j] && i < j)
}

/// The team in position `i` of the speaking order.
pub open spec fn bp_team_at(i: int) -> BpTeam {
    if i == 0 {
        BpTeam::Og
    } else if i == 1 {
        BpTeam::Oo
    } else if i == 2 {
        BpTeam::Cg
    } else {
        BpTeam::Co
    }
}

/// The position of a team in the speaking order.
pub open spec fn bp_index(t: BpTeam) -> int {
    match t {
        BpTeam::Og => 0,
        BpTeam::Oo => 1,
        BpTeam::Cg => 2,
        BpTeam::Co => 3,
    }
}

impl Scoresheet {
    /// The total score of each team, in speaking order.
    pub open spec fn totals(self) -> Seq<int> {
        self.teams@.map_values(|t: TeamScoresheet| team_total(t))
    }
}

fn total_of(team: &TeamScoresheet) -> (r: i128)
    ensures
        r == team_total(*team),
{
    let mut sum: i128 = 0;
    let mut i: usize = 0;
    while i < team.speakers.len()
        invariant
            0 <= i <= team.speakers@.len(),
            sum == score_sum(team.speakers@, i as int),
            -0x8000_0000_0000_0000 * i <= sum <= 0x7fff_ffff_ffff_ffff * i,
        decreases team.speakers@.len() - i,
    {
        proof {
            assert(i < usize::MAX);
            assert(0x7fff_ffff_ffff_ffff * i <= 0x7fff_ffff_ffff_ffff * 0xffff_ffff_ffff_ffff) by (nonlinear_arith)
                requires i <= 0xffff_ffff_ffff_ffff;
            assert(-0x8000_0000_0000_0000 * i >= -0x8000_0000_0000_0000 * 0xffff_ffff_ffff_ffff) by (nonlinear_arith)
                requires i <= 0xffff_ffff_ffff_ffff;
        }
        sum = sum + team.speakers[i].score as i128;
        i = i + 1;
    }
    sum
}

/// Team `i` ranks above team `j`, given the totals.
fn ranks_above_exec(totals: &Vec<i128>, i: usize, j: usize) -> (b: bool)
    requires
        i < totals@.len(),
        j < totals@.len(),
    ensures
        b == ranks_above(totals@.map_values(|t: i128| t as int), i as int, j as int),
{
    totals[i] > totals[j] || (totals[i] == totals[j] && i < j)
}

fn team_of_index(i: usize) -> (t: BpTeam)
    requires
        i < 4,
    ensures
        t == bp_team_at(i as int),
        bp_index(t) == i,
{
    match i {
        0 => BpTeam::Og,
        1 => BpTeam::Oo,
        2 => BpTeam::Cg,
        _ => BpTeam::Co,
    }
}

impl BallotRepr {
    /// Returns the ranking of these teams, with the best team first and the
    /// worst team last: teams with a higher total score rank higher, and
    /// teams with equal totals keep their speaking order.
    pub fn bp_ranking(&self) -> (r: Vec<BpTeam>)
        requires
            self.scoresheet.teams@.len() == 4,
        ensures
            r@.len() == 4,
            forall|k: int, l: int|
                0 <= k < l < 4 ==> bp_index(#[trigger] r@[k]) != bp_index(#[trigger] r@[l]),
            forall|k: int|
                0 <= k < 3 ==> ranks_above(
                    self.scoresheet.totals(),
                    bp_index(#[trigger] r@[k]),
                    bp_index(r@[k + 1]),
                ),
    {
        let teams = &self.scoresheet.teams;
        let mut totals: Vec<i128> = Vec::new();
        let mut i: usize = 0;
        while i < 4
            invariant
                teams@.len() == 4,
                0 <= i <= 4,
                totals@.len() == i,
                forall|k: int| 0 <= k < i ==> totals@[k] == team_total(#[trigger] teams@[k]),
            decreases 4 - i,
        {
            totals.push(total_of(&teams[i]));
            i = i + 1;
        }
        let ghost t = totals@.map_values(|x: i128| x as int);
        assert(t =~= self.scoresheet.totals());
        // a sorting network of five comparators puts four items in order
        let (mut a, mut b, mut c, mut d): (usize, usize, usize, usize) = (0, 1, 2, 3);
        if ranks_above_exec(&totals, b, a) {
            let x = a;
            a = b;
            b = x;
        }
        if ranks_above_exec(&totals, d, c) {
            let x = c;
            c = d;
            d = x;
        }
        if ranks_above_exec(&totals, c, a) {
            let x = a;
            a = c;
            c = x;
        }
        if ranks_above_exec(&totals, d, b) {
            let x = b;
            b = d;
            d = x;
        }
        if ranks_above_exec(&totals, c, b) {
            let x = b;
            b = c;
            c = x;
        }
        let r = vec![team_of_index(a), team_of_index(b), team_of_index(c), team_of_index(d)];
        r
    }
}

/// The position of the team with id `team_id` in the speaking order: that
/// of the last such team in `teams`.
pub open spec fn team_position(teams: Seq<SparRoomTeam>, team_id: i64) -> Option<i64>
    decreases teams.len(),
{
    if teams.len() == 0 {
        None
    } else if teams.last().id == team_id {
        Some(teams.last().position)
    } else {
        team_position(teams.drop_last(), team_id)
    }
}

/// The scoresheet line of a ballot entry.
pub open spec fn sheet_of(e: AdjudicatorBallotEntry) -> SpeakerScoresheet {
    SpeakerScoresheet { speaker_id: e.speaker_id, score: e.speak }
}

/// The scoresheet lines, in order, of those among the first `n` entries
/// whose team speaks at position `pos`.
pub open spec fn speakers_at(
    teams: Seq<SparRoomTeam>,
    entries: Seq<AdjudicatorBallotEntry>,
    pos: i64,
    n: int,
) -> Seq<SpeakerScoresheet>
    decreases n,
{
    if n <= 0 {
        Seq::empty()
    } else if team_position(teams, entries[n - 1].team_id) == Some(pos) {
        speakers_at(teams, entries, pos, n - 1).push(sheet_of(entries[n - 1]))
    } else {
        speakers_at(teams, entries, pos, n - 1)
    }
}

/// The scoresheet lines for position `pos` are the speaker and speak of
/// each entry whose team speaks at `pos`, in the order of the entries.
pub proof fn lemma_lines_come_from_entries(
    teams: Seq<SparRoomTeam>,
    entries: Seq<AdjudicatorBallotEntry>,
    pos: i64,
    n: int,
)
    requires
        0 <= n <= entries.len(),
    ensures
        speakers_at(teams, entries, pos, n) == entries.take(n).filter(
            |e: AdjudicatorBallotEntry| team_position(teams, e.team_id) == Some(pos),
        ).map_values(|e: AdjudicatorBallotEntry| SpeakerScoresheet { speaker_id: e.speaker_id, score: e.speak }),
    decreases n,
{
    reveal(Seq::filter);
    if n > 0 {
        lemma_lines_come_from_entries(teams, entries, pos, n - 1);
        assert(entries.take(n).drop_last() =~= entries.take(n - 1));
        assert(entries.take(n).last() == entries[n - 1]);
        let f = entries.take(n).filter(|e: AdjudicatorBallotEntry| team_position(teams, e.team_id) == Some(pos));
        let g = entries.take(n - 1).filter(|e: AdjudicatorBallotEntry| team_position(teams, e.team_id) == Some(pos));
        if team_position(teams, entries[n - 1].team_id) == Some(pos) {
            assert(f == g.push(entries[n - 1]));
            assert(f.map_values(|e: AdjudicatorBallotEntry| SpeakerScoresheet { speaker_id: e.speaker_id, score: e.speak })
                =~= g.map_values(|e: AdjudicatorBallotEntry| SpeakerScoresheet { speaker_id: e.speaker_id, score: e.speak }).push(
                SpeakerScoresheet { speaker_id: entries[n - 1].speaker_id, score: entries[n - 1].speak },
            ));
        } else {
            assert(f == g);
        }
    } else {
        assert(entries.take(n) =~= Seq::<AdjudicatorBallotEntry>::empty());
        assert(entries.take(n).filter(|e: AdjudicatorBallotEntry| team_position(teams, e.team_id) == Some(pos))
            =~= Seq::<AdjudicatorBallotEntry>::empty());
    }
}

/// The positions that the teams of the entries speak at.
pub open spec fn ballot_positions(teams: Seq<SparRoomTeam>, entries: Seq<AdjudicatorBallotEntry>) -> Set<i64> {
    Set::new(|pos: i64| exists|i: int| 0 <= i < entries.len() && team_position(teams, (#[trigger] entries[i]).team_id) == Some(pos))
}

/// The entries of a ballot make a British Parliamentary scoresheet: every
/// entry belongs to one of the room's teams, no team has more than three
/// speakers, and the entries cover exactly four positions.
pub open spec fn entries_fit(teams: Seq<SparRoomTeam>, entries: Seq<AdjudicatorBallotEntry>) -> bool {
    &&& forall|i: int| 0 <= i < entries.len() ==> team_position(teams, (#[trigger] entries[i]).team_id) is Some
    &&& forall|pos: i64| (#[trigger] speakers_at(teams, entries, pos, entries.len() as int)).len() <= 3
    &&& exists|ps: Seq<i64>| ps.len() == 4 && ps.no_duplicates() && ps.to_set() == ballot_positions(teams, entries)
}

fn position_of_team(teams: &Vec<SparRoomTeam>, team_id: i64) -> (r: Option<i64>)
    ensures
        r == team_position(teams@, team_id),
{
    let mut found: Option<i64> = None;
    let mut i: usize = 0;
    while i < teams.len()
        invariant
            0 <= i <= teams@.len(),
            found == team_position(teams@.take(i as int), team_id),
        decreases teams@.len() - i,
    {
        proof {
            assert(teams@.take(i + 1).drop_last() =~= teams@.take(i as int));
        }
        if teams[i].id == team_id {
            found = Some(teams[i].position);
        }
        i = i + 1;
    }
    assert(teams@.take(teams@.len() as int) =~= teams@);
    found
}

/// The position of each entry's team, where every entry has one.
fn entry_positions(teams: &Vec<SparRoomTeam>, entries: &Vec<AdjudicatorBallotEntry>) -> (r: Option<Vec<i64>>)
    ensures
        r is Some <==> forall|i: int| 0 <= i < entries@.len() ==> team_position(teams@, (#[trigger] entries@[i]).team_id) is Some,
        r matches Some(v) ==> v@.len() == entries@.len() && forall|i: int| 0 <= i < entries@.len() ==> team_position(teams@, (#[trigger] entries@[i]).team_id) == Some(v@[i]),
{
    let mut v: Vec<i64> = Vec::new();
    let mut i: usize = 0;
    while i < entries.len()
        invariant
            0 <= i <= entries@.len(),
            v@.len() == i,
            forall|j: int| 0 <= j < i ==> team_position(teams@, (#[trigger] entries@[j]).team_id) == Some(v@[j]),
        decreases entries@.len() - i,
    {
        match position_of_team(teams, entries[i].team_id) {
            Some(p) => v.push(p),
            None => {
                return None;
            },
        }
        i = i + 1;
    }
    Some(v)
}

/// The distinct values of a sequence, in order of first appearance.
fn distinct_values(v: &Vec<i64>) -> (d: Vec<i64>)
    ensures
        d@.no_duplicates(),
        d@.to_set() == v@.to_set(),
{
    let mut d: Vec<i64> = Vec::new();
    let mut i: usize = 0;
    while i < v.len()
        invariant
            0 <= i <= v@.len(),
            d@.no_duplicates(),
            d@.to_set() == v@.take(i as int).to_set(),
        decreases v@.len() - i,
    {
        let x = v[i];
        let mut seen = false;
        let mut k: usize = 0;
        while k < d.len()
            invariant
                0 <= k <= d@.len(),
                seen <==> exists|j: int| 0 <= j < k && d@[j] == x,
            decreases d@.len() - k,
        {
            if d[k] == x {
                seen = true;
            }
            k = k + 1;
        }
        proof {
            assert(v@.take(i + 1) =~= v@.take(i as int) + seq![x]);
            Seq::<i64>::lemma_to_set_insert_commutes(v@.take(i as int), x);
        }
        if !seen {
            proof {
                Seq::<i64>::lemma_to_set_insert_commutes(d@, x);
                assert(d@.push(x) =~= d@ + seq![x]);
            }
            d.push(x);
        } else {
            proof {
                let j = choose|j: int| 0 <= j < d@.len() && d@[j] == x;
                assert(d@.to_set().contains(x));
                assert(d@.to_set().insert(x) =~= d@.to_set());
            }
        }
        i = i + 1;
    }
    assert(v@.take(v@.len() as int) =~= v@);
    d
}

fn speakers_at_exec(
    teams: &Vec<SparRoomTeam>,
    entries: &Vec<AdjudicatorBallotEntry>,
    positions: &Vec<i64>,
    pos: i64,
) -> (r: Vec<SpeakerScoresheet>)
    requires
        positions@.len() == entries@.len(),
        forall|i: int| 0 <= i < entries@.len() ==> team_position(teams@, (#[trigger] entries@[i]).team_id) == Some(positions@[i]),
    ensures
        r@ == speakers_at(teams@, entries@, pos, entries@.len() as int),
{
    let mut r: Vec<SpeakerScoresheet> = Vec::new();
    let mut i: usize = 0;
    while i < entries.len()
        invariant
            0 <= i <= entries@.len(),
            positions@.len() == entries@.len(),
            forall|j: int| 0 <= j < entries@.len() ==> team_position(teams@, (#[trigger] entries@[j]).team_id) == Some(positions@[j]),
            r@ == speakers_at(teams@, entries@, pos, i as int),
        decreases entries@.len() - i,
    {
        assert(team_position(teams@, entries@[i as int].team_id) == Some(positions@[i as int]));
        if positions[i] == pos {
            r.push(SpeakerScoresheet { speaker_id: entries[i].speaker_id, score: entries[i].speak });
        }
        i = i + 1;
    }
    r
}

proof fn lemma_no_speakers_elsewhere(
    teams: Seq<SparRoomTeam>,
    entries: Seq<AdjudicatorBallotEntry>,
    pos: i64,
    n: int,
)
    requires
        0 <= n <= entries.len(),
        !ballot_positions(teams, entries).contains(pos),
    ensures
        speakers_at(teams, entries, pos, n).len() == 0,
    decreases n,
{
    if n > 0 {
        lemma_no_speakers_elsewhere(teams, entries, pos, n - 1);
        if team_position(teams, entries[n - 1].team_id) == Some(pos) {
            assert(ballot_positions(teams, entries).contains(pos)) by {
                assert(0 <= n - 1 < entries.len());
            }
        }
    }
}

/// The positions computed for the entries are the ballot's positions.
proof fn lemma_positions_set(
    teams: Seq<SparRoomTeam>,
    entries: Seq<AdjudicatorBallotEntry>,
    positions: Seq<i64>,
)
    requires
        positions.len() == entries.len(),
        forall|i: int| 0 <= i < entries.len() ==> team_position(teams, (#[trigger] entries[i]).team_id) == Some(positions[i]),
    ensures
        positions.to_set() == ballot_positions(teams, entries),
{
    assert forall|pos: i64| positions.to_set().contains(pos) <==> ballot_positions(teams, entries).contains(pos) by {
        if positions.to_set().contains(pos) {
            let i = choose|i: int| 0 <= i < positions.len() && positions[i] == pos;
            assert(team_position(teams, entries[i].team_id) == Some(pos));
        }
        if ballot_positions(teams, entries).contains(pos) {
            let i = choose|i: int| 0 <= i < entries.len() && team_position(teams, (#[trigger] entries[i]).team_id) == Some(pos);
            assert(positions[i] == pos);
        }
    }
    assert(positions.to_set() =~= ballot_positions(teams, entries));
}

/// Whether the entries of a ballot make a British Parliamentary scoresheet.
pub fn entries_fit_bp(teams: &Vec<SparRoomTeam>, entries: &Vec<AdjudicatorBallotEntry>) -> (b: bool)
    ensures
        b == entries_fit(teams@, entries@),
{
    let positions = match entry_positions(teams, entries) {
        Some(p) => p,
        None => {
            return false;
        },
    };
    proof {
        lemma_positions_set(teams@, entries@, positions@);
    }
    let d = distinct_values(&positions);
    let mut k: usize = 0;
    while k < d.len()
        invariant
            0 <= k <= d@.len(),
            d@.to_set() == ballot_positions(teams@, entries@),
            positions@.len() == entries@.len(),
            forall|j: int| 0 <= j < entries@.len() ==> team_position(teams@, (#[trigger] entries@[j]).team_id) == Some(positions@[j]),
            forall|j: int| 0 <= j < k ==> speakers_at(teams@, entries@, #[trigger] d@[j], entries@.len() as int).len() <= 3,
        decreases d@.len() - k,
    {
        let at = speakers_at_exec(teams, entries, &positions, d[k]);
        if at.len() > 3 {
            return false;
        }
        k = k + 1;
    }
    proof {
        assert forall|pos: i64| (#[trigger] speakers_at(teams@, entries@, pos, entries@.len() as int)).len() <= 3 by {
            if d@.to_set().contains(pos) {
                let j = choose|j: int| 0 <= j < d@.len() && d@[j] == pos;
            } else {
                lemma_no_speakers_elsewhere(teams@, entries@, pos, entries@.len() as int);
            }
        }
        d@.unique_seq_to_set();
        if d@.len() != 4 {
            assert forall|ps: Seq<i64>| !(ps.len() == 4 && ps.no_duplicates() && ps.to_set() == ballot_positions(teams@, entries@)) by {
                if ps.len() == 4 && ps.no_duplicates() && ps.to_set() == ballot_positions(teams@, entries@) {
                    ps.unique_seq_to_set();
                }
            }
        }
    }
    d.len() == 4
}

/// Builds the scoresheet of a ballot from its entries: one team per
/// position, in increasing order of position, each with the scoresheet
/// lines of its entries in the order given.
pub fn scoresheet_of_entries(teams: &Vec<SparRoomTeam>, entries: &Vec<AdjudicatorBallotEntry>) -> (r: Scoresheet)
    requires
        entries_fit(teams@, entries@),
    ensures
        r.teams@.len() == 4,
        exists|ps: Seq<i64>|
            {
                &&& ps.len() == 4
                &&& ps[0] < ps[1] < ps[2] < ps[3]
                &&& ps.to_set() == ballot_positions(teams@, entries@)
                &&& forall|k: int| 0 <= k < 4 ==> (#[trigger] r.teams@[k]).speakers@ == speakers_at(teams@, entries@, ps[k], entries@.len() as int)
                &&& forall|k: int|
                    0 <= k < 4 ==> (#[trigger] r.teams@[k]).speakers@ == entries@.filter(
                        |e: AdjudicatorBallotEntry| team_position(teams@, e.team_id) == Some(ps[k]),
                    ).map_values(
                        |e: AdjudicatorBallotEntry| SpeakerScoresheet { speaker_id: e.speaker_id, score: e.speak },
                    )
            },
{
    let positions = entry_positions(teams, entries).unwrap();
    proof {
        lemma_positions_set(teams@, entries@, positions@);
    }
    let d = distinct_values(&positions);
    proof {
        let ps = choose|ps: Seq<i64>| ps.len() == 4 && ps.no_duplicates() && ps.to_set() == ballot_positions(teams@, entries@);
        ps.unique_seq_to_set();
        d@.unique_seq_to_set();
        assert(d@.len() == 4);
        assert(seq![d@[0], d@[1], d@[2], d@[3]] =~= d@);
    }
    let (p0, p1, p2, p3) = sort_four(d[0], d[1], d[2], d[3]);
    let mut sheet: Vec<TeamScoresheet> = Vec::new();
    sheet.push(TeamScoresheet { speakers: speakers_at_exec(teams, entries, &positions, p0) });
    sheet.push(TeamScoresheet { speakers: speakers_at_exec(teams, entries, &positions, p1) });
    sheet.push(TeamScoresheet { speakers: speakers_at_exec(teams, entries, &positions, p2) });
    sheet.push(TeamScoresheet { speakers: speakers_at_exec(teams, entries, &positions, p3) });
    let r = Scoresheet { teams: sheet };
    proof {
        let n = entries@.len() as int;
        assert(entries@.take(n) =~= entries@);
        lemma_lines_come_from_entries(teams@, entries@, p0, n);
        lemma_lines_come_from_entries(teams@, entries@, p1, n);
        lemma_lines_come_from_entries(teams@, entries@, p2, n);
        lemma_lines_come_from_entries(teams@, entries@, p3, n);
    }
    assert({
        let ps = seq![p0, p1, p2, p3];
        &&& ps.len() == 4
        &&& ps[0] < ps[1] < ps[2] < ps[3]
        &&& ps.to_set() == ballot_positions(teams@, entries@)
        &&& forall|k: int| 0 <= k < 4 ==> (#[trigger] r.teams@[k]).speakers@ == speakers_at(teams@, entries@, ps[k], entries@.len() as int)
        &&& forall|k: int|
            0 <= k < 4 ==> (#[trigger] r.teams@[k]).speakers@ == entries@.filter(
                |e: AdjudicatorBallotEntry| team_position(teams@, e.team_id) == Some(ps[k]),
            ).map_values(
                |e: AdjudicatorBallotEntry| SpeakerScoresheet { speaker_id: e.speaker_id, score: e.speak },
            )
    }) by {
        let ps = seq![p0, p1, p2, p3];
        assert forall|k: int| 0 <= k < 4 implies (#[trigger] r.teams@[k]).speakers@ == entries@.filter(
            |e: AdjudicatorBallotEntry| team_position(teams@, e.team_id) == Some(ps[k]),
        ).map_values(|e: AdjudicatorBallotEntry| SpeakerScoresheet { speaker_id: e.speaker_id, score: e.speak }) by {
            if k == 0 {
                assert(ps[k] == p0);
            } else if k == 1 {
                assert(ps[k] == p1);
            } else if k == 2 {
                assert(ps[k] == p2);
            } else {
                assert(ps[k] == p3);
            }
        }
    }
    r
}

impl BallotRepr {
    /// Puts together a ballot and the scoresheet that its entries make.
    pub fn of_rows(
        ballot: AdjudicatorBallot,
        teams: &Vec<SparRoomTeam>,
        entries: &Vec<AdjudicatorBallotEntry>,
    ) -> (r: BallotRepr)
        requires
            entries_fit(teams@, entries@),
        ensures
            r.inner == ballot,
            r.scoresheet.teams@.len() == 4,
            exists|ps: Seq<i64>|
                {
                    &&& ps.len() == 4
                    &&& ps[0] < ps[1] < ps[2] < ps[3]
                    &&& ps.to_set() == ballot_positions(teams@, entries@)
                    &&& forall|k: int| 0 <= k < 4 ==> (#[trigger] r.scoresheet.teams@[k]).speakers@ == speakers_at(teams@, entries@, ps[k], entries@.len() as int)
                },
    {
        BallotRepr { inner: ballot, scoresheet: scoresheet_of_entries(teams, entries) }
    }
}

/// The eight speaker positions of a British Parliamentary debate, in
/// speaking order: PM, DPM, LO, DLO, MG, GW, MO, OW. The two positions of
/// team `t` are `2 * t` and `2 * t + 1`.
pub open spec fn ballot_team_of_slot(slot: int) -> int {
    slot / 2
}

/// What is wrong with a ballot as filled in.
#[derive(Debug, Clone, Copy, PartialEq, Eq, Structural)]
pub enum BallotFormError {
    /// A named speaker does not speak for the team of that position; the
    /// team is given.
    SpeakerNotInTeam(BpTeam),
    /// Two teams have the same total; the earlier team in speaking order
    /// comes first.
    TiedTotals(BpTeam, BpTeam),
}

/// The place of `team` in a ranking (0 for the best), if it is ranked.
pub fn rank_of(ranking: &Vec<BpTeam>, team: BpTeam) -> (r: Option<usize>)
    ensures
        match r {
            Some(k) => k < ranking@.len() && ranking@[k as int] == team && forall|j: int|
                0 <= j < k ==> ranking@[j] != team,
            None => !ranking@.contains(team),
        },
{
    let mut k: usize = 0;
    while k < ranking.len()
        invariant
            0 <= k <= ranking.len(),
            forall|j: int| 0 <= j < k ==> ranking@[j] != team,
        decreases ranking.len() - k,
    {
        if ranking[k] == team {
            return Some(k);
        }
        k = k + 1;
    }
    None
}

/// Every team has a place in a ranking of four different teams.
pub proof fn lemma_four_teams_all_ranked(ranking: Seq<BpTeam>, team: BpTeam)
    requires
        ranking.len() == 4,
        forall|k: int, l: int|
            0 <= k < l < 4 ==> bp_index(#[trigger] ranking[k]) != bp_index(#[trigger] ranking[l]),
    ensures
        ranking.contains(team),
{
    if !ranking.contains(team) {
        assert(ranking[0] != team && ranking[1] != team && ranking[2] != team && ranking[3] != team);
        assert(bp_index(ranking[0]) != bp_index(ranking[1]));
        assert(bp_index(ranking[0]) != bp_index(ranking[2]));
        assert(bp_index(ranking[0]) != bp_index(ranking[3]));
        assert(bp_index(ranking[1]) != bp_index(ranking[2]));
        assert(bp_index(ranking[1]) != bp_index(ranking[3]));
        assert(bp_index(ranking[2]) != bp_index(ranking[3]));
    }
}

/// The message shown for a problem of a filled-in ballot.
pub open spec fn form_error_text(e: BallotFormError) -> Seq<char> {
    match e {
        BallotFormError::SpeakerNotInTeam(BpTeam::Og) => "Error: the ballot submitted specifies a speaker who is\n                        not assigned to this spar (either PM or DPM is\n                        incorrect)."@,
        BallotFormError::SpeakerNotInTeam(BpTeam::Oo) => "Error: the ballot submitted specifies a speaker who is\n                        not assigned to this spar (either LO or DLO is\n                        incorrect)."@,
        BallotFormError::SpeakerNotInTeam(BpTeam::Cg) => "Error: the ballot submitted specifies a speaker who is\n                        not assigned to this spar (either MG or GW is\n                        incorrect)."@,
        BallotFormError::SpeakerNotInTeam(BpTeam::Co) => "Error: the ballot submitted specifies a speaker who is\n                        not assigned to this spar (either MO or OW is\n                        incorrect)."@,
        BallotFormError::TiedTotals(BpTeam::Og, BpTeam::Oo) => "Error: OG and OO have the same sum of speaks."@,
        BallotFormError::TiedTotals(BpTeam::Og, BpTeam::Cg) => "Error: OG and CG have the same sum of speaks."@,
        BallotFormError::TiedTotals(BpTeam::Og, BpTeam::Co) => "Error: OG and CO have the same sum of speaks."@,
        BallotFormError::TiedTotals(BpTeam::Oo, BpTeam::Cg) => "Error: OO and CG have the same sum of speaks."@,
        BallotFormError::TiedTotals(BpTeam::Oo, BpTeam::Co) => "Error: OO and CO have the same sum of speaks."@,
        _ => "Error: CG and CO have the same sum of speaks."@,
    }
}

impl BallotFormError {
    /// The message shown to the adjudicator.
    pub fn message(&self) -> (s: &'static str)
        ensures
            s@ == form_error_text(*self),
    {
        match self {
            BallotFormError::SpeakerNotInTeam(BpTeam::Og) => "Error: the ballot submitted specifies a speaker who is\n                        not assigned to this spar (either PM or DPM is\n                        incorrect).",
            BallotFormError::SpeakerNotInTeam(BpTeam::Oo) => "Error: the ballot submitted specifies a speaker who is\n                        not assigned to this spar (either LO or DLO is\n                        incorrect).",
            BallotFormError::SpeakerNotInTeam(BpTeam::Cg) => "Error: the ballot submitted specifies a speaker who is\n                        not assigned to this spar (either MG or GW is\n                        incorrect).",
            BallotFormError::SpeakerNotInTeam(BpTeam::Co) => "Error: the ballot submitted specifies a speaker who is\n                        not assigned to this spar (either MO or OW is\n                        incorrect).",
            BallotFormError::TiedTotals(BpTeam::Og, BpTeam::Oo) => "Error: OG and OO have the same sum of speaks.",
            BallotFormError::TiedTotals(BpTeam::Og, BpTeam::Cg) => "Error: OG and CG have the same sum of speaks.",
            BallotFormError::TiedTotals(BpTeam::Og, BpTeam::Co) => "Error: OG and CO have the same sum of speaks.",
            BallotFormError::TiedTotals(BpTeam::Oo, BpTeam::Cg) => "Error: OO and CG have the same sum of speaks.",
            BallotFormError::TiedTotals(BpTeam::Oo, BpTeam::Co) => "Error: OO and CO have the same sum of speaks.",
            _ => "Error: CG and CO have the same sum of speaks.",
        }
    }
}

/// Why a submitted ballot is not recorded.
#[derive(Debug, Clone, Copy, PartialEq, Eq, Structural)]
pub enum SubmissionProblem {
    Invalid(BallotFormError),
    /// A ballot with a different result has already been submitted for the
    /// room, and the adjudicator did not insist.
    DiffersFromEarlier,
}

impl SubmissionProblem {
    /// The message shown to the adjudicator.
    pub fn message(&self) -> (s: &'static str)
        ensures
            match self {
                SubmissionProblem::Invalid(e) => s@ == form_error_text(*e),
                SubmissionProblem::DiffersFromEarlier => s@ == "Note: a ballot with a different result has\n                                   already been submitted for this form."@,
            },
    {
        match self {
            SubmissionProblem::Invalid(e) => e.message(),
            SubmissionProblem::DiffersFromEarlier => "Note: a ballot with a different result has\n                                   already been submitted for this form.",
        }
    }
}

/// The total of the two speakers of team `t` on a filled-in ballot.
pub open spec fn form_total(scores: Seq<i64>, t: int) -> int {
    scores[2 * t] + scores[2 * t + 1]
}

/// Both speakers named for team `t` speak for the team that the room has
/// at position `t`.
pub open spec fn team_named_correctly(room_teams: Seq<Seq<i64>>, speakers: Seq<i64>, t: int) -> bool {
    room_teams[t].contains(speakers[2 * t]) && room_teams[t].contains(speakers[2 * t + 1])
}

/// The first problem of a filled-in ballot, checking the teams in speaking
/// order and then the pairs of teams for equal totals.
pub open spec fn first_form_error(room_teams: Seq<Seq<i64>>, speakers: Seq<i64>, scores: Seq<i64>) -> Option<BallotFormError> {
    if !team_named_correctly(room_teams, speakers, 0) {
        Some(BallotFormError::SpeakerNotInTeam(BpTeam::Og))
    } else if !team_named_correctly(room_teams, speakers, 1) {
        Some(BallotFormError::SpeakerNotInTeam(BpTeam::Oo))
    } else if !team_named_correctly(room_teams, speakers, 2) {
        Some(BallotFormError::SpeakerNotInTeam(BpTeam::Cg))
    } else if !team_named_correctly(room_teams, speakers, 3) {
        Some(BallotFormError::SpeakerNotInTeam(BpTeam::Co))
    } else if form_total(scores, 0) == form_total(scores, 1) {
        Some(BallotFormError::TiedTotals(BpTeam::Og, BpTeam::Oo))
    } else if form_total(scores, 0) == form_total(scores, 2) {
        Some(BallotFormError::TiedTotals(BpTeam::Og, BpTeam::Cg))
    } else if form_total(scores, 0) == form_total(scores, 3) {
        Some(BallotFormError::TiedTotals(BpTeam::Og, BpTeam::Co))
    } else if form_total(scores, 1) == form_total(scores, 2) {
        Some(BallotFormError::TiedTotals(BpTeam::Oo, BpTeam::Cg))
    } else if form_total(scores, 1) == form_total(scores, 3) {
        Some(BallotFormError::TiedTotals(BpTeam::Oo, BpTeam::Co))
    } else if form_total(scores, 2) == form_total(scores, 3) {
        Some(BallotFormError::TiedTotals(BpTeam::Cg, BpTeam::Co))
    } else {
        None
    }
}

/// A filled-in ballot on which two teams have the same total, or a team is
/// given a speaker who does not speak for it, has a problem.
pub proof fn lemma_tied_or_misnamed_ballot_has_problem(
    room_teams: Seq<Seq<i64>>,
    speakers: Seq<i64>,
    scores: Seq<i64>,
    t: int,
    u: int,
)
    requires
        room_teams.len() >= 4,
        speakers.len() == 8,
        scores.len() == 8,
        0 <= t < 4,
        0 <= u < 4,
        t != u && scores[2 * t] + scores[2 * t + 1] == scores[2 * u] + scores[2 * u + 1]
            || !(room_teams[t].contains(speakers[2 * t]) && room_teams[t].contains(speakers[2 * t + 1])),
    ensures
        first_form_error(room_teams, speakers, scores) is Some,
{
}

/// The scoresheet of a filled-in ballot: four teams of two speakers each.
pub open spec fn form_sheet(speakers: Seq<i64>, scores: Seq<i64>) -> Seq<Seq<SpeakerScoresheet>> {
    Seq::new(4, |t: int| seq![
        SpeakerScoresheet { speaker_id: speakers[2 * t], score: scores[2 * t] },
        SpeakerScoresheet { speaker_id: speakers[2 * t + 1], score: scores[2 * t + 1] },
    ])
}

impl View for Scoresheet {
    type V = Seq<Seq<SpeakerScoresheet>>;

    open spec fn view(&self) -> Seq<Seq<SpeakerScoresheet>> {
        self.teams@.map_values(|t: TeamScoresheet| t.speakers@)
    }
}

fn ids_contain(ids: &Vec<i64>, x: i64) -> (b: bool)
    ensures
        b == ids@.contains(x),
{
    let mut i: usize = 0;
    while i < ids.len()
        invariant
            0 <= i <= ids@.len(),
            forall|j: int| 0 <= j < i ==> ids@[j] != x,
        decreases ids@.len() - i,
    {
        if ids[i] == x {
            return true;
        }
        i = i + 1;
    }
    false
}

/// Whether two scoresheets record the same speakers with the same scores
/// in the same places.
pub fn same_scoresheet(a: &Scoresheet, b: &Scoresheet) -> (r: bool)
    ensures
        r == (a@ == b@),
{
    if a.teams.len() != b.teams.len() {
        assert(a@.len() != b@.len());
        return false;
    }
    let mut t: usize = 0;
    while t < a.teams.len()
        invariant
            a.teams@.len() == b.teams@.len(),
            0 <= t <= a.teams@.len(),
            forall|j: int| 0 <= j < t ==> a@[j] == b@[j],
        decreases a.teams@.len() - t,
    {
        let x = &a.teams[t].speakers;
        let y = &b.teams[t].speakers;
        assert(a@[t as int] == x@ && b@[t as int] == y@);
        if x.len() != y.len() {
            assert(a@[t as int].len() != b@[t as int].len());
            return false;
        }
        let mut k: usize = 0;
        while k < x.len()
            invariant
                x@.len() == y@.len(),
                0 <= t < a@.len(),
                a@.len() == b@.len(),
                a@[t as int] == x@,
                b@[t as int] == y@,
                0 <= k <= x@.len(),
                forall|j: int| 0 <= j < k ==> x@[j] == y@[j],
            decreases x@.len() - k,
        {
            if x[k].speaker_id != y[k].speaker_id || x[k].score != y[k].score {
                assert(a@[t as int][k as int] != b@[t as int][k as int]);
                return false;
            }
            k = k + 1;
        }
        assert(x@ =~= y@);
        t = t + 1;
    }
    assert(a@ =~= b@);
    true
}

/// Checks a ballot as filled in by an adjudicator, and builds its
/// scoresheet.
///
/// `room_teams` lists the speakers of the room's teams in speaking order;
/// `speakers` and `scores` give the eight speakers of the ballot and their
/// scores in the order PM, DPM, LO, DLO, MG, GW, MO, OW. Unless `force` is
/// set, a ballot whose scoresheet differs from `earlier`, the ballot already
/// on record for the room, is refused.
pub fn review_submission(
    room_teams: &Vec<Vec<i64>>,
    speakers: &Vec<i64>,
    scores: &Vec<i64>,
    force: bool,
    earlier: Option<&Scoresheet>,
) -> (r: Result<Scoresheet, SubmissionProblem>)
    requires
        room_teams@.len() >= 4,
        speakers@.len() == 8,
        scores@.len() == 8,
    ensures
        ({
            let teams = room_teams@.map_values(|t: Vec<i64>| t@);
            match first_form_error(teams, speakers@, scores@) {
                Some(e) => r == Err::<Scoresheet, SubmissionProblem>(SubmissionProblem::Invalid(e)),
                None => match earlier {
                    Some(prev) if !force && prev@ != form_sheet(speakers@, scores@) =>
                        r == Err::<Scoresheet, SubmissionProblem>(SubmissionProblem::DiffersFromEarlier),
                    _ => r matches Ok(sheet) && sheet@ == form_sheet(speakers@, scores@),
                },
            }
        }),
        r is Ok ==> {
            &&& scores@[0] + scores@[1] != scores@[2] + scores@[3]
            &&& scores@[0] + scores@[1] != scores@[4] + scores@[5]
            &&& scores@[0] + scores@[1] != scores@[6] + scores@[7]
            &&& scores@[2] + scores@[3] != scores@[4] + scores@[5]
            &&& scores@[2] + scores@[3] != scores@[6] + scores@[7]
            &&& scores@[4] + scores@[5] != scores@[6] + scores@[7]
        },
        r is Ok ==> {
            &&& room_teams@[0]@.contains(speakers@[0]) && room_teams@[0]@.contains(speakers@[1])
            &&& room_teams@[1]@.contains(speakers@[2]) && room_teams@[1]@.contains(speakers@[3])
            &&& room_teams@[2]@.contains(speakers@[4]) && room_teams@[2]@.contains(speakers@[5])
            &&& room_teams@[3]@.contains(speakers@[6]) && room_teams@[3]@.contains(speakers@[7])
        },
        r matches Ok(sheet) ==> {
            &&& sheet.teams@.len() == 4
            &&& forall|t: int| 0 <= t < 4 ==> (#[trigger] sheet.teams@[t]).speakers@.len() == 2
            &&& sheet.teams@[0].speakers@[0] == SpeakerScoresheet { speaker_id: speakers@[0], score: scores@[0] }
            &&& sheet.teams@[0].speakers@[1] == SpeakerScoresheet { speaker_id: speakers@[1], score: scores@[1] }
            &&& sheet.teams@[1].speakers@[0] == SpeakerScoresheet { speaker_id: speakers@[2], score: scores@[2] }
            &&& sheet.teams@[1].speakers@[1] == SpeakerScoresheet { speaker_id: speakers@[3], score: scores@[3] }
            &&& sheet.teams@[2].speakers@[0] == SpeakerScoresheet { speaker_id: speakers@[4], score: scores@[4] }
            &&& sheet.teams@[2].speakers@[1] == SpeakerScoresheet { speaker_id: speakers@[5], score: scores@[5] }
            &&& sheet.teams@[3].speakers@[0] == SpeakerScoresheet { speaker_id: speakers@[6], score: scores@[6] }
            &&& sheet.teams@[3].speakers@[1] == SpeakerScoresheet { speaker_id: speakers@[7], score: scores@[7] }
        },
{
    let ghost teams = room_teams@.map_values(|t: Vec<i64>| t@);
    let mut t: usize = 0;
    while t < 4
        invariant
            room_teams@.len() >= 4,
            speakers@.len() == 8,
            teams == room_teams@.map_values(|t: Vec<i64>| t@),
            0 <= t <= 4,
            forall|j: int| 0 <= j < t ==> team_named_correctly(teams, speakers@, j),
        decreases 4 - t,
    {
        if !(ids_contain(&room_teams[t], speakers[2 * t]) && ids_contain(&room_teams[t], speakers[2 * t + 1])) {
            let team = if t == 0 {
                BpTeam::Og
            } else if t == 1 {
                BpTeam::Oo
            } else if t == 2 {
                BpTeam::Cg
            } else {
                BpTeam::Co
            };
            return Err(SubmissionProblem::Invalid(BallotFormError::SpeakerNotInTeam(team)));
        }
        t = t + 1;
    }
    let og = scores[0] as i128 + scores[1] as i128;
    let oo = scores[2] as i128 + scores[3] as i128;
    let cg = scores[4] as i128 + scores[5] as i128;
    let co = scores[6] as i128 + scores[7] as i128;
    if og == oo {
        return Err(SubmissionProblem::Invalid(BallotFormError::TiedTotals(BpTeam::Og, BpTeam::Oo)));
    }
    if og == cg {
        return Err(SubmissionProblem::Invalid(BallotFormError::TiedTotals(BpTeam::Og, BpTeam::Cg)));
    }
    if og == co {
        return Err(SubmissionProblem::Invalid(BallotFormError::TiedTotals(BpTeam::Og, BpTeam::Co)));
    }
    if oo == cg {
        return Err(SubmissionProblem::Invalid(BallotFormError::TiedTotals(BpTeam::Oo, BpTeam::Cg)));
    }
    if oo == co {
        return Err(SubmissionProblem::Invalid(BallotFormError::TiedTotals(BpTeam::Oo, BpTeam::Co)));
    }
    if cg == co {
        return Err(SubmissionProblem::Invalid(BallotFormError::TiedTotals(BpTeam::Cg, BpTeam::Co)));
    }
    let mut teams_sheet: Vec<TeamScoresheet> = Vec::new();
    let mut k: usize = 0;
    while k < 4
        invariant
            speakers@.len() == 8,
            scores@.len() == 8,
            0 <= k <= 4,
            teams_sheet@.len() == k,
            forall|j: int| 0 <= j < k ==> (#[trigger] teams_sheet@[j]).speakers@ == form_sheet(speakers@, scores@)[j],
        decreases 4 - k,
    {
        let pair = vec![
            SpeakerScoresheet { speaker_id: speakers[2 * k], score: scores[2 * k] },
            SpeakerScoresheet { speaker_id: speakers[2 * k + 1], score: scores[2 * k + 1] },
        ];
        assert(pair@ =~= form_sheet(speakers@, scores@)[k as int]);
        teams_sheet.push(TeamScoresheet { speakers: pair });
        k = k + 1;
    }
    let sheet = Scoresheet { teams: teams_sheet };
    assert(sheet@ =~= form_sheet(speakers@, scores@));
    if !force {
        if let Some(prev) = earlier {
            if !same_scoresheet(&sheet, prev) {
                return Err(SubmissionProblem::DiffersFromEarlier);
            }
        }
    }
    Ok(sheet)
}

/// One speaker's row of a ballot about to be recorded.
#[derive(Debug, Clone, Copy, PartialEq, Eq, Structural)]
pub struct BallotEntryRow {
    pub speaker_id: i64,
    pub team_id: i64,
    pub speak: i64,
    /// The speaker's place in the team: 0 for the first, 1 for the second.
    pub position: i64,
}

/// The row of the `k`-th speaker of a filled-in ballot, the speakers taken
/// in the order PM, DPM, LO, DLO, MG, GW, MO, OW: the speaker, the id of
/// the room's team at position `k / 2` in `teams`, the score, and the place
/// in the team.
pub open spec fn entry_row(teams: Seq<SparRoomTeam>, speakers: Seq<i64>, scores: Seq<i64>, k: int) -> BallotEntryRow {
    BallotEntryRow { speaker_id: speakers[k], team_id: teams[k / 2].id, speak: scores[k], position: (k % 2) as i64 }
}

/// The eight rows recorded for an accepted ballot. `teams` are the room's
/// teams in speaking order; `speakers` and `scores` are as in
/// [`review_submission`].
pub fn ballot_entry_rows(teams: &Vec<SparRoomTeam>, speakers: &Vec<i64>, scores: &Vec<i64>) -> (rows: Vec<BallotEntryRow>)
    requires
        teams@.len() >= 4,
        speakers@.len() == 8,
        scores@.len() == 8,
    ensures
        rows@ == Seq::new(8, |k: int| entry_row(teams@, speakers@, scores@, k)),
{
    let mut rows: Vec<BallotEntryRow> = Vec::new();
    let mut k: usize = 0;
    while k < 8
        invariant
            teams@.len() >= 4,
            speakers@.len() == 8,
            scores@.len() == 8,
            0 <= k <= 8,
            rows@ == Seq::new(k as nat, |j: int| entry_row(teams@, speakers@, scores@, j)),
        decreases 8 - k,
    {
        let row = BallotEntryRow {
            speaker_id: speakers[k],
            team_id: teams[k / 2].id,
            speak: scores[k],
            position: (k % 2) as i64,
        };
        rows.push(row);
        k = k + 1;
        proof {
            assert(rows@ =~= Seq::new(k as nat, |j: int| entry_row(teams@, speakers@, scores@, j)));
        }
    }
    rows
}

/// Sorts four distinct numbers into increasing order.
fn sort_four(a0: i64, b0: i64, c0: i64, d0: i64) -> (r: (i64, i64, i64, i64))
    ensures
        r.0 < r.1 < r.2 < r.3 || !(seq![a0, b0, c0, d0].no_duplicates()),
        seq![r.0, r.1, r.2, r.3].to_set() == seq![a0, b0, c0, d0].to_set(),
{
    let (mut a, mut b, mut c, mut d) = (a0, b0, c0, d0);
    if b < a {
        let x = a;
        a = b;
        b = x;
    }
    if d < c {
        let x = c;
        c = d;
        d = x;
    }
    if c < a {
        let x = a;
        a = c;
        c = x;
    }
    if d < b {
        let x = b;
        b = d;
        d = x;
    }
    if c < b {
        let x = b;
        b = c;
        c = x;
    }
    assert(seq![a, b, c, d].to_set() =~= seq![a0, b0, c0, d0].to_set()) by {
        assert(seq![a, b, c, d].to_set() =~= set![a, b, c, d]);
        assert(seq![a0, b0, c0, d0].to_set() =~= set![a0, b0, c0, d0]);
    }
    (a, b, c, d)
}

} // verus!
