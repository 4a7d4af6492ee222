use chrono::NaiveDate;

use sparring::ballot::{
    ballot_entry_rows, entries_fit_bp, rank_of, review_submission, same_scoresheet, scoresheet_of_entries, AdjudicatorBallot,
    AdjudicatorBallotEntry, BallotEntryRow, BallotFormError, BallotRepr, BpTeam, Scoresheet, SpeakerScoresheet, SubmissionProblem,
    TeamScoresheet,
};
use sparring::spar::SparRoomTeam;

fn when() -> chrono::NaiveDateTime {
    NaiveDate::from_ymd_opt(2024, 5, 1).unwrap().and_hms_opt(18, 0, 0).unwrap()
}

fn sheet(scores: [[i64; 2]; 4]) -> Scoresheet {
    Scoresheet {
        teams: scores
            .iter()
            .enumerate()
            .map(|(t, pair)| TeamScoresheet {
                speakers: pair
                    .iter()
                    .enumerate()
                    .map(|(k, score)| SpeakerScoresheet { speaker_id: (2 * t + k) as i64, score: *score })
                    .collect(),
            })
            .collect(),
    }
}

fn repr(scores: [[i64; 2]; 4]) -> BallotRepr {
    BallotRepr {
        inner: AdjudicatorBallot { id: 1, public_id: "b".to_string(), adjudicator_id: 2, room_id: 3, created_at: when() },
        scoresheet: sheet(scores),
    }
}

#[test]
fn ranking_orders_teams_by_total() {
    let r = repr([[70, 71], [75, 75], [72, 73], [80, 79]]);
    assert_eq!(r.bp_ranking(), vec![BpTeam::Co, BpTeam::Oo, BpTeam::Cg, BpTeam::Og]);
}

#[test]
fn ranking_keeps_speaking_order_on_ties() {
    let r = repr([[70, 70], [75, 75], [70, 70], [75, 75]]);
    assert_eq!(r.bp_ranking(), vec![BpTeam::Oo, BpTeam::Co, BpTeam::Og, BpTeam::Cg]);
}

fn team(id: i64, position: i64) -> SparRoomTeam {
    SparRoomTeam { id, public_id: format!("t{id}"), room_id: 3, position }
}

fn entry(speaker_id: i64, team_id: i64, speak: i64) -> AdjudicatorBallotEntry {
    AdjudicatorBallotEntry { id: speaker_id, public_id: format!("e{speaker_id}"), ballot_id: 1, speaker_id, team_id, speak, position: 0 }
}

#[test]
fn entries_make_a_scoresheet_by_position() {
    let teams = vec![team(40, 3), team(41, 0), team(42, 2), team(43, 1)];
    let entries = vec![
        entry(1, 40, 70),
        entry(2, 41, 71),
        entry(3, 42, 72),
        entry(4, 43, 73),
        entry(5, 41, 74),
        entry(6, 40, 75),
    ];
    assert!(entries_fit_bp(&teams, &entries));
    let s = scoresheet_of_entries(&teams, &entries);
    let ids: Vec<Vec<i64>> = s.teams.iter().map(|t| t.speakers.iter().map(|x| x.speaker_id).collect()).collect();
    assert_eq!(ids, vec![vec![2, 5], vec![4], vec![3], vec![1, 6]]);
    assert_eq!(s.teams[0].speakers[1].score, 74);
    let b = BallotRepr::of_rows(
        AdjudicatorBallot { id: 1, public_id: "b".to_string(), adjudicator_id: 2, room_id: 3, created_at: when() },
        &teams,
        &entries,
    );
    assert_eq!(b.bp_ranking(), vec![BpTeam::Og, BpTeam::Co, BpTeam::Oo, BpTeam::Cg]);
}

#[test]
fn entries_that_do_not_fit() {
    let teams = vec![team(40, 0), team(41, 1), team(42, 2), team(43, 3)];
    // only three positions
    assert!(!entries_fit_bp(&teams, &vec![entry(1, 40, 1), entry(2, 41, 1), entry(3, 42, 1)]));
    // an unknown team
    assert!(!entries_fit_bp(&teams, &vec![entry(1, 40, 1), entry(2, 41, 1), entry(3, 42, 1), entry(4, 99, 1)]));
    // four speakers in one team
    let mut many = vec![entry(1, 40, 1), entry(2, 41, 1), entry(3, 42, 1), entry(4, 43, 1)];
    for i in 5..8 {
        many.push(entry(i, 40, 1));
    }
    assert!(!entries_fit_bp(&teams, &many));
    many.pop();
    assert!(entries_fit_bp(&teams, &many));
}

fn room_teams() -> Vec<Vec<i64>> {
    vec![vec![0, 1], vec![2, 3], vec![4, 5], vec![6, 7]]
}

#[test]
fn valid_ballot_is_accepted() {
    let speakers = vec![0, 1, 2, 3, 4, 5, 6, 7];
    let scores = vec![70, 71, 75, 75, 72, 73, 80, 79];
    let s = review_submission(&room_teams(), &speakers, &scores, false, None).unwrap();
    assert!(same_scoresheet(&s, &sheet([[70, 71], [75, 75], [72, 73], [80, 79]])));
    // an earlier ballot with the same result is no obstacle
    let earlier = sheet([[70, 71], [75, 75], [72, 73], [80, 79]]);
    assert!(review_submission(&room_teams(), &speakers, &scores, false, Some(&earlier)).is_ok());
}

#[test]
fn ballot_with_wrong_speaker_is_refused() {
    let speakers = vec![0, 1, 2, 5, 4, 3, 6, 7];
    let scores = vec![70, 71, 75, 75, 72, 73, 80, 79];
    assert_eq!(
        review_submission(&room_teams(), &speakers, &scores, true, None).unwrap_err(),
        SubmissionProblem::Invalid(BallotFormError::SpeakerNotInTeam(BpTeam::Oo))
    );
}

#[test]
fn ballot_with_tied_teams_is_refused() {
    let speakers = vec![0, 1, 2, 3, 4, 5, 6, 7];
    let scores = vec![70, 71, 75, 75, 72, 73, 71, 70];
    let e = review_submission(&room_teams(), &speakers, &scores, true, None).unwrap_err();
    assert_eq!(e, SubmissionProblem::Invalid(BallotFormError::TiedTotals(BpTeam::Og, BpTeam::Co)));
    assert_eq!(e.message(), "Error: OG and CO have the same sum of speaks.");
}

#[test]
fn ballot_differing_from_earlier_needs_force() {
    let speakers = vec![0, 1, 2, 3, 4, 5, 6, 7];
    let scores = vec![70, 71, 75, 75, 72, 73, 80, 79];
    let earlier = sheet([[80, 71], [75, 75], [72, 73], [70, 79]]);
    assert_eq!(
        review_submission(&room_teams(), &speakers, &scores, false, Some(&earlier)).unwrap_err(),
        SubmissionProblem::DiffersFromEarlier
    );
    assert!(review_submission(&room_teams(), &speakers, &scores, true, Some(&earlier)).is_ok());
}

#[test]
fn ranks_are_looked_up() {
    let ranking = vec![BpTeam::Co, BpTeam::Oo, BpTeam::Cg, BpTeam::Og];
    assert_eq!(rank_of(&ranking, BpTeam::Co), Some(0));
    assert_eq!(rank_of(&ranking, BpTeam::Og), Some(3));
    assert_eq!(rank_of(&vec![BpTeam::Oo], BpTeam::Cg), None);
}

#[test]
fn accepted_ballot_rows_follow_the_speaking_order() {
    let teams: Vec<SparRoomTeam> = (0..4)
        .map(|p| SparRoomTeam { id: 100 + p, public_id: format!("t{p}"), room_id: 7, position: p })
        .collect();
    let speakers = vec![11, 12, 21, 22, 31, 32, 41, 42];
    let scores = vec![75, 76, 70, 71, 80, 79, 65, 66];
    let rows = ballot_entry_rows(&teams, &speakers, &scores);
    assert_eq!(rows.len(), 8);
    assert_eq!(rows[0], BallotEntryRow { speaker_id: 11, team_id: 100, speak: 75, position: 0 });
    assert_eq!(rows[1], BallotEntryRow { speaker_id: 12, team_id: 100, speak: 76, position: 1 });
    assert_eq!(rows[4], BallotEntryRow { speaker_id: 31, team_id: 102, speak: 80, position: 0 });
    assert_eq!(rows[7], BallotEntryRow { speaker_id: 42, team_id: 103, speak: 66, position: 1 });
}

#[test]
fn misnamed_speaker_message_keeps_its_lines() {
    assert_eq!(
        BallotFormError::SpeakerNotInTeam(BpTeam::Cg).message(),
        "Error: the ballot submitted specifies a speaker who is\n                        not assigned to this spar (either MG or GW is\n                        incorrect)."
    );
}
