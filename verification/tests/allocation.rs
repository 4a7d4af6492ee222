use std::collections::{HashMap, HashSet};

use sparring::confirm_draw::{confirm_room, confirm_rooms, ConfirmedRoom, ConfirmedTeam};
use sparring::solve_allocation::{
    assignments_of_solution, rooms_of_speaker_assignments, team_of_int, Assignment, InvalidSolution, Team,
};
use sparring::spar::{check_enough_people, DrawProblem, SparSignup};

fn set_of(items: &[i64]) -> HashSet<i64> {
    items.iter().copied().collect()
}

#[test]
fn rooms_gather_their_panel_and_teams() {
    let mut params = HashMap::new();
    params.insert(1, Assignment::Judge(0));
    params.insert(2, Assignment::Team { room: 0, team: Team::Og });
    params.insert(3, Assignment::Team { room: 0, team: Team::Og });
    params.insert(4, Assignment::Team { room: 0, team: Team::Co });
    params.insert(5, Assignment::Team { room: 1, team: Team::Oo });
    params.insert(6, Assignment::Judge(1));
    params.insert(7, Assignment::Judge(1));
    let rooms = rooms_of_speaker_assignments(&params);
    assert_eq!(rooms.len(), 2);
    assert_eq!(rooms[&0].panel, set_of(&[1]));
    assert_eq!(rooms[&0].og, set_of(&[2, 3]));
    assert_eq!(rooms[&0].oo, set_of(&[]));
    assert_eq!(rooms[&0].co, set_of(&[4]));
    assert_eq!(rooms[&1].panel, set_of(&[6, 7]));
    assert_eq!(*rooms[&1].team(Team::Oo), set_of(&[5]));
}

#[test]
fn no_assignments_no_rooms() {
    assert!(rooms_of_speaker_assignments(&HashMap::new()).is_empty());
}

#[test]
fn roles_name_teams() {
    assert_eq!(team_of_int(0), Team::Og);
    assert_eq!(team_of_int(1), Team::Oo);
    assert_eq!(team_of_int(2), Team::Cg);
    assert_eq!(team_of_int(3), Team::Co);
}

#[test]
fn solution_becomes_assignments() {
    let chosen = vec![(10, 0, 4), (11, 0, 0), (12, 1, 3), (13, 1, 2)];
    let m = assignments_of_solution(&chosen).unwrap();
    assert_eq!(m.len(), 4);
    assert_eq!(m[&10], Assignment::Judge(0));
    assert_eq!(m[&11], Assignment::Team { room: 0, team: Team::Og });
    assert_eq!(m[&12], Assignment::Team { room: 1, team: Team::Co });
    assert_eq!(m[&13], Assignment::Team { room: 1, team: Team::Cg });
}

#[test]
fn invalid_solutions_are_refused() {
    assert_eq!(
        assignments_of_solution(&vec![(10, 0, 4), (10, 1, 0)]).unwrap_err(),
        InvalidSolution::PlacedTwice(10)
    );
    assert_eq!(assignments_of_solution(&vec![(10, 0, 5)]).unwrap_err(), InvalidSolution::UnknownRole(5));
}

fn signup(member_id: i64, as_judge: bool, as_speaker: bool) -> SparSignup {
    SparSignup {
        id: member_id,
        public_id: format!("signup-{member_id}"),
        member_id,
        spar_id: 0,
        as_judge,
        as_speaker,
    }
}

#[test]
fn draw_needs_speakers_and_judges() {
    let mut signups: Vec<SparSignup> = (0..3).map(|i| signup(i, false, true)).collect();
    signups.push(signup(100, true, true));
    assert_eq!(check_enough_people(&signups), Err(DrawProblem::TooFewSpeakers));
    signups.push(signup(3, false, true));
    // four who only speak, one who may judge
    assert_eq!(check_enough_people(&signups), Ok(()));
    for i in 4..9 {
        signups.push(signup(i, false, true));
    }
    // nine who only speak need two judges
    assert_eq!(check_enough_people(&signups), Err(DrawProblem::TooFewJudges));
    signups.push(signup(101, true, false));
    assert_eq!(check_enough_people(&signups), Ok(()));
    assert!(DrawProblem::TooFewJudges.message().starts_with("Error: too few people willing to judge"));
}

fn sorted(mut v: Vec<i64>) -> Vec<i64> {
    v.sort();
    v
}

#[test]
fn confirming_a_room_records_panel_and_occupied_teams_in_order() {
    let mut params = HashMap::new();
    params.insert(1, Assignment::Judge(0));
    params.insert(9, Assignment::Judge(0));
    params.insert(2, Assignment::Team { room: 0, team: Team::Co });
    params.insert(3, Assignment::Team { room: 0, team: Team::Og });
    params.insert(4, Assignment::Team { room: 0, team: Team::Og });
    let rooms = rooms_of_speaker_assignments(&params);
    let signups: Vec<SparSignup> = [1, 2, 3, 4, 9].iter().map(|m| signup(*m, true, true)).collect();
    let c = confirm_room(&rooms[&0], &signups);
    assert_eq!(sorted(c.panel.clone()), vec![1, 9]);
    // Only OG and CO have speakers; OO and CG get no team record.
    assert_eq!(c.teams.iter().map(|t| t.position).collect::<Vec<_>>(), vec![0, 3]);
    assert_eq!(sorted(c.teams[0].speakers.clone()), vec![3, 4]);
    assert_eq!(c.teams[1].speakers, vec![2]);
}

#[test]
fn confirming_a_draw_covers_every_room_once() {
    let mut params = HashMap::new();
    params.insert(1, Assignment::Judge(0));
    params.insert(2, Assignment::Team { room: 0, team: Team::Oo });
    params.insert(5, Assignment::Team { room: 1, team: Team::Cg });
    params.insert(6, Assignment::Judge(1));
    let rooms = rooms_of_speaker_assignments(&params);
    let signups: Vec<SparSignup> = [1, 2, 5, 6].iter().map(|m| signup(*m, true, true)).collect();
    let mut all = confirm_rooms(&rooms, &signups);
    assert_eq!(all.len(), 2);
    all.sort_by_key(|c| c.panel[0]);
    assert_eq!(
        all,
        vec![
            ConfirmedRoom { panel: vec![1], teams: vec![ConfirmedTeam { position: 1, speakers: vec![2] }] },
            ConfirmedRoom { panel: vec![6], teams: vec![ConfirmedTeam { position: 2, speakers: vec![5] }] },
        ]
    );
}
