use chrono::{NaiveDate, NaiveDateTime};

use sparring::group::{Group, GroupMember};
use sparring::model::{Action, FreshValues, FuzzerBpBallotForm, State, StepOutcome};
use sparring::ballot::AdjudicatorBallotLink;
use sparring::database_check::Table;
use sparring::room::SparRoom;
use sparring::service_requests::{FormValue, ServiceRequest};
use sparring::spar::{Spar, SparRoomAdjudicator, SparRoomTeam, SparRoomTeamSpeaker, SparSeries, SparSeriesMember};
use sparring::sync::StoredRecords;
use sparring::user::User;

fn time() -> NaiveDateTime {
    NaiveDate::from_ymd_opt(2024, 5, 6).unwrap().and_hms_opt(18, 30, 0).unwrap()
}

fn fresh(id: &str) -> FreshValues {
    FreshValues {
        public_id: id.to_string(),
        entry_ids: (0..8).map(|k| format!("{id}-entry-{k}")).collect(),
        now: time(),
    }
}

fn user(name: &str, email: &str, password: &str) -> User {
    User {
        id: 42,
        public_id: String::new(),
        username: Some(name.to_string()),
        email: email.to_string(),
        email_verified: true,
        password_hash: password.to_string(),
        created_at: time(),
        is_superuser: false,
        may_create_resources: false,
    }
}

fn group(name: &str, website: Option<&str>) -> Group {
    Group { id: 9, public_id: String::new(), name: name.to_string(), website: website.map(|w| w.to_string()), created_at: time() }
}

fn series(title: &str, group_id: i64) -> SparSeries {
    SparSeries {
        id: 9,
        public_id: String::new(),
        title: title.to_string(),
        description: None,
        speakers_per_team: 2,
        group_id,
        created_at: time(),
        allow_join_requests: false,
        auto_approve_join_requests: false,
    }
}

fn spar(series_id: i64, is_open: bool) -> Spar {
    Spar {
        id: 9,
        public_id: String::new(),
        start_time: time(),
        is_open,
        release_draw: true,
        spar_series_id: series_id,
        is_complete: true,
        created_at: time(),
    }
}

fn member(name: &str, series_id: i64) -> SparSeriesMember {
    SparSeriesMember {
        id: 9,
        public_id: String::new(),
        name: name.to_string(),
        email: format!("{}@example.com", name.to_lowercase()),
        spar_series_id: series_id,
        created_at: time(),
    }
}

/// A model with an administrator, a group, a series, an open spar and a
/// member.
fn populated() -> State {
    let mut s = State::new();
    s.step_model(&Action::Setup(user("alice", "alice@example.com", "correct horse")), &fresh("u0"));
    s.step_model(&Action::Login(0), &fresh("-"));
    s.step_model(&Action::CreateGroup(group("Debaters", Some("https://d.example"))), &fresh("g0"));
    s.step_model(&Action::CreateSparSeries(series("Weekly", 0)), &fresh("ss0"));
    s.step_model(&Action::CreateSpar(spar(0, true)), &fresh("sp0"));
    s.step_model(&Action::AddMember(member("Bobby", 0)), &fresh("m0"));
    s
}

#[test]
fn setup_creates_the_first_user_only() {
    let mut s = State::new();
    let out = s.step_model(&Action::Setup(user("alice", "alice@example.com", "correct horse")), &fresh("u0"));
    assert_eq!(out, StepOutcome::Done);
    assert_eq!(s.users.len(), 1);
    assert_eq!(s.users[0].id, 0);
    assert_eq!(s.users[0].public_id, "u0");
    assert!(s.users[0].is_superuser);
    assert!(!s.users[0].email_verified);
    s.step_model(&Action::Setup(user("carol", "carol@example.com", "correct horse")), &fresh("u1"));
    assert_eq!(s.users.len(), 1);
}

#[test]
fn setup_checks_the_user() {
    let mut s = State::new();
    s.step_model(&Action::Setup(user("alice", "alice@example.com", "short")), &fresh("u0"));
    assert!(s.users.is_empty());
    s.step_model(&Action::Setup(user("al", "alice@example.com", "correct horse")), &fresh("u0"));
    assert!(s.users.is_empty());
    s.step_model(&Action::Setup(user("alice", "not an address", "correct horse")), &fresh("u0"));
    assert!(s.users.is_empty());
    let mut nameless = user("alice", "alice@example.com", "correct horse");
    nameless.username = None;
    s.step_model(&Action::Setup(nameless), &fresh("u0"));
    assert!(s.users.is_empty());
}

#[test]
fn login_clamps_the_index() {
    let mut s = State::new();
    s.step_model(&Action::Login(3), &fresh("-"));
    assert!(s.active_user.is_none());
    s.step_model(&Action::Setup(user("alice", "alice@example.com", "correct horse")), &fresh("u0"));
    s.step_model(&Action::Login(7), &fresh("-"));
    assert_eq!(s.active_user.as_ref().unwrap().public_id, "u0");
}

#[test]
fn groups_need_a_login_and_a_fresh_name() {
    let mut s = State::new();
    s.step_model(&Action::CreateGroup(group("Debaters", None)), &fresh("g0"));
    assert!(s.groups.is_empty());
    let s = populated();
    assert_eq!(s.groups.len(), 1);
    assert_eq!(s.groups[0].id, 0);
    assert_eq!(s.group_members.len(), 1);
    assert!(s.group_members[0].data.is_admin && s.group_members[0].data.is_superuser);
    let mut s = s;
    s.step_model(&Action::CreateGroup(group("Debaters", None)), &fresh("g1"));
    s.step_model(&Action::CreateGroup(group("Others", Some("https://d.example"))), &fresh("g1"));
    s.step_model(&Action::CreateGroup(group("Héllo", None)), &fresh("g1"));
    assert_eq!(s.groups.len(), 1);
    s.step_model(&Action::CreateGroup(group("Others", None)), &fresh("g1"));
    assert_eq!(s.groups.len(), 2);
    assert_eq!(s.groups[1].public_id, "g1");
}

#[test]
fn series_spars_and_members_are_created_by_administrators() {
    let mut s = populated();
    assert_eq!(s.spar_series.len(), 1);
    assert_eq!(s.spar_series[0].group_id, 0);
    assert_eq!(s.spars.len(), 1);
    assert!(!s.spars[0].release_draw && !s.spars[0].is_complete && s.spars[0].is_open);
    assert_eq!(s.spar_series_members.len(), 1);
    assert_eq!(s.spar_series_members[0].spar_series_id, 0);
    // the same title twice in one group is refused
    s.step_model(&Action::CreateSparSeries(series("Weekly", 0)), &fresh("ss1"));
    assert_eq!(s.spar_series.len(), 1);
    // a second spar waits until the first is complete
    s.step_model(&Action::CreateSpar(spar(0, false)), &fresh("sp1"));
    assert_eq!(s.spars.len(), 1);
    // an invalid member name is refused
    s.step_model(&Action::AddMember(member("Bo", 0)), &fresh("m1"));
    assert_eq!(s.spar_series_members.len(), 1);
}

#[test]
fn signups_are_made_once_and_then_updated() {
    let mut s = populated();
    s.step_model(&Action::Signup { member_idx: 0, spar_idx: 5, as_judge: true, as_speaker: false }, &fresh("su0"));
    assert_eq!(s.spar_signups.len(), 1);
    assert!(s.spar_signups[0].as_judge && !s.spar_signups[0].as_speaker);
    s.step_model(&Action::Signup { member_idx: 0, spar_idx: 0, as_judge: false, as_speaker: true }, &fresh("su1"));
    assert_eq!(s.spar_signups.len(), 1);
    assert!(!s.spar_signups[0].as_judge && s.spar_signups[0].as_speaker);
    assert_eq!(s.spar_signups[0].public_id, "su0");
}

#[test]
fn releasing_the_draw_closes_signups_and_opening_withdraws_it() {
    let mut s = populated();
    s.step_model(&Action::ReleaseDraw(4), &fresh("-"));
    assert!(s.spars[0].release_draw && !s.spars[0].is_open);
    s.step_model(&Action::Signup { member_idx: 0, spar_idx: 0, as_judge: true, as_speaker: true }, &fresh("su0"));
    assert!(s.spar_signups.is_empty());
    s.step_model(&Action::SetSparIsOpen { spar: 0, state: true }, &fresh("-"));
    assert!(s.spars[0].is_open && !s.spars[0].release_draw);
    s.step_model(&Action::SetSparIsOpen { spar: 0, state: false }, &fresh("-"));
    assert!(!s.spars[0].is_open && !s.spars[0].release_draw);
}

#[test]
fn generating_a_draw_asks_for_a_reload() {
    let mut s = populated();
    let before = s.spars.len();
    assert_eq!(s.step_model(&Action::GenerateDraw(0), &fresh("-")), StepOutcome::Reload);
    assert_eq!(s.spars.len(), before);
}

fn form(speakers: [usize; 8]) -> FuzzerBpBallotForm {
    FuzzerBpBallotForm {
        pm: speakers[0],
        pm_score: 75,
        dpm: speakers[1],
        dpm_score: 74,
        lo: speakers[2],
        lo_score: 73,
        dlo: speakers[3],
        dlo_score: 72,
        mg: speakers[4],
        mg_score: 71,
        gw: speakers[5],
        gw_score: 70,
        mo: speakers[6],
        mo_score: 69,
        ow: speakers[7],
        ow_score: 68,
        force: false,
    }
}

/// A model holding one room with four teams of two speakers each.
fn with_room() -> State {
    let mut s = populated();
    s.rooms.push(SparRoom { id: 0, public_id: "r0".to_string(), spar_id: 0 });
    for t in 0..4 {
        s.teams.push(SparRoomTeam { id: t, public_id: format!("t{t}"), room_id: 0, position: t });
    }
    for k in 0..8 {
        s.speakers.push(SparRoomTeamSpeaker { id: k, public_id: format!("sp{k}"), member_id: 0, team_id: k / 2 });
    }
    s.adjs.push(SparRoomAdjudicator { id: 0, public_id: "a0".to_string(), member_id: 0, room_id: 0, status: "panellist".to_string() });
    s
}

#[test]
fn ballots_are_recorded_with_eight_entries() {
    let mut s = with_room();
    s.step_model(&Action::SubmitBallot(form([0, 1, 2, 3, 4, 5, 6, 7]), 3, 9), &fresh("b0"));
    assert_eq!(s.ballots.len(), 1);
    assert_eq!(s.ballots[0].public_id, "b0");
    assert_eq!(s.ballots[0].room_id, 0);
    assert_eq!(s.ballots[0].adjudicator_id, 0);
    assert_eq!(s.ballot_entries.len(), 8);
    let e = &s.ballot_entries[5];
    assert_eq!((e.id, e.speaker_id, e.team_id, e.speak, e.position), (5, 5, 2, 70, 1));
    assert_eq!(e.public_id, "b0-entry-5");
}

#[test]
fn ballots_with_speakers_in_the_wrong_team_are_refused() {
    let mut s = with_room();
    s.step_model(&Action::SubmitBallot(form([0, 1, 2, 3, 4, 5, 7, 6]), 0, 0), &fresh("b0"));
    assert_eq!(s.ballots.len(), 1);
    s.step_model(&Action::SubmitBallot(form([2, 1, 0, 3, 4, 5, 6, 7]), 0, 0), &fresh("b1"));
    assert_eq!(s.ballots.len(), 1);
    assert_eq!(s.ballot_entries.len(), 8);
}

#[test]
fn reloading_renumbers_records() {
    let mut s = populated();
    let stored = StoredRecords {
        users: vec![{
            let mut u = s.users[0].clone();
            u.id = 17;
            u.password_hash = "stored hash".to_string();
            u
        }],
        groups: vec![{
            let mut g = s.groups[0].clone();
            g.id = 30;
            g
        }],
        group_members: vec![GroupMember { id: 1, group_id: 30, user_id: 17, has_signing_power_bool: false, is_admin: true }],
        spar_series: vec![{
            let mut x = s.spar_series[0].clone();
            x.id = 55;
            x.group_id = 30;
            x
        }],
        spar_series_members: vec![],
        spars: vec![spar(55, false), spar(55, false)],
        spar_signups: vec![],
        rooms: vec![SparRoom { id: 8, public_id: "r".to_string(), spar_id: 9 }],
        teams: vec![],
        adjs: vec![],
        speakers: vec![],
        ballots: vec![],
    };
    s.sync(stored);
    assert_eq!(s.users.len(), 1);
    assert_eq!(s.users[0].id, 0);
    assert_eq!(s.users[0].password_hash, "correct horse");
    assert_eq!(s.active_user.as_ref().unwrap().id, 0);
    assert_eq!(s.groups[0].id, 0);
    assert_eq!(s.group_members.len(), 1);
    assert_eq!((s.group_members[0].user, s.group_members[0].group), (0, 0));
    assert!(s.group_members[0].data.is_admin && !s.group_members[0].data.is_superuser);
    assert_eq!(s.spar_series[0].group_id, 0);
    assert_eq!(s.spars[1].id, 1);
    assert_eq!(s.spars[1].spar_series_id, 0);
    // both stored spars have id 9: the room points at the last of them
    assert_eq!(s.rooms[0].spar_id, 1);
    assert!(s.spar_series_members.is_empty() && s.ballot_entries.is_empty());
}

fn names(q: &ServiceRequest) -> Vec<String> {
    q.form.as_ref().map(|f| f.iter().map(|x| x.name.clone()).collect()).unwrap_or_default()
}

#[test]
fn requests_carry_actions_to_the_service() {
    let empty = State::new();
    assert!(empty.request_for(&Action::Login(0)).is_none());
    let q = empty.request_for(&Action::Setup(user("alice", "alice@example.com", "correct horse"))).unwrap();
    assert_eq!(q.path, "/admin/setup");
    assert_eq!(names(&q), vec!["username", "email", "password", "password2"]);

    let s = populated();
    let q = s.request_for(&Action::Login(5)).unwrap();
    assert_eq!(q.path, "/login");
    assert_eq!(names(&q), vec!["email", "password"]);
    let q = s.request_for(&Action::CreateGroup(group("Others", Some("https://o.example")))).unwrap();
    assert_eq!(q.path, "/groups/new");
    assert_eq!(names(&q), vec!["name", "website"]);
    let q = s.request_for(&Action::CreateSparSeries(series("Monthly", 3))).unwrap();
    assert_eq!(q.path, "/groups/g0/spar_series/new");
    assert_eq!(names(&q), vec!["title"]);
    let q = s.request_for(&Action::CreateSpar(spar(0, true))).unwrap();
    assert_eq!(q.path, "/spar_series/ss0/makesess");
    assert_eq!(names(&q), vec!["start_time", "is_open"]);
    assert!(matches!(q.form.as_ref().unwrap()[0].value, FormValue::Minutes(t) if t == time()));
    let q = s.request_for(&Action::Signup { member_idx: 0, spar_idx: 0, as_judge: true, as_speaker: false }).unwrap();
    assert_eq!(q.path, "/spars/sp0/signup/m0");
    assert!(matches!(q.form.as_ref().unwrap()[1].value, FormValue::Flag(false)));
    let q = s.request_for(&Action::SetSparIsOpen { spar: 3, state: true }).unwrap();
    assert_eq!(q.path, "/spars/sp0/set_is_open?state=true");
    assert!(q.form.is_none());
    assert_eq!(s.request_for(&Action::ReleaseDraw(0)).unwrap().path, "/spars/sp0/set_released?released=true");
    assert_eq!(s.request_for(&Action::GenerateDraw(0)).unwrap().path, "/spars/sp0/makedraw");
    assert_eq!(s.request_for(&Action::AddMember(member("Carol", 0))).unwrap().path, "/spar_series/ss0/add_member");
}

#[test]
fn ballot_requests_name_speakers_by_public_id() {
    let mut s = with_room();
    s.ballot_links.push(AdjudicatorBallotLink {
        id: 0,
        public_id: "l0".to_string(),
        link: "secret".to_string(),
        room_id: 0,
        member_id: 0,
        created_at: time(),
        expires_at: time(),
    });
    let q = s.request_for(&Action::SubmitBallot(form([7, 1, 2, 3, 4, 5, 6, 0]), 0, 0)).unwrap();
    assert_eq!(q.path, "/ballots/secret/submit");
    let fields = q.form.unwrap();
    assert_eq!(fields.len(), 17);
    assert_eq!(fields[0].name, "pm");
    assert!(matches!(&fields[0].value, FormValue::Text(t) if t == "sp7"));
    assert_eq!(fields[1].name, "pm_score");
    assert!(matches!(fields[1].value, FormValue::Number(75)));
    assert_eq!(fields[15].name, "ow_score");
    assert!(matches!(fields[16].value, FormValue::Flag(true)));
}

fn mirror(s: &State) -> StoredRecords {
    StoredRecords {
        users: s.users.iter().map(|u| User { id: u.id + 100, ..u.clone() }).collect(),
        groups: s.groups.clone(),
        group_members: vec![],
        spar_series: s.spar_series.clone(),
        spar_series_members: s.spar_series_members.clone(),
        spars: s.spars.clone(),
        spar_signups: s.spar_signups.clone(),
        rooms: s.rooms.clone(),
        teams: s.teams.clone(),
        adjs: s.adjs.clone(),
        speakers: s.speakers.clone(),
        ballots: s.ballots.clone(),
    }
}

#[test]
fn the_model_is_compared_with_the_database() {
    let s = populated();
    let mut stored = mirror(&s);
    assert_eq!(s.matches_database(&stored), Ok(()));
    stored.spars[0].is_open = !stored.spars[0].is_open;
    assert_eq!(s.matches_database(&stored), Err(Table::Spars));
    let mut stored = mirror(&s);
    stored.groups[0].public_id = "other".to_string();
    assert_eq!(s.matches_database(&stored), Err(Table::Groups));
    let mut stored = mirror(&s);
    stored.users.push(stored.users[0].clone());
    assert_eq!(s.matches_database(&stored), Err(Table::Users));
}

#[test]
fn reloading_twice_changes_nothing() {
    let mut s = populated();
    let stored = || {
        let mut m = mirror(&populated());
        m.users[0].password_hash = "stored hash".to_string();
        m.group_members = vec![GroupMember { id: 1, group_id: 0, user_id: 100, has_signing_power_bool: true, is_admin: true }];
        m
    };
    s.sync(stored());
    let users: Vec<(i64, String, String)> = s.users.iter().map(|u| (u.id, u.public_id.clone(), u.password_hash.clone())).collect();
    let active = s.active_user.as_ref().map(|u| u.public_id.clone());
    let members = s.group_members.clone();
    s.sync(stored());
    let again: Vec<(i64, String, String)> = s.users.iter().map(|u| (u.id, u.public_id.clone(), u.password_hash.clone())).collect();
    assert_eq!(users, again);
    assert_eq!(active, s.active_user.as_ref().map(|u| u.public_id.clone()));
    assert_eq!(members, s.group_members);
    assert_eq!(s.users[0].password_hash, "correct horse");
}
