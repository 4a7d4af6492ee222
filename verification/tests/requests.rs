use chrono::NaiveDate;

use sparring::requests::{
    review_join_request, review_new_member, review_new_spar_series, review_spar_signup, JoinRequestOutcome,
    NewMemberProblem, NewSeriesProblem, SignupProblem,
};
use sparring::spar::{Spar, SparSeries};

fn spar(is_open: bool, release_draw: bool) -> Spar {
    let t = NaiveDate::from_ymd_opt(2024, 3, 4).unwrap().and_hms_opt(19, 0, 0).unwrap();
    Spar {
        id: 3,
        public_id: "s".to_string(),
        start_time: t,
        is_open,
        release_draw,
        spar_series_id: 2,
        is_complete: false,
        created_at: t,
    }
}

fn series(allow: bool, auto: bool) -> SparSeries {
    let t = NaiveDate::from_ymd_opt(2024, 3, 4).unwrap().and_hms_opt(19, 0, 0).unwrap();
    SparSeries {
        id: 2,
        public_id: "ss".to_string(),
        title: "Weekly".to_string(),
        description: None,
        speakers_per_team: 2,
        group_id: 1,
        created_at: t,
        allow_join_requests: allow,
        auto_approve_join_requests: auto,
    }
}

#[test]
fn signups_need_an_open_spar_and_a_member() {
    assert_eq!(review_spar_signup(&spar(false, false), Some(1), true, false, None, &vec![]), Err(SignupProblem::SignupsClosed));
    assert_eq!(review_spar_signup(&spar(true, true), Some(1), true, false, None, &vec![]), Err(SignupProblem::SignupsClosed));
    assert_eq!(review_spar_signup(&spar(true, false), None, true, false, None, &vec![]), Err(SignupProblem::NoSuchMember));
    assert_eq!(review_spar_signup(&spar(true, false), Some(1), false, false, None, &vec![]), Ok(None));
}

#[test]
fn speaking_partners_are_checked() {
    let open = spar(true, false);
    assert_eq!(review_spar_signup(&open, Some(1), false, true, Some(5), &vec![]), Err(SignupProblem::PartnerButNotSpeaking));
    assert_eq!(review_spar_signup(&open, Some(1), true, true, None, &vec![]), Err(SignupProblem::InvalidPartner));
    assert_eq!(review_spar_signup(&open, Some(1), true, true, Some(5), &vec![7]), Err(SignupProblem::PartnerChoseSomeoneElse));
    assert_eq!(review_spar_signup(&open, Some(1), true, true, Some(5), &vec![1]), Ok(Some(5)));
    assert_eq!(review_spar_signup(&open, Some(1), true, true, Some(5), &vec![]), Ok(Some(5)));
}

#[test]
fn signup_problems_read_as_messages() {
    assert_eq!(SignupProblem::NoSuchMember.message(), "No such member in spar.");
    assert_eq!(
        SignupProblem::SignupsClosed.message(),
        "Error: the draw for this spar has already been\n                            released (you can no longer sign up)."
    );
}

#[test]
fn join_requests_are_decided() {
    let open = series(true, false);
    assert_eq!(review_join_request("not an email", Some(&open), false, false), JoinRequestOutcome::InvalidEmail);
    assert_eq!(review_join_request("a@example.com", None, false, false), JoinRequestOutcome::NoSuchSeries);
    assert_eq!(review_join_request("a@example.com", Some(&series(false, true)), false, false), JoinRequestOutcome::Closed);
    assert_eq!(review_join_request("a@example.com", Some(&open), true, true), JoinRequestOutcome::AlreadyRequested);
    assert_eq!(review_join_request("a@example.com", Some(&open), false, true), JoinRequestOutcome::AlreadyMember);
    assert_eq!(review_join_request("a@example.com", Some(&open), false, false), JoinRequestOutcome::AwaitApproval);
    assert_eq!(review_join_request("a@example.com", Some(&series(true, true)), false, false), JoinRequestOutcome::JoinNow);
    assert_eq!(JoinRequestOutcome::NoSuchSeries.message(), None);
    assert_eq!(JoinRequestOutcome::InvalidEmail.message(), Some("Error: invalid email supplied."));
}

#[test]
fn new_members_are_checked_in_order() {
    assert_eq!(review_new_member(false, "Bobby", "b@example.com", false), Err(NewMemberProblem::Unauthorized));
    assert_eq!(review_new_member(true, "Bo", "b@example.com", false), Err(NewMemberProblem::NameTooShort));
    assert_eq!(review_new_member(true, "Bob", "nope", false), Err(NewMemberProblem::InvalidEmail));
    assert_eq!(review_new_member(true, "Bob", "b@example.com", true), Err(NewMemberProblem::AlreadyMember));
    assert_eq!(review_new_member(true, "Bob", "b@example.com", false), Ok(()));
    // three bytes, though two characters
    assert_eq!(review_new_member(true, "Bö", "b@example.com", false), Ok(()));
}

#[test]
fn new_series_need_permission_and_a_free_title() {
    assert_eq!(review_new_spar_series(false, false), Err(NewSeriesProblem::Unauthorized));
    assert_eq!(review_new_spar_series(true, true), Err(NewSeriesProblem::TitleTaken));
    assert_eq!(review_new_spar_series(true, false), Ok(()));
}
