use chrono::NaiveDate;

use sparring::compute_elo::team_one_wins;
use sparring::request_ids::RequestId;
use sparring::slides::{add_suffix, name_of_metric, remark_description, TeamMetric};
use sparring::spar::{completion_problems, may_start_new_spar, CompletionProblem, Spar};

fn spar(is_open: bool, release_draw: bool) -> Spar {
    let t = NaiveDate::from_ymd_opt(2024, 3, 4).unwrap().and_hms_opt(19, 0, 0).unwrap();
    Spar {
        id: 1,
        public_id: "s".to_string(),
        start_time: t,
        is_open,
        release_draw,
        spar_series_id: 2,
        is_complete: false,
        created_at: t,
    }
}

#[test]
fn opening_a_spar_withdraws_its_draw() {
    let mut s = spar(false, true);
    s.set_is_open(true);
    assert!(s.is_open && !s.release_draw);
    s.set_is_open(false);
    assert!(!s.is_open && !s.release_draw);
}

#[test]
fn releasing_and_completing_close_signups() {
    let mut s = spar(true, false);
    s.release();
    assert!(!s.is_open && s.release_draw);
    s.set_is_open(false);
    assert!(s.release_draw);
    s.mark_complete();
    assert!(s.is_complete && !s.is_open && s.release_draw);
}

#[test]
fn completion_problems_are_listed() {
    assert_eq!(completion_problems(3, 3), vec![]);
    assert_eq!(completion_problems(1, 3), vec![CompletionProblem::MissingBallots { count: 2 }]);
    assert_eq!(completion_problems(0, 0), vec![CompletionProblem::NoSparStarted]);
}

#[test]
fn new_spars_wait_for_earlier_ones() {
    assert!(may_start_new_spar(&vec![]));
    assert!(may_start_new_spar(&vec![true, true]));
    assert!(!may_start_new_spar(&vec![true, false, true]));
}

#[test]
fn pairings_are_won_on_total_speaks() {
    assert!(team_one_wins((75, 76), (75, 75)));
    assert!(!team_one_wins((75, 75), (75, 75)));
    assert!(!team_one_wins((60, 70), (80, 80)));
}

#[test]
fn break_slide_words() {
    assert_eq!(add_suffix(1), "st");
    assert_eq!(add_suffix(2), "nd");
    assert_eq!(add_suffix(3), "rd");
    assert_eq!(add_suffix(4), "th");
    assert_eq!(add_suffix(11), "th");
    assert_eq!(add_suffix(-1), "th");
    assert_eq!(name_of_metric(&TeamMetric::Wbw), "Who Beat Whom");
    assert_eq!(name_of_metric(&TeamMetric::SpeaksStddev), "Speaker Points Standard Deviation");
    assert_eq!(remark_description("t"), Some("Lost coin toss"));
    assert_eq!(remark_description("d"), Some("Disqualified"));
    assert_eq!(remark_description("x"), None);
    assert_eq!(remark_description("CC"), None);
}

#[test]
fn request_ids_read_as_text() {
    assert_eq!(RequestId("abc-123".to_string()).to_string(), "abc-123");
}

