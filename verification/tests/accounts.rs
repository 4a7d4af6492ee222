use chrono::NaiveDate;

use sparring::accounts::{
    address_matches, review_invitation, review_invite_acceptance, review_password_change, review_registration, review_setup,
    CreateAccountFromInvitationForm, InvitationProblem, InviteProblem, PasswordChangeProblem, RegisterForm,
    RegistrationProblem, SetPasswordForm, SetupForm, SetupProblem,
};

use sparring::group::{review_new_group, Group, GroupCreationError, GroupMember};
use sparring::permissions::{has_permission, reads_as_u32, Permission};
use sparring::resources::GroupRef;
use sparring::user::{is_valid_email, User};

#[test]
fn test_email() {
    assert!(is_valid_email("hello@example.com"))
}

#[test]
fn emails_are_checked() {
    assert!(User::validate_email("someone+tag@mail.example.org"));
    assert!(!User::validate_email("not an email"));
    assert!(!User::validate_email("nobody@"));
    assert!(!User::validate_email("@example.com"));
}

#[test]
fn test_group_validate() {
    assert!(Group::validate_name("usefulAsciiString"))
}

#[test]
fn group_names() {
    assert!(!Group::validate_name("abc"));
    assert!(Group::validate_name("ab c!"));
    assert!(!Group::validate_name("Café society"));
}

#[test]
fn usernames_and_passwords() {
    assert!(User::validate_username("abcd"));
    assert!(!User::validate_username("abc"));
    assert!(!User::validate_username("abcd1"));
    assert!(!User::validate_username("äbcd"));
    assert!(User::validate_password("1234567"));
    assert!(!User::validate_password("123456"));
    // six characters but seven bytes
    assert!(User::validate_password("12345é"));
}

#[test]
fn new_groups_are_reviewed() {
    assert_eq!(review_new_group("Debating society", true, false), Err(GroupCreationError::NameTaken));
    assert_eq!(review_new_group("abc", false, false), Err(GroupCreationError::InvalidName));
    assert_eq!(review_new_group("Debating society", false, true), Err(GroupCreationError::WebsiteTaken));
    assert_eq!(review_new_group("Debating society", false, false), Ok(()));
}

fn user(may_create_resources: bool, is_superuser: bool) -> User {
    User {
        id: 1,
        public_id: "u".to_string(),
        username: Some("someone".to_string()),
        email: "someone@example.com".to_string(),
        email_verified: true,
        password_hash: "x".to_string(),
        created_at: NaiveDate::from_ymd_opt(2024, 1, 1).unwrap().and_hms_opt(0, 0, 0).unwrap(),
        is_superuser,
        may_create_resources,
    }
}

fn member(signing: bool, admin: bool) -> GroupMember {
    GroupMember { id: 1, group_id: 2, user_id: 1, has_signing_power_bool: signing, is_admin: admin }
}

#[test]
fn permissions_follow_membership() {
    let u = user(true, false);
    let g = GroupRef(2);
    assert!(has_permission(Some(&u), &Permission::CreateNewGroup, None, None));
    assert!(!has_permission(Some(&user(false, false)), &Permission::CreateNewGroup, None, None));
    assert!(!has_permission(None, &Permission::CreateNewGroup, None, None));
    assert!(has_permission(Some(&u), &Permission::ModifyResourceInGroup(g), Some(&member(false, true)), None));
    assert!(!has_permission(Some(&u), &Permission::ModifyResourceInGroup(g), Some(&member(false, false)), None));
    assert!(!has_permission(Some(&u), &Permission::CreateNewResourceInGroup(g), None, None));
    assert!(has_permission(Some(&u), &Permission::DeleteResourceInGroup(g), Some(&member(true, true)), None));
    assert!(!has_permission(Some(&u), &Permission::DeleteResourceInGroup(g), Some(&member(false, true)), None));
    assert!(!has_permission(None, &Permission::DeleteResourceInGroup(g), Some(&member(true, true)), None));
    assert!(has_permission(Some(&user(false, true)), &Permission::ModifyGlobalConfig, None, None));
    assert!(!has_permission(Some(&u), &Permission::ModifyGlobalConfig, None, None));
}

#[test]
fn registrations_follow_the_setting() {
    assert!(has_permission(None, &Permission::RegisterAsNewUser, None, None));
    assert!(has_permission(None, &Permission::RegisterAsNewUser, None, Some("0")));
    assert!(!has_permission(None, &Permission::RegisterAsNewUser, None, Some("1")));
    assert!(has_permission(None, &Permission::RegisterAsNewUser, None, Some("01")));
}

#[test]
fn numbers_read_as_u32() {
    assert!(reads_as_u32("0"));
    assert!(reads_as_u32("+17"));
    assert!(reads_as_u32("4294967295"));
    assert!(!reads_as_u32("4294967296"));
    assert!(!reads_as_u32(""));
    assert!(!reads_as_u32("+"));
    assert!(!reads_as_u32("-1"));
    assert!(!reads_as_u32(" 1"));
    for s in ["0", "+17", "4294967295", "4294967296", "", "+", "-1", " 1", "12a"] {
        assert_eq!(reads_as_u32(s), s.parse::<u32>().is_ok(), "{s:?}");
    }
}

fn setup_form(username: &str, email: &str, password: &str, password2: &str) -> SetupForm {
    SetupForm {
        username: username.to_string(),
        email: email.to_string(),
        password: password.to_string(),
        password2: password2.to_string(),
    }
}

#[test]
fn setup_forms_are_checked_in_order() {
    let good = setup_form("alice", "alice@example.com", "correct horse", "correct horse");
    assert_eq!(review_setup(0, &good), Ok(()));
    assert_eq!(review_setup(1, &good), Err(SetupProblem::AlreadySetUp));
    assert_eq!(review_setup(0, &setup_form("alice", "alice@example.com", "a", "b")), Err(SetupProblem::PasswordsDiffer));
    assert_eq!(review_setup(0, &setup_form("al ice", "x", "a", "a")), Err(SetupProblem::InvalidUsername));
    assert_eq!(review_setup(0, &setup_form("alice", "x", "a", "a")), Err(SetupProblem::InvalidEmail));
    assert_eq!(review_setup(0, &setup_form("alice", "alice@example.com", "short", "short")), Err(SetupProblem::WeakPassword));
    assert_eq!(SetupProblem::AlreadySetUp.message(), "Error: setup has already been performed!");
}

#[test]
fn registrations_are_checked_in_order() {
    let form = |u: &str, e: &str, p: &str, p2: &str| RegisterForm {
        username: u.to_string(),
        email: e.to_string(),
        password: p.to_string(),
        password2: p2.to_string(),
    };
    assert_eq!(review_registration(true, &form("alice", "alice@example.com", "x", "x")), Ok(()));
    assert_eq!(review_registration(false, &form("alice", "alice@example.com", "x", "x")), Err(RegistrationProblem::RegistrationsClosed));
    assert_eq!(review_registration(true, &form("alice", "alice@example.com", "x", "y")), Err(RegistrationProblem::PasswordsDiffer));
    assert_eq!(review_registration(true, &form("alice", "nope", "x", "x")), Err(RegistrationProblem::InvalidEmail));
    assert_eq!(review_registration(true, &form("a1", "alice@example.com", "x", "x")), Err(RegistrationProblem::InvalidUsername));
}

#[test]
fn password_changes_are_checked_in_order() {
    let form = |old: Option<&str>, p: &str, p2: &str| SetPasswordForm {
        old_password: old.map(|s| s.to_string()),
        password: p.to_string(),
        password2: p2.to_string(),
    };
    assert_eq!(review_password_change(&form(Some("old"), "new", "new"), true), Ok(()));
    assert_eq!(review_password_change(&form(Some("old"), "new", "other"), true), Err(PasswordChangeProblem::PasswordsDiffer));
    assert_eq!(review_password_change(&form(None, "new", "new"), true), Err(PasswordChangeProblem::OldPasswordMissing));
    assert_eq!(review_password_change(&form(Some("old"), "new", "new"), false), Err(PasswordChangeProblem::OldPasswordWrong));
    assert_eq!(PasswordChangeProblem::OldPasswordMissing.message(), "You have not specified the old password.");
}

#[test]
fn invitation_addresses_are_trimmed_and_lowered() {
    assert!(address_matches("bob@example.com", "  Bob@Example.COM\t"));
    assert!(!address_matches("bob@example.com", "bob@example.org"));
    assert!(address_matches("", "   "));
    assert!(!address_matches("bob@example.com", "bob @example.com"));
}

#[test]
fn invitations_are_checked_in_order() {
    let form = |u: &str, e: &str, p: &str, p2: &str| CreateAccountFromInvitationForm {
        username: u.to_string(),
        email: e.to_string(),
        password: p.to_string(),
        password2: p2.to_string(),
    };
    let ok = form("alice", " Alice@Example.com", "x", "x");
    assert_eq!(review_invite_acceptance(false, Some("alice@example.com"), &ok), Ok(()));
    assert_eq!(review_invite_acceptance(true, Some("alice@example.com"), &ok), Err(InviteProblem::LoggedIn));
    assert_eq!(review_invite_acceptance(false, None, &ok), Err(InviteProblem::InvalidInvite));
    assert_eq!(review_invite_acceptance(false, Some("carol@example.com"), &ok), Err(InviteProblem::EmailMismatch));
    assert_eq!(
        review_invite_acceptance(false, Some("alice@example.com"), &form("alice", "alice@example.com", "x", "y")),
        Err(InviteProblem::PasswordsDiffer)
    );
    assert_eq!(
        review_invite_acceptance(false, Some("alice@example.com"), &form("a b", "alice@example.com", "x", "x")),
        Err(InviteProblem::InvalidUsername)
    );
    assert!(InviteProblem::EmailMismatch.message("req-7").ends_with("quote `request_id=req-7`)."));
}

#[test]
fn invitations_are_sent_to_new_valid_addresses() {
    assert_eq!(review_invitation(false, "a@example.com", false), Err(InvitationProblem::Unauthorized));
    assert_eq!(review_invitation(true, "not an address", false), Err(InvitationProblem::InvalidEmail));
    assert_eq!(review_invitation(true, "a@example.com", true), Err(InvitationProblem::AlreadyRegistered));
    assert_eq!(review_invitation(true, "a@example.com", false), Ok(()));
}
