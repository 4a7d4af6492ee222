//! The checks on the forms that create an account (the first
//! administrator's, or anyone's) and that change a password. Hashing and
//! storing the password are left to the caller.

use crate::edit_command::{chars_of, is_space, space_end};
use crate::user::{regex_compiles, regex_is_match, valid_password, valid_username, User, EMAIL_PATTERN};
use vstd::prelude::*;

verus! {

/// The form that creates the first user, an administrator.
#[derive(Debug, Clone)]
pub struct SetupForm {
    pub username: String,
    pub email: String,
    pub password: String,
    pub password2: String,
}

/// Why the first user cannot be created.
#[derive(Debug, Clone, Copy, PartialEq, Eq, Structural)]
pub enum SetupProblem {
    AlreadySetUp,
    PasswordsDiffer,
    InvalidUsername,
    InvalidEmail,
    WeakPassword,
}

impl SetupProblem {
    /// The message shown.
    pub fn message(&self) -> (s: &'static str)
        ensures
            match self {
                SetupProblem::AlreadySetUp => s@ == "Error: setup has already been performed!"@,
                SetupProblem::PasswordsDiffer => s@ == "Error: those passwords do not match!"@,
                SetupProblem::InvalidUsername => s@ == "Error: usernames must only consist of ASCII characters,\n                     and may _not_ contain spaces!"@,
                SetupProblem::InvalidEmail => s@ == "Error: your email is not a valid email."@,
                SetupProblem::WeakPassword => s@ == "Error: your password should be at least 6 characters."@,
            },
    {
        match self {
            SetupProblem::AlreadySetUp => "Error: setup has already been performed!",
            SetupProblem::PasswordsDiffer => "Error: those passwords do not match!",
            SetupProblem::InvalidUsername => "Error: usernames must only consist of ASCII characters,\n                     and may _not_ contain spaces!",
            SetupProblem::InvalidEmail => "Error: your email is not a valid email.",
            SetupProblem::WeakPassword => "Error: your password should be at least 6 characters.",
        }
    }
}

/// The text is an email address, by `EMAIL_PATTERN`.
pub open spec fn email_ok(s: Seq<char>) -> bool {
    regex_compiles(EMAIL_PATTERN@) && regex_is_match(EMAIL_PATTERN@, s)
}

/// What the setup form comes to, given how many users exist: the first
/// failing check, in the order shown, or `Ok`.
pub open spec fn setup_outcome(user_count: i64, form: SetupForm) -> Result<(), SetupProblem> {
    if user_count > 0 {
        Err(SetupProblem::AlreadySetUp)
    } else if form.password@ != form.password2@ {
        Err(SetupProblem::PasswordsDiffer)
    } else if !valid_username(form.username@) {
        Err(SetupProblem::InvalidUsername)
    } else if !email_ok(form.email@) {
        Err(SetupProblem::InvalidEmail)
    } else if !valid_password(form.password@) {
        Err(SetupProblem::WeakPassword)
    } else {
        Ok(())
    }
}

/// Checks the form that creates the first user.
pub fn review_setup(user_count: i64, form: &SetupForm) -> (r: Result<(), SetupProblem>)
    requires
        user_count >= 0,
    ensures
        r == setup_outcome(user_count, *form),
{
    if user_count > 0 {
        return Err(SetupProblem::AlreadySetUp);
    }
    if form.password != form.password2 {
        return Err(SetupProblem::PasswordsDiffer);
    }
    if !User::validate_username(&form.username) {
        return Err(SetupProblem::InvalidUsername);
    }
    if !User::validate_email(&form.email) {
        return Err(SetupProblem::InvalidEmail);
    }
    if !User::validate_password(&form.password) {
        return Err(SetupProblem::WeakPassword);
    }
    Ok(())
}

/// The form with which anyone registers an account.
#[derive(Debug, Clone)]
pub struct RegisterForm {
    pub username: String,
    pub email: String,
    pub password: String,
    pub password2: String,
}

/// Why an account cannot be registered.
#[derive(Debug, Clone, Copy, PartialEq, Eq, Structural)]
pub enum RegistrationProblem {
    RegistrationsClosed,
    PasswordsDiffer,
    InvalidEmail,
    InvalidUsername,
}

impl RegistrationProblem {
    /// The message shown.
    pub fn message(&self) -> (s: &'static str)
        ensures
            match self {
                RegistrationProblem::RegistrationsClosed => s@ == "Signups are currently disabled!"@,
                RegistrationProblem::PasswordsDiffer => s@ == "Error: your passwords do not match."@,
                RegistrationProblem::InvalidEmail => s@ == "Error: that email is not valid."@,
                RegistrationProblem::InvalidUsername => s@ == "Error: names should consist exclusively of letters\n                         and spaces."@,
            },
    {
        match self {
            RegistrationProblem::RegistrationsClosed => "Signups are currently disabled!",
            RegistrationProblem::PasswordsDiffer => "Error: your passwords do not match.",
            RegistrationProblem::InvalidEmail => "Error: that email is not valid.",
            RegistrationProblem::InvalidUsername => "Error: names should consist exclusively of letters\n                         and spaces.",
        }
    }
}

/// What the registration form comes to, given whether registrations are
/// open: the first failing check, in the order shown, or `Ok`.
pub open spec fn registration_outcome(registrations_open: bool, form: RegisterForm) -> Result<
    (),
    RegistrationProblem,
> {
    if !registrations_open {
        Err(RegistrationProblem::RegistrationsClosed)
    } else if form.password@ != form.password2@ {
        Err(RegistrationProblem::PasswordsDiffer)
    } else if !email_ok(form.email@) {
        Err(RegistrationProblem::InvalidEmail)
    } else if !valid_username(form.username@) {
        Err(RegistrationProblem::InvalidUsername)
    } else {
        Ok(())
    }
}

/// Checks a registration.
pub fn review_registration(registrations_open: bool, form: &RegisterForm) -> (r: Result<
    (),
    RegistrationProblem,
>)
    ensures
        r == registration_outcome(registrations_open, *form),
{
    if !registrations_open {
        return Err(RegistrationProblem::RegistrationsClosed);
    }
    if form.password != form.password2 {
        return Err(RegistrationProblem::PasswordsDiffer);
    }
    if !User::validate_email(&form.email) {
        return Err(RegistrationProblem::InvalidEmail);
    }
    if !User::validate_username(&form.username) {
        return Err(RegistrationProblem::InvalidUsername);
    }
    Ok(())
}

/// The form with which a user changes their password.
#[derive(Debug, Clone)]
pub struct SetPasswordForm {
    pub old_password: Option<String>,
    pub password: String,
    pub password2: String,
}

/// Why a password cannot be changed.
#[derive(Debug, Clone, Copy, PartialEq, Eq, Structural)]
pub enum PasswordChangeProblem {
    PasswordsDiffer,
    OldPasswordMissing,
    OldPasswordWrong,
}

impl PasswordChangeProblem {
    /// The message shown.
    pub fn message(&self) -> (s: &'static str)
        ensures
            match self {
                PasswordChangeProblem::PasswordsDiffer => s@ == "Those passwords do not match!"@,
                PasswordChangeProblem::OldPasswordMissing => s@ == "You have not specified the old password."@,
                PasswordChangeProblem::OldPasswordWrong => s@ == "The provided old password does not match your\n                                  actual, current, password."@,
            },
    {
        match self {
            PasswordChangeProblem::PasswordsDiffer => "Those passwords do not match!",
            PasswordChangeProblem::OldPasswordMissing => "You have not specified the old password.",
            PasswordChangeProblem::OldPasswordWrong => "The provided old password does not match your\n                                  actual, current, password.",
        }
    }
}

/// What a password change comes to; `old_password_matches` is whether
/// the old password given checks out against the stored hash.
pub open spec fn password_change_outcome(form: SetPasswordForm, old_password_matches: bool) -> Result<
    (),
    PasswordChangeProblem,
> {
    if form.password@ != form.password2@ {
        Err(PasswordChangeProblem::PasswordsDiffer)
    } else if form.old_password is None {
        Err(PasswordChangeProblem::OldPasswordMissing)
    } else if !old_password_matches {
        Err(PasswordChangeProblem::OldPasswordWrong)
    } else {
        Ok(())
    }
}

/// Checks a password change.
pub fn review_password_change(form: &SetPasswordForm, old_password_matches: bool) -> (r: Result<
    (),
    PasswordChangeProblem,
>)
    ensures
        r == password_change_outcome(*form, old_password_matches),
{
    if form.password != form.password2 {
        return Err(PasswordChangeProblem::PasswordsDiffer);
    }
    if form.old_password.is_none() {
        return Err(PasswordChangeProblem::OldPasswordMissing);
    }
    if !old_password_matches {
        return Err(PasswordChangeProblem::OldPasswordWrong);
    }
    Ok(())
}


/// The position after the last character of `s[..j]` that is not white
/// space (0 when there is none).
pub open spec fn trim_end(s: Seq<char>, j: int) -> int
    decreases j,
{
    if j > 0 && is_space(s[j - 1]) {
        trim_end(s, j - 1)
    } else {
        j
    }
}

/// The code of a character in ASCII lower case.
pub open spec fn lowercase_code(c: char) -> u32 {
    if 'A' <= c && c <= 'Z' {
        (c as u32 + 32) as u32
    } else {
        c as u32
    }
}

/// `invite` is `form` with white space trimmed from both ends and ASCII
/// letters in lower case.
pub open spec fn same_address(invite: Seq<char>, form: Seq<char>) -> bool {
    let a = space_end(form, 0);
    let b = trim_end(form, form.len() as int);
    let n = if a < b { b - a } else { 0 };
    &&& invite.len() == n
    &&& forall|i: int| 0 <= i < n ==> (#[trigger] invite[i]) as u32 == lowercase_code(form[a + i])
}

/// Whether the invitation's address is the address given in the form,
/// trimmed and in lower case.
pub fn address_matches(invite: &str, form: &str) -> (b: bool)
    ensures
        b == same_address(invite@, form@),
{
    let inv = chars_of(invite);
    let f = chars_of(form);
    let mut a: usize = 0;
    while a < f.len() && is_space_code(f[a])
        invariant
            0 <= a <= f@.len(),
            space_end(f@, a as int) == space_end(f@, 0),
        decreases f@.len() - a,
    {
        a = a + 1;
    }
    let mut b: usize = f.len();
    while b > 0 && is_space_code(f[b - 1])
        invariant
            0 <= b <= f@.len(),
            trim_end(f@, b as int) == trim_end(f@, f@.len() as int),
        decreases b,
    {
        b = b - 1;
    }
    let n: usize = if a < b { b - a } else { 0 };
    if inv.len() != n {
        return false;
    }
    let mut i: usize = 0;
    while i < n
        invariant
            inv@ == invite@,
            f@ == form@,
            a == space_end(f@, 0),
            b == trim_end(f@, f@.len() as int),
            n == (if a < b { b - a } else { 0 }),
            n <= f@.len(),
            a + n <= f@.len(),
            inv@.len() == n,
            0 <= i <= n,
            forall|k: int| 0 <= k < i ==> (#[trigger] inv@[k]) as u32 == lowercase_code(f@[a + k]),
        decreases n - i,
    {
        let c = f[a + i];
        let code: u32 = if 'A' <= c && c <= 'Z' { c as u32 + 32 } else { c as u32 };
        if inv[i] as u32 != code {
            return false;
        }
        i = i + 1;
    }
    true
}

/// Whether the character is white space.
fn is_space_code(c: char) -> (b: bool)
    ensures
        b == is_space(c),
{
    let n = c as u32;
    (0x9 <= n && n <= 0xd) || n == 0x20 || n == 0x85 || n == 0xa0 || n == 0x1680 || (0x2000 <= n
        && n <= 0x200a) || n == 0x2028 || n == 0x2029 || n == 0x202f || n == 0x205f || n == 0x3000
}

/// The form with which an invited person creates an account.
#[derive(Debug, Clone)]
pub struct CreateAccountFromInvitationForm {
    pub username: String,
    pub email: String,
    pub password: String,
    pub password2: String,
}

/// Why an invitation cannot be accepted.
#[derive(Debug, Clone, Copy, PartialEq, Eq, Structural)]
pub enum InviteProblem {
    LoggedIn,
    InvalidInvite,
    EmailMismatch,
    PasswordsDiffer,
    InvalidUsername,
}

impl InviteProblem {
    /// The message shown; a mismatched address quotes the request's id.
    pub fn message(&self, request_id: &str) -> (s: String)
        ensures
            match self {
                InviteProblem::LoggedIn => s@ == "Error: you can not accept an invite as a logged-in user."@,
                InviteProblem::InvalidInvite => s@ == "Error: that invite is not valid (it may have expired)."@,
                InviteProblem::EmailMismatch => s@ == "Error: the email address from your form\n                                        submission doesn't match the invite\n                                        code. (If you believe this is an error,\n                                        please contact the system administrator\n                                        and quote `request_id="@
                    + request_id@ + "`)."@,
                InviteProblem::PasswordsDiffer => s@ == "Error: your passwords do not match."@,
                InviteProblem::InvalidUsername => s@ == "Error: names should consist exclusively of letters\n                         and spaces."@,
            },
    {
        match self {
            InviteProblem::LoggedIn => String::from_str("Error: you can not accept an invite as a logged-in user."),
            InviteProblem::InvalidInvite => String::from_str("Error: that invite is not valid (it may have expired)."),
            InviteProblem::EmailMismatch => {
                let mut s = String::from_str(
                    "Error: the email address from your form\n                                        submission doesn't match the invite\n                                        code. (If you believe this is an error,\n                                        please contact the system administrator\n                                        and quote `request_id=",
                );
                s.append(request_id);
                s.append("`).");
                s
            },
            InviteProblem::PasswordsDiffer => String::from_str("Error: your passwords do not match."),
            InviteProblem::InvalidUsername => String::from_str("Error: names should consist exclusively of letters\n                         and spaces."),
        }
    }
}

/// What accepting an invitation comes to: `invite_email` is the address
/// of the invitation when it is valid (it exists, and no user has its
/// address yet), `None` otherwise.
pub open spec fn invite_outcome(
    logged_in: bool,
    invite_email: Option<Seq<char>>,
    form: CreateAccountFromInvitationForm,
) -> Result<(), InviteProblem> {
    if logged_in {
        Err(InviteProblem::LoggedIn)
    } else if invite_email is None {
        Err(InviteProblem::InvalidInvite)
    } else if !same_address(invite_email->0, form.email@) {
        Err(InviteProblem::EmailMismatch)
    } else if form.password@ != form.password2@ {
        Err(InviteProblem::PasswordsDiffer)
    } else if !valid_username(form.username@) {
        Err(InviteProblem::InvalidUsername)
    } else {
        Ok(())
    }
}

/// Checks the acceptance of an invitation.
pub fn review_invite_acceptance(
    logged_in: bool,
    invite_email: Option<&str>,
    form: &CreateAccountFromInvitationForm,
) -> (r: Result<(), InviteProblem>)
    ensures
        r == invite_outcome(
            logged_in,
            match invite_email {
                Some(e) => Some(e@),
                None => None,
            },
            *form,
        ),
{
    if logged_in {
        return Err(InviteProblem::LoggedIn);
    }
    let invite_email = match invite_email {
        None => return Err(InviteProblem::InvalidInvite),
        Some(e) => e,
    };
    if !address_matches(invite_email, form.email.as_str()) {
        return Err(InviteProblem::EmailMismatch);
    }
    if form.password != form.password2 {
        return Err(InviteProblem::PasswordsDiffer);
    }
    if !User::validate_username(&form.username) {
        return Err(InviteProblem::InvalidUsername);
    }
    Ok(())
}


/// Why an invitation cannot be sent.
#[derive(Debug, Clone, Copy, PartialEq, Eq, Structural)]
pub enum InvitationProblem {
    /// The requester may not edit the site's configuration.
    Unauthorized,
    InvalidEmail,
    /// A user with the address exists.
    AlreadyRegistered,
}

impl InvitationProblem {
    /// The message shown.
    pub fn message(&self) -> (s: &'static str)
        ensures
            match self {
                InvitationProblem::Unauthorized => s@ == "Error: you are not authorized to view this page"@,
                InvitationProblem::InvalidEmail => s@ == "Error: the provided email is not a valid email address."@,
                InvitationProblem::AlreadyRegistered => s@ == "Error: a user with that email is already registered!"@,
            },
    {
        match self {
            InvitationProblem::Unauthorized => "Error: you are not authorized to view this page",
            InvitationProblem::InvalidEmail => "Error: the provided email is not a valid email address.",
            InvitationProblem::AlreadyRegistered => "Error: a user with that email is already registered!",
        }
    }
}

/// What an invitation to the address comes to.
pub open spec fn invitation_outcome(authorized: bool, email: Seq<char>, already_registered: bool) -> Result<
    (),
    InvitationProblem,
> {
    if !authorized {
        Err(InvitationProblem::Unauthorized)
    } else if !email_ok(email) {
        Err(InvitationProblem::InvalidEmail)
    } else if already_registered {
        Err(InvitationProblem::AlreadyRegistered)
    } else {
        Ok(())
    }
}

/// Checks an invitation: `authorized` is whether the requester may edit
/// the site's configuration, `already_registered` whether a user has the
/// address.
pub fn review_invitation(authorized: bool, email: &str, already_registered: bool) -> (r: Result<
    (),
    InvitationProblem,
>)
    ensures
        r == invitation_outcome(authorized, email@, already_registered),
{
    if !authorized {
        return Err(InvitationProblem::Unauthorized);
    }
    if !User::validate_email(email) {
        return Err(InvitationProblem::InvalidEmail);
    }
    if already_registered {
        return Err(InvitationProblem::AlreadyRegistered);
    }
    Ok(())
}

} // verus!
