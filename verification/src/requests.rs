//! The rules for requests from members: signing up for a spar (with an
//! optional speaking partner) and asking to join a spar series. The
//! database supplies the facts; the decisions are here.

use crate::spar::{Spar, SparSeries};
use crate::user::{is_valid_email, regex_compiles, regex_is_match, EMAIL_PATTERN};
use vstd::prelude::*;

verus! {

/// Why a sign-up for a spar is refused.
#[derive(Debug, Clone, Copy, PartialEq, Eq, Structural)]
pub enum SignupProblem {
    /// Sign-ups are closed, or the draw has been released.
    SignupsClosed,
    /// The member signing up does not exist.
    NoSuchMember,
    /// A speaking partner was chosen by someone who only judges.
    PartnerButNotSpeaking,
    /// The chosen partner is not a member of the spar's series.
    InvalidPartner,
    /// The chosen partner has chosen to speak with someone else.
    PartnerChoseSomeoneElse,
}

impl SignupProblem {
    /// The message shown to the member.
    pub fn message(&self) -> (s: &'static str)
        ensures
            match self {
                SignupProblem::SignupsClosed => s@ == "Error: the draw for this spar has already been\n                            released (you can no longer sign up)."@,
                SignupProblem::NoSuchMember => s@ == "No such member in spar."@,
                SignupProblem::PartnerButNotSpeaking => s@ == "You have selected a preferred speaking partner, but\n                            only signed up to judge in this spar. Please return\n                            to the previous page, and either sign up as a\n                            speaker, or remove your preferred speaking partner."@,
                SignupProblem::InvalidPartner => s@ == "Error: you have provided an invalid speaking\n                                        partner (this should never happen)."@,
                SignupProblem::PartnerChoseSomeoneElse => s@ == "The person you have signed up to speak with\n                                        has selected a different speaking partner!."@,
            },
    {
        match self {
            SignupProblem::SignupsClosed => "Error: the draw for this spar has already been\n                            released (you can no longer sign up).",
            SignupProblem::NoSuchMember => "No such member in spar.",
            SignupProblem::PartnerButNotSpeaking => "You have selected a preferred speaking partner, but\n                            only signed up to judge in this spar. Please return\n                            to the previous page, and either sign up as a\n                            speaker, or remove your preferred speaking partner.",
            SignupProblem::InvalidPartner => "Error: you have provided an invalid speaking\n                                        partner (this should never happen).",
            SignupProblem::PartnerChoseSomeoneElse => "The person you have signed up to speak with\n                                        has selected a different speaking partner!.",
        }
    }
}

/// What a sign-up for a spar comes to. `member` is the id of the member
/// signing up, if there is such a member; `partner_requested` says whether
/// a speaking partner was chosen, `partner` is that partner's id among the
/// members of the spar's series, if found, and `partner_choices` the
/// partners that the partner has already chosen in sign-ups for this spar.
pub open spec fn signup_outcome(
    spar: Spar,
    member: Option<i64>,
    as_speaker: bool,
    partner_requested: bool,
    partner: Option<i64>,
    partner_choices: Seq<i64>,
) -> Result<Option<i64>, SignupProblem> {
    if spar.release_draw || !spar.is_open {
        Err(SignupProblem::SignupsClosed)
    } else if member is None {
        Err(SignupProblem::NoSuchMember)
    } else if !partner_requested {
        Ok(None)
    } else if !as_speaker {
        Err(SignupProblem::PartnerButNotSpeaking)
    } else if partner is None {
        Err(SignupProblem::InvalidPartner)
    } else if exists|k: int| 0 <= k < partner_choices.len() && partner_choices[k] != member->0 {
        Err(SignupProblem::PartnerChoseSomeoneElse)
    } else {
        Ok(partner)
    }
}

/// Decides a sign-up for a spar: `Ok` with the speaking partner to record
/// (if any), or why the sign-up is refused.
#[verifier::loop_isolation(false)]
pub fn review_spar_signup(
    spar: &Spar,
    member: Option<i64>,
    as_speaker: bool,
    partner_requested: bool,
    partner: Option<i64>,
    partner_choices: &Vec<i64>,
) -> (r: Result<Option<i64>, SignupProblem>)
    ensures
        r == signup_outcome(*spar, member, as_speaker, partner_requested, partner, partner_choices@),
        r is Ok ==> spar.is_open && !spar.release_draw && member is Some,
        r == Ok::<Option<i64>, SignupProblem>(None) <==> spar.is_open && !spar.release_draw && member is Some
            && !partner_requested,
        r matches Ok(Some(p)) ==> partner_requested && as_speaker && partner == Some(p) && forall|k: int|
            0 <= k < partner_choices@.len() ==> partner_choices@[k] == member->0,
        spar.release_draw || !spar.is_open ==> r == Err::<Option<i64>, SignupProblem>(SignupProblem::SignupsClosed),
{
    if spar.release_draw || !spar.is_open {
        return Err(SignupProblem::SignupsClosed);
    }
    let member = match member {
        None => return Err(SignupProblem::NoSuchMember),
        Some(m) => m,
    };
    if !partner_requested {
        return Ok(None);
    }
    if !as_speaker {
        return Err(SignupProblem::PartnerButNotSpeaking);
    }
    let partner_id = match partner {
        None => return Err(SignupProblem::InvalidPartner),
        Some(p) => p,
    };
    let mut k: usize = 0;
    while k < partner_choices.len()
        invariant
            0 <= k <= partner_choices.len(),
            forall|j: int| 0 <= j < k ==> partner_choices@[j] == member,
        decreases partner_choices.len() - k,
    {
        if partner_choices[k] != member {
            assert(partner_choices@[k as int] != member);
            return Err(SignupProblem::PartnerChoseSomeoneElse);
        }
        k = k + 1;
    }
    Ok(Some(partner_id))
}

/// What a request to join a spar series comes to.
#[derive(Debug, Clone, Copy, PartialEq, Eq, Structural)]
pub enum JoinRequestOutcome {
    /// The email address is not valid.
    InvalidEmail,
    /// There is no such series.
    NoSuchSeries,
    /// The series takes no join requests.
    Closed,
    /// Someone with this name or email address has already asked to join.
    AlreadyRequested,
    /// A member with this name or email address exists.
    AlreadyMember,
    /// The series approves requests itself: the requester joins now.
    JoinNow,
    /// The request waits for an administrator's approval.
    AwaitApproval,
}

impl JoinRequestOutcome {
    /// The message shown to the requester; a series that does not exist
    /// gets the "not found" page, with no message of its own.
    pub fn message(&self) -> (s: Option<&'static str>)
        ensures
            match self {
                JoinRequestOutcome::InvalidEmail => s is Some && s->0@ == "Error: invalid email supplied."@,
                JoinRequestOutcome::Closed => s is Some && s->0@ == "Error: join requests are closed for this spar series."@,
                JoinRequestOutcome::AlreadyRequested => s is Some && s->0@ == "Error: you have already requested to join this spar!"@,
                JoinRequestOutcome::AlreadyMember => s is Some && s->0@ == "Error: A user with this name or email already exists in this spar series."@,
                JoinRequestOutcome::JoinNow => s is Some && s->0@ == "You are now a member of this spar series. Please return\n                        to the spar and sign up!"@,
                JoinRequestOutcome::AwaitApproval => s is Some && s->0@ == "Your request to join this spar series has been recorded. Please talk to the administrator of this spar and ask them\n                        to approve you!"@,
                JoinRequestOutcome::NoSuchSeries => s is None,
            },
    {
        match self {
            JoinRequestOutcome::InvalidEmail => Some("Error: invalid email supplied."),
            JoinRequestOutcome::NoSuchSeries => None,
            JoinRequestOutcome::Closed => Some("Error: join requests are closed for this spar series."),
            JoinRequestOutcome::AlreadyRequested => Some("Error: you have already requested to join this spar!"),
            JoinRequestOutcome::AlreadyMember => Some("Error: A user with this name or email already exists in this spar series."),
            JoinRequestOutcome::JoinNow => Some("You are now a member of this spar series. Please return\n                        to the spar and sign up!"),
            JoinRequestOutcome::AwaitApproval => Some("Your request to join this spar series has been recorded. Please talk to the administrator of this spar and ask them\n                        to approve you!"),
        }
    }
}

/// What a request to join `series` (if it exists) comes to, given whether
/// a request with the same name or email address exists and whether a
/// member with it does.
pub open spec fn join_request_outcome(
    email: Seq<char>,
    series: Option<SparSeries>,
    already_requested: bool,
    already_member: bool,
) -> JoinRequestOutcome {
    if !(regex_compiles(EMAIL_PATTERN@) && regex_is_match(EMAIL_PATTERN@, email)) {
        JoinRequestOutcome::InvalidEmail
    } else if series is None {
        JoinRequestOutcome::NoSuchSeries
    } else if !series->0.allow_join_requests {
        JoinRequestOutcome::Closed
    } else if already_requested {
        JoinRequestOutcome::AlreadyRequested
    } else if already_member {
        JoinRequestOutcome::AlreadyMember
    } else if series->0.auto_approve_join_requests {
        JoinRequestOutcome::JoinNow
    } else {
        JoinRequestOutcome::AwaitApproval
    }
}

/// A second request to join a series that takes requests is refused as a
/// repeat, whether or not the requester has meanwhile become a member; a
/// request goes through, at once or for approval, only from someone who has
/// neither asked before nor is a member.
pub proof fn lemma_repeated_join_request_refused(
    email: Seq<char>,
    series: Option<SparSeries>,
    already_requested: bool,
    already_member: bool,
)
    ensures
        ({
            let r = join_request_outcome(email, series, already_requested, already_member);
            &&& already_requested && series is Some && series->0.allow_join_requests ==> r
                == JoinRequestOutcome::AlreadyRequested || r == JoinRequestOutcome::InvalidEmail
            &&& r == JoinRequestOutcome::AlreadyRequested ==> already_requested
            &&& r == JoinRequestOutcome::JoinNow || r == JoinRequestOutcome::AwaitApproval
                ==> !already_requested && !already_member
            &&& already_requested ==> join_request_outcome(email, series, true, true)
                == join_request_outcome(email, series, true, false)
        }),
{
}

/// Decides a request to join a spar series.
pub fn review_join_request(
    email: &str,
    series: Option<&SparSeries>,
    already_requested: bool,
    already_member: bool,
) -> (r: JoinRequestOutcome)
    ensures
        r == join_request_outcome(
            email@,
            match series {
                Some(s) => Some(*s),
                None => None,
            },
            already_requested,
            already_member,
        ),
        r == JoinRequestOutcome::AlreadyRequested ==> already_requested,
        r == JoinRequestOutcome::AlreadyMember ==> already_member && !already_requested,
        r == JoinRequestOutcome::JoinNow || r == JoinRequestOutcome::AwaitApproval ==> !already_requested
            && !already_member,
        already_requested && series is Some && series->0.allow_join_requests ==> r
            == JoinRequestOutcome::AlreadyRequested || r == JoinRequestOutcome::InvalidEmail,
        already_member && series is Some && series->0.allow_join_requests ==> r
            == JoinRequestOutcome::AlreadyRequested || r == JoinRequestOutcome::AlreadyMember || r
            == JoinRequestOutcome::InvalidEmail,
{
    if !is_valid_email(email) {
        return JoinRequestOutcome::InvalidEmail;
    }
    let series = match series {
        None => return JoinRequestOutcome::NoSuchSeries,
        Some(s) => s,
    };
    if !series.allow_join_requests {
        JoinRequestOutcome::Closed
    } else if already_requested {
        JoinRequestOutcome::AlreadyRequested
    } else if already_member {
        JoinRequestOutcome::AlreadyMember
    } else if series.auto_approve_join_requests {
        JoinRequestOutcome::JoinNow
    } else {
        JoinRequestOutcome::AwaitApproval
    }
}


/// Why a member cannot be added to a spar series.
#[derive(Debug, Clone, Copy, PartialEq, Eq, Structural)]
pub enum NewMemberProblem {
    /// The requester does not administer the series' group.
    Unauthorized,
    /// The name is shorter than three bytes.
    NameTooShort,
    InvalidEmail,
    /// A member with this name or email address exists.
    AlreadyMember,
}

impl NewMemberProblem {
    /// The message shown.
    pub fn message(&self) -> (s: &'static str)
        ensures
            match self {
                NewMemberProblem::Unauthorized => s@ == "Error: you are not authorized to administer this group."@,
                NewMemberProblem::NameTooShort => s@ == "Error: names must be at least 3 characters!"@,
                NewMemberProblem::InvalidEmail => s@ == "Error: the provided email is not valid!"@,
                NewMemberProblem::AlreadyMember => s@ == "Error: A member with this name or email already exists in this spar series!"@,
            },
    {
        match self {
            NewMemberProblem::Unauthorized => "Error: you are not authorized to administer this group.",
            NewMemberProblem::NameTooShort => "Error: names must be at least 3 characters!",
            NewMemberProblem::InvalidEmail => "Error: the provided email is not valid!",
            NewMemberProblem::AlreadyMember => "Error: A member with this name or email already exists in this spar series!",
        }
    }
}

/// What adding a member comes to: `authorized` is whether the requester
/// may modify the series' group, and `already_member` whether a member
/// with the name or the email address exists.
pub open spec fn new_member_outcome(
    authorized: bool,
    name: Seq<char>,
    email: Seq<char>,
    already_member: bool,
) -> Result<(), NewMemberProblem> {
    if !authorized {
        Err(NewMemberProblem::Unauthorized)
    } else if (vstd::utf8::encode_utf8(name).len() as usize) < 3 {
        Err(NewMemberProblem::NameTooShort)
    } else if !(regex_compiles(EMAIL_PATTERN@) && regex_is_match(EMAIL_PATTERN@, email)) {
        Err(NewMemberProblem::InvalidEmail)
    } else if already_member {
        Err(NewMemberProblem::AlreadyMember)
    } else {
        Ok(())
    }
}

/// Checks the addition of a member to a spar series.
pub fn review_new_member(authorized: bool, name: &str, email: &str, already_member: bool) -> (r: Result<
    (),
    NewMemberProblem,
>)
    ensures
        r == new_member_outcome(authorized, name@, email@, already_member),
{
    if !authorized {
        return Err(NewMemberProblem::Unauthorized);
    }
    if name.len() < 3 {
        return Err(NewMemberProblem::NameTooShort);
    }
    if !is_valid_email(email) {
        return Err(NewMemberProblem::InvalidEmail);
    }
    if already_member {
        return Err(NewMemberProblem::AlreadyMember);
    }
    Ok(())
}


/// Why a spar series cannot be created.
#[derive(Debug, Clone, Copy, PartialEq, Eq, Structural)]
pub enum NewSeriesProblem {
    /// The requester may not create resources in the group.
    Unauthorized,
    /// The group has a series with this title.
    TitleTaken,
}

impl NewSeriesProblem {
    /// The message shown.
    pub fn message(&self) -> (s: &'static str)
        ensures
            match self {
                NewSeriesProblem::Unauthorized => s@ == "Error: you do not have permission to do that!"@,
                NewSeriesProblem::TitleTaken => s@ == "Error: a spar series with that name already exists. Please pick a new name!"@,
            },
    {
        match self {
            NewSeriesProblem::Unauthorized => "Error: you do not have permission to do that!",
            NewSeriesProblem::TitleTaken => "Error: a spar series with that name already exists. Please pick a new name!",
        }
    }
}

/// Checks the creation of a spar series: the requester must be allowed to
/// create resources in the group, and the title must be free.
pub fn review_new_spar_series(authorized: bool, title_taken: bool) -> (r: Result<(), NewSeriesProblem>)
    ensures
        r == (if !authorized {
            Err(NewSeriesProblem::Unauthorized)
        } else if title_taken {
            Err(NewSeriesProblem::TitleTaken)
        } else {
            Ok(())
        }),
{
    if !authorized {
        Err(NewSeriesProblem::Unauthorized)
    } else if title_taken {
        Err(NewSeriesProblem::TitleTaken)
    } else {
        Ok(())
    }
}

} // verus!
