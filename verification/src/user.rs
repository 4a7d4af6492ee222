//! User accounts and the rules that their fields must follow.

use crate::edit_command::chars_of;
use chrono::NaiveDateTime;
use vstd::prelude::*;

verus! {

/// The name of the cookie that records a login.
pub const LOGIN_COOKIE: &'static str = "jeremy_bearimy";

#[derive(Debug)]
pub struct User {
    pub id: i64,
    pub public_id: String,
    pub username: Option<String>,
    pub email: String,
    pub email_verified: bool,
    pub password_hash: String,
    pub created_at: NaiveDateTime,
    pub is_superuser: bool,
    /// Whether the user may create groups.
    pub may_create_resources: bool,
}

/// A copy of an optional piece of text.
pub fn copy_text(t: &Option<String>) -> (r: Option<String>)
    ensures
        r == *t,
{
    match t {
        Some(s) => Some(s.clone()),
        None => None,
    }
}

impl Clone for User {
    fn clone(&self) -> (r: Self)
        ensures
            r == *self,
    {
        User {
            id: self.id,
            public_id: self.public_id.clone(),
            username: copy_text(&self.username),
            email: self.email.clone(),
            email_verified: self.email_verified,
            password_hash: self.password_hash.clone(),
            created_at: self.created_at.clone(),
            is_superuser: self.is_superuser,
            may_create_resources: self.may_create_resources,
        }
    }
}

/// Why a request could not be tied to a logged-in user.
#[derive(Debug, Clone, Copy, PartialEq, Eq, Structural)]
pub enum AuthError {
    CookieMissingOrMalformed,
    NoDatabase,
    Unauthorized,
}

/// What the login cookie records.
#[derive(Debug, Clone, Copy, PartialEq, Eq, Structural)]
pub struct LoginSession {
    pub id: i64,
}

/// The pattern that email addresses are checked against: an RFC 5322 style
/// address, lower case, found anywhere in the text.
pub const EMAIL_PATTERN: &'static str = r#"(?:[a-z0-9!#$%&'*+/=?^_`{|}~-]+(?:\.[a-z0-9!#$%&'*+/=?^_`{|}~-]+)*|"(?:[\x01-\x08\x0b\x0c\x0e-\x1f\x21\x23-\x5b\x5d-\x7f]|\\[\x01-\x09\x0b\x0c\x0e-\x7f])*")@(?:(?:[a-z0-9](?:[a-z0-9-]*[a-z0-9])?\.)+[a-z0-9](?:[a-z0-9-]*[a-z0-9])?|\[(?:(?:25[0-5]|2[0-4][0-9]|[01]?[0-9][0-9]?)\.){3}(?:25[0-5]|2[0-4][0-9]|[01]?[0-9][0-9]?|[a-z0-9-]*[a-z0-9]:(?:[\x01-\x08\x0b\x0c\x0e-\x1f\x21-\x5a\x53-\x7f]|\\[\x01-\x09\x0b\x0c\x0e-\x7f])+)\])"#;

/// `regex::Regex::new` accepts the pattern.
pub uninterp spec fn regex_compiles(pattern: Seq<char>) -> bool;

/// A regular expression with this pattern matches somewhere in the
/// haystack, as `regex::Regex::is_match` decides.
pub uninterp spec fn regex_is_match(pattern: Seq<char>, haystack: Seq<char>) -> bool;

/// A compiled regular expression, with the pattern it was compiled from.
pub struct Pattern {
    re: regex::Regex,
    source: Ghost<Seq<char>>,
}

impl View for Pattern {
    type V = Seq<char>;

    closed spec fn view(&self) -> Seq<char> {
        self.source@
    }
}

/// `regex::Regex::new`: compiles `pattern`, failing exactly when the regex
/// crate refuses it; the compiled pattern remembers its source.
#[verifier::external_body]
fn compile_pattern(pattern: &str) -> (r: Option<Pattern>)
    ensures
        r is Some <==> regex_compiles(pattern@),
        r matches Some(p) ==> p@ == pattern@,
{
    match regex::Regex::new(pattern) {
        Ok(re) => Some(Pattern { re, source: Ghost(pattern@) }),
        Err(_) => None,
    }
}

/// `regex::Regex::is_match`: whether the pattern matches anywhere in
/// `haystack`.
#[verifier::external_body]
fn pattern_is_match(p: &Pattern, haystack: &str) -> (b: bool)
    ensures
        b == regex_is_match(p@, haystack@),
{
    p.re.is_match(haystack)
}

/// Whether the text holds an email address, by `EMAIL_PATTERN`.
pub fn is_valid_email(string: &str) -> (b: bool)
    ensures
        b == (regex_compiles(EMAIL_PATTERN@) && regex_is_match(EMAIL_PATTERN@, string@)),
{
    match compile_pattern(EMAIL_PATTERN) {
        Some(p) => pattern_is_match(&p, string),
        None => false,
    }
}

/// An ASCII letter, `a` to `z` or `A` to `Z`.
pub open spec fn is_ascii_letter(c: char) -> bool {
    ('a' <= c && c <= 'z') || ('A' <= c && c <= 'Z')
}

/// An ASCII character.
pub open spec fn is_ascii_char(c: char) -> bool {
    (c as u32) < 128
}

/// A username has more than three characters, all ASCII letters.
pub open spec fn valid_username(s: Seq<char>) -> bool {
    s.len() > 3 && forall|i: int| 0 <= i < s.len() ==> is_ascii_letter(#[trigger] s[i])
}

/// A password is longer than six bytes of UTF-8.
pub open spec fn valid_password(s: Seq<char>) -> bool {
    vstd::utf8::encode_utf8(s).len() as usize > 6
}

/// A group name has more than three characters, all ASCII.
pub open spec fn valid_group_name(s: Seq<char>) -> bool {
    s.len() > 3 && forall|i: int| 0 <= i < s.len() ==> is_ascii_char(#[trigger] s[i])
}

impl User {
    pub fn validate_email(email: &str) -> (b: bool)
        ensures
            b == (regex_compiles(EMAIL_PATTERN@) && regex_is_match(EMAIL_PATTERN@, email@)),
    {
        is_valid_email(email)
    }

    /// A username has more than three characters, all ASCII letters.
    pub fn validate_username(username: &str) -> (b: bool)
        ensures
            b == valid_username(username@),
    {
        let cs = chars_of(username);
        if cs.len() <= 3 {
            return false;
        }
        let mut i: usize = 0;
        while i < cs.len()
            invariant
                cs@ == username@,
                0 <= i <= cs@.len(),
                forall|j: int| 0 <= j < i ==> is_ascii_letter(#[trigger] cs@[j]),
            decreases cs@.len() - i,
        {
            let c = cs[i];
            if !(('a' <= c && c <= 'z') || ('A' <= c && c <= 'Z')) {
                return false;
            }
            i = i + 1;
        }
        true
    }

    /// A password is longer than six bytes of UTF-8.
    pub fn validate_password(password: &str) -> (b: bool)
        ensures
            b == valid_password(password@),
    {
        password.len() > 6
    }
}

} // verus!
