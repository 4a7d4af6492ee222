//! Rows of the service's database that carry no rules of their own.

use chrono::NaiveDateTime;
use vstd::prelude::*;

verus! {

/// A site-wide setting.
#[derive(Debug, Clone, PartialEq, Eq)]
pub struct ConfigItem {
    pub id: i64,
    pub public_id: String,
    pub key: String,
    pub value: String,
}

/// An email that was sent.
#[derive(Debug, Clone)]
pub struct EmailRow {
    pub id: i64,
    pub message_id: String,
    pub recipients: String,
    pub contents: Option<String>,
    pub created_at: NaiveDateTime,
}

/// An invitation to create an account.
#[derive(Debug, Clone)]
pub struct AccountInvite {
    pub id: i64,
    pub public_id: String,
    pub code: String,
    pub email: String,
    pub sent_by: i64,
    pub created_at: NaiveDateTime,
    pub may_create_resources: bool,
}

/// A one-time login code sent by email.
#[derive(Debug, Clone)]
pub struct MagicLink {
    pub id: i64,
    pub code: String,
    pub user_id: i64,
    pub created_at: NaiveDateTime,
    pub expires_at: NaiveDateTime,
    pub already_used: bool,
}

/// A draw which has not yet been confirmed; `data` holds the draw.
#[derive(Debug, Clone)]
pub struct DraftDraw {
    pub id: i64,
    pub public_id: String,
    pub data: Option<String>,
    pub spar_id: i64,
    pub version: i64,
    pub created_at: NaiveDateTime,
}

} // verus!
