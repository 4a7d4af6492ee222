//! Verified core of a debating-spar management service: draft draws and
//! their edits, reconstruction of rooms from solver output, ballots and
//! rankings, input validation and permission decisions, and a reference
//! model of the service's records that is stepped by fuzzing actions.

pub mod accounts;
pub mod assets;
pub mod ballot;
pub mod compute_elo;
pub mod confirm_draw;
pub mod database_check;
pub mod draft_draw;
pub mod edit_command;
pub mod group;
pub mod model;
pub mod outside;
pub mod permissions;
pub mod records;
pub mod request_ids;
pub mod requests;
pub mod resources;
pub mod room;
pub mod service_requests;
pub mod slides;
pub mod solve_allocation;
pub mod spar;
pub mod sync;
pub mod user;
