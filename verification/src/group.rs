//! Groups (for instance a university's debating society) and their members.

use crate::edit_command::chars_of;
use crate::user::{copy_text, is_ascii_char, valid_group_name};
use chrono::NaiveDateTime;
use vstd::prelude::*;

verus! {

#[derive(Debug)]
pub struct Group {
    pub id: i64,
    pub public_id: String,
    pub name: String,
    pub website: Option<String>,
    pub created_at: NaiveDateTime,
}

impl Clone for Group {
    fn clone(&self) -> (r: Self)
        ensures
            r == *self,
    {
        Group {
            id: self.id,
            public_id: self.public_id.clone(),
            name: self.name.clone(),
            website: copy_text(&self.website),
            created_at: self.created_at.clone(),
        }
    }
}

/// A user's membership of a group. Signing power lets a member delete
/// resources of the group; administrators may modify them.
#[derive(Debug, Clone, Copy, PartialEq, Eq, Structural)]
pub struct GroupMember {
    pub id: i64,
    pub group_id: i64,
    pub user_id: i64,
    pub has_signing_power_bool: bool,
    pub is_admin: bool,
}

impl Group {
    /// A group name has more than three characters, all ASCII.
    pub fn validate_name(name: &str) -> (b: bool)
        ensures
            b == valid_group_name(name@),
    {
        let cs = chars_of(name);
        if cs.len() <= 3 {
            return false;
        }
        let mut i: usize = 0;
        while i < cs.len()
            invariant
                cs@ == name@,
                0 <= i <= cs@.len(),
                forall|j: int| 0 <= j < i ==> is_ascii_char(#[trigger] cs@[j]),
            decreases cs@.len() - i,
        {
            if (cs[i] as u32) >= 128 {
                return false;
            }
            i = i + 1;
        }
        true
    }
}

/// Why a group cannot be created.
#[derive(Debug, Clone, Copy, PartialEq, Eq, Structural)]
pub enum GroupCreationError {
    NameTaken,
    InvalidName,
    WebsiteTaken,
}

impl GroupCreationError {
    /// The message shown to the user.
    pub fn message(&self) -> (s: &'static str)
        ensures
            match self {
                GroupCreationError::NameTaken => s@ == "A group with that name already exists - please select a different name."@,
                GroupCreationError::InvalidName => s@ == "Error: that name is not valid (group names may be at most\n                     32 characters long)."@,
                GroupCreationError::WebsiteTaken => s@ == "Error: a different group with that website exists. (Note: a\n                        website can only be used by a single group!)"@,
            },
    {
        match self {
            GroupCreationError::NameTaken => "A group with that name already exists - please select a different name.",
            GroupCreationError::InvalidName => "Error: that name is not valid (group names may be at most\n                     32 characters long).",
            GroupCreationError::WebsiteTaken => "Error: a different group with that website exists. (Note: a\n                        website can only be used by a single group!)",
        }
    }
}

/// Decides whether a group with this name may be created: the name must
/// be free, then valid, and a website given with it must not be another
/// group's. `name_taken` and `website_taken` say whether another group
/// already has the name, or the (given) website.
pub fn review_new_group(name: &str, name_taken: bool, website_taken: bool) -> (r: Result<(), GroupCreationError>)
    ensures
        r == (if name_taken {
            Err(GroupCreationError::NameTaken)
        } else if !valid_group_name(name@) {
            Err(GroupCreationError::InvalidName)
        } else if website_taken {
            Err(GroupCreationError::WebsiteTaken)
        } else {
            Ok(())
        }),
{
    if name_taken {
        return Err(GroupCreationError::NameTaken);
    }
    if !Group::validate_name(name) {
        return Err(GroupCreationError::InvalidName);
    }
    if website_taken {
        return Err(GroupCreationError::WebsiteTaken);
    }
    Ok(())
}

} // verus!
