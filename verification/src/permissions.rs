//! Who may do what. The database supplies the facts (the requester's
//! membership of the group concerned, the site configuration); the rules
//! are here.

use crate::edit_command::{chars_of, digits_value, is_digit};
use crate::group::GroupMember;
use crate::resources::GroupRef;
use crate::user::User;
use vstd::prelude::*;

verus! {

/// A permission for a given resource on the system.
#[derive(Debug, Clone, Copy, PartialEq, Eq, Structural)]
pub enum Permission {
    /// Create a new group.
    CreateNewGroup,
    /// Create any new resource in a given group, for example a spar series.
    CreateNewResourceInGroup(GroupRef),
    DeleteResourceInGroup(GroupRef),
    ModifyResourceInGroup(GroupRef),
    RegisterAsNewUser,
    /// Edit the site-wide configuration.
    ModifyGlobalConfig,
}

/// `s` reads as a `u32` the way `str::parse::<u32>` reads one: an optional
/// `+`, then at least one decimal digit, with a value of at most
/// `u32::MAX`.
pub open spec fn parses_as_u32(s: Seq<char>) -> bool {
    let start: int = if s.len() > 0 && s[0] == '+' { 1 } else { 0 };
    &&& s.len() > start
    &&& forall|i: int| start <= i < s.len() ==> is_digit(#[trigger] s[i])
    &&& digits_value(s, start, s.len() as int) <= u32::MAX
}

/// Whether `s` reads as a `u32`.
pub fn reads_as_u32(s: &str) -> (b: bool)
    ensures
        b == parses_as_u32(s@),
{
    let cs = chars_of(s);
    let start: usize = if cs.len() > 0 && cs[0] == '+' { 1 } else { 0 };
    if cs.len() <= start {
        return false;
    }
    let mut i = start;
    let mut acc: u64 = 0;
    while i < cs.len()
        invariant
            cs@ == s@,
            start <= i <= cs@.len(),
            start == (if cs@.len() > 0 && cs@[0] == '+' { 1int } else { 0int }),
            forall|j: int| start <= j < i ==> is_digit(#[trigger] cs@[j]),
            acc == digits_value(cs@, start as int, i as int),
            acc <= u32::MAX,
        decreases cs@.len() - i,
    {
        let c = cs[i];
        if !('0' <= c && c <= '9') {
            return false;
        }
        acc = acc * 10 + (c as u32 - '0' as u32) as u64;
        if acc > 0xffff_ffff {
            proof {
                crate::edit_command::lemma_digits_value_grows(cs@, start as int, i + 1, cs@.len() as int);
            }
            return false;
        }
        i = i + 1;
    }
    true
}

/// The checks that the permission rules make cannot fail: a member with
/// signing power is an administrator, and the setting that closes
/// registrations, where set, is a number.
pub open spec fn permission_inputs_sound(
    user: Option<&User>,
    permission: Permission,
    membership: Option<&GroupMember>,
    disable_signups: Option<&str>,
) -> bool {
    match permission {
        Permission::CreateNewResourceInGroup(_) | Permission::ModifyResourceInGroup(_) => (user is Some
            && membership is Some) ==> !(membership->0.has_signing_power_bool && !membership->0.is_admin),
        Permission::RegisterAsNewUser => disable_signups matches Some(v) ==> parses_as_u32(v@),
        _ => true,
    }
}

/// Whether the permission is granted, given the requester, their
/// membership of the group the permission concerns (if any), and the value
/// of the `disable_signups` setting (if set).
pub open spec fn permission_granted(
    user: Option<&User>,
    permission: Permission,
    membership: Option<&GroupMember>,
    disable_signups: Option<&str>,
) -> bool {
    match permission {
        Permission::CreateNewGroup => user matches Some(u) && u.may_create_resources,
        Permission::CreateNewResourceInGroup(_) | Permission::ModifyResourceInGroup(_) => user is Some
            && (membership matches Some(m) && (m.is_admin || m.has_signing_power_bool)),
        Permission::DeleteResourceInGroup(_) => user is Some && (membership matches Some(m)
            && m.has_signing_power_bool),
        Permission::RegisterAsNewUser => !(disable_signups matches Some(v) && v@ == "1"@),
        Permission::ModifyGlobalConfig => user matches Some(u) && u.is_superuser,
    }
}

/// Whoever may delete resources of a group may also create resources in it
/// and modify them.
pub proof fn lemma_delete_implies_modify(
    user: Option<&User>,
    group: GroupRef,
    membership: Option<&GroupMember>,
    disable_signups: Option<&str>,
)
    requires
        permission_granted(user, Permission::DeleteResourceInGroup(group), membership, disable_signups),
    ensures
        permission_granted(user, Permission::ModifyResourceInGroup(group), membership, disable_signups),
        permission_granted(user, Permission::CreateNewResourceInGroup(group), membership, disable_signups),
{
}

/// Returns whether a requester has the requisite permission on the given
/// object. `membership` is the requester's membership of the group that the
/// permission names, and `disable_signups` the `disable_signups` setting.
pub fn has_permission(
    user: Option<&User>,
    permission: &Permission,
    membership: Option<&GroupMember>,
    disable_signups: Option<&str>,
) -> (b: bool)
    requires
        permission_inputs_sound(user, *permission, membership, disable_signups),
    ensures
        b == permission_granted(user, *permission, membership, disable_signups),
{
    match permission {
        Permission::CreateNewGroup => match user {
            Some(user) => user.may_create_resources,
            None => false,
        },
        Permission::CreateNewResourceInGroup(_) | Permission::ModifyResourceInGroup(_) => {
            if user.is_none() {
                return false;
            }
            match membership {
                Some(m) => m.is_admin || m.has_signing_power_bool,
                None => false,
            }
        },
        Permission::DeleteResourceInGroup(_) => {
            if user.is_none() {
                return false;
            }
            match membership {
                Some(m) => m.has_signing_power_bool,
                None => false,
            }
        },
        Permission::RegisterAsNewUser => match disable_signups {
            Some(value) => !is_one(value),
            None => true,
        },
        Permission::ModifyGlobalConfig => match user {
            Some(user) => user.is_superuser,
            None => false,
        },
    }
}

/// Whether the text is exactly `1`.
fn is_one(s: &str) -> (b: bool)
    ensures
        b == (s@ == "1"@),
{
    let cs = chars_of(s);
    proof {
        reveal_strlit("1");
    }
    let r = cs.len() == 1 && cs[0] == '1';
    proof {
        if r {
            assert(s@ =~= "1"@);
        }
    }
    r
}

} // verus!
