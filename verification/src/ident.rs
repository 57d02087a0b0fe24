//! The identity provider: a caller identity snapshot, and trusted wrappers
//! around the system user and group database.
//!
//! What the database answers depends on the machine, so the wrappers promise
//! nothing about the values they hand back; every function of this crate
//! that takes such a value states what holds for each possible answer.

use vstd::prelude::*;

verus! {

/// An immutable snapshot of a caller identity for one invocation: the uid,
/// the primary group id, and the ids of all groups the user belongs to.
pub struct Identity {
    pub uid: u32,
    pub primary_gid: u32,
    pub group_ids: Vec<u32>,
}

/// Relies on users::get_user_by_name and users::User::uid: looks a user name
/// up in the system user database and hands back its uid, if the name
/// resolves to a user.
#[verifier::external_body]
pub(crate) fn uid_for_user_name(name: &str) -> Option<u32> {
    users::get_user_by_name(name).map(|u| u.uid())
}

/// Relies on users::get_group_by_name and users::Group::gid: looks a group
/// name up in the system group database and hands back its gid, if the name
/// resolves to a group.
#[verifier::external_body]
pub(crate) fn gid_for_group_name(name: &str) -> Option<u32> {
    users::get_group_by_name(name).map(|g| g.gid())
}

/// Relies on users::get_user_by_uid, users::User::primary_group_id,
/// users::User::groups and users::Group::gid: looks a uid up in the system
/// user database and hands back the user's primary gid together with the
/// gids of all groups the user belongs to, where the group list itself can
/// fail to load.
#[verifier::external_body]
pub(crate) fn lookup_user_by_uid(uid: u32) -> Option<(u32, Option<Vec<u32>>)> {
    users::get_user_by_uid(uid).map(
        |u| (u.primary_group_id(), u.groups().map(|gs| gs.iter().map(|g| g.gid()).collect())),
    )
}

} // verus!
