//! The privileged launcher's decision kernel.
//!
//! The irreversible work — changing the process credentials and replacing
//! the process image — is performed outside this crate. What is decided
//! here, and proved: when a launch may proceed at all, in what order the
//! credential transition steps must run (the group id strictly before the
//! user id, while the process still holds elevated privilege), which target
//! identity is selected, and which exit status is propagated.

use vstd::prelude::*;

use crate::ident::{lookup_user_by_uid, uid_for_user_name};

verus! {

/// One step of the credential transition.
#[derive(Clone, Copy, Debug, PartialEq, Eq, Structural)]
pub enum CredStep {
    /// Set the process group id.
    SetGroupId(u32),
    /// Set the process user id.
    SetUserId(u32),
}

/// A fully resolved credential transition: the target uid and the target's
/// primary gid. The launcher consumes one plan exactly once.
#[derive(Debug, PartialEq)]
pub struct TransitionPlan {
    pub target_uid: u32,
    pub target_gid: u32,
}

/// The steps of a plan, in the one order that is safe: the group id is set
/// first, while user-id privilege is still held, then the user id.
pub open spec fn plan_steps(p: TransitionPlan) -> Seq<CredStep> {
    seq![CredStep::SetGroupId(p.target_gid), CredStep::SetUserId(p.target_uid)]
}

impl TransitionPlan {
    /// The ordered credential transition steps of this plan.
    pub fn steps(self) -> (v: Vec<CredStep>)
        ensures
            v@ == plan_steps(self),
    {
        let mut v: Vec<CredStep> = Vec::new();
        v.push(CredStep::SetGroupId(self.target_gid));
        v.push(CredStep::SetUserId(self.target_uid));
        proof {
            assert(v@ =~= plan_steps(self));
        }
        v
    }
}

/// Law: in every transition plan, every group-id step stands strictly
/// before every user-id step — the group id is changed while the process
/// still holds its user-id privilege.
pub proof fn lemma_gid_set_before_uid(p: TransitionPlan)
    ensures
        forall|i: int, j: int|
            0 <= i < plan_steps(p).len() && 0 <= j < plan_steps(p).len() && plan_steps(
                p,
            )[i] is SetGroupId && plan_steps(p)[j] is SetUserId ==> i < j,
        exists|i: int| 0 <= i < plan_steps(p).len() && plan_steps(p)[i] is SetGroupId,
        exists|i: int| 0 <= i < plan_steps(p).len() && plan_steps(p)[i] is SetUserId,
{
    assert(plan_steps(p)[0] is SetGroupId);
    assert(plan_steps(p)[1] is SetUserId);
}

/// An error resolving the target identity.
#[derive(Debug, PartialEq)]
pub enum IdentityError {
    /// No user with this uid exists.
    UnknownTargetUid(u32),
    /// No user with this name exists.
    UnknownTargetName(String),
}

/// Resolves the launch target: an explicit uid override wins, then a name
/// override, and with no override the superuser identity (uid 0); the
/// target's primary gid comes from the identity provider, and a target
/// whose uid or gid does not resolve is refused — the launcher never runs
/// with a guessed gid.
pub fn resolve_target(userid: Option<u32>, username: Option<&String>) -> (r: Result<
    TransitionPlan,
    IdentityError,
>)
    ensures
        userid is Some && r is Ok ==> r.unwrap().target_uid == userid.unwrap(),
        userid is Some && r is Err ==> r.unwrap_err() == IdentityError::UnknownTargetUid(
            userid.unwrap(),
        ),
        userid is None && username is None && r is Ok ==> r.unwrap().target_uid == 0,
        userid is None && username is None && r is Err ==> r.unwrap_err()
            == IdentityError::UnknownTargetUid(0),
        userid is None && username is Some && r is Err && r.unwrap_err() is UnknownTargetName
            ==> r.unwrap_err()->UnknownTargetName_0@ == username.unwrap()@,
{
    match userid {
        Some(uid) => {
            match lookup_user_by_uid(uid) {
                Some((gid, _groups)) => Ok(TransitionPlan { target_uid: uid, target_gid: gid }),
                None => Err(IdentityError::UnknownTargetUid(uid)),
            }
        },
        None => {
            match username {
                Some(name) => {
                    match uid_for_user_name(name.as_str()) {
                        None => Err(IdentityError::UnknownTargetName(name.clone())),
                        Some(uid) => {
                            match lookup_user_by_uid(uid) {
                                Some((gid, _groups)) => Ok(
                                    TransitionPlan { target_uid: uid, target_gid: gid },
                                ),
                                None => Err(IdentityError::UnknownTargetUid(uid)),
                            }
                        },
                    }
                },
                None => {
                    match lookup_user_by_uid(0) {
                        Some((gid, _groups)) => Ok(TransitionPlan { target_uid: 0, target_gid: gid }),
                        None => Err(IdentityError::UnknownTargetUid(0)),
                    }
                },
            }
        },
    }
}

/// What the launcher must do next, given a decision and the credential
/// verifier's answer so far.
#[derive(Clone, Copy, Debug, PartialEq, Eq, Structural)]
pub enum LaunchAction {
    /// Refuse: the invocation ends with a permission-denied failure.
    Deny,
    /// Consult the external credential verifier, then decide again.
    AskPassword,
    /// Proceed: transition credentials and replace the process image.
    Launch,
}

/// Decides the next step of the launch pipeline. `auth` is the credential
/// verifier's answer, `None` while it has not been consulted. A launch is
/// reached only when the command is allowed and, where a password is
/// required, the verifier has already said yes: credential verification
/// strictly precedes the privilege transition.
pub fn next_action(allowed: bool, password_required: bool, auth: Option<bool>) -> (a: LaunchAction)
    ensures
        (a == LaunchAction::AskPassword) == (password_required && auth is None),
        (a == LaunchAction::Launch) == (allowed && (password_required ==> auth == Some(true))),
        (a == LaunchAction::Deny) == ((password_required && auth == Some(false)) || (!allowed && !(
        password_required && auth is None))),
{
    if password_required {
        match auth {
            None => LaunchAction::AskPassword,
            Some(false) => LaunchAction::Deny,
            Some(true) => if allowed {
                LaunchAction::Launch
            } else {
                LaunchAction::Deny
            },
        }
    } else {
        if allowed {
            LaunchAction::Launch
        } else {
            LaunchAction::Deny
        }
    }
}

/// The exit status propagated from the target command: its own exit code,
/// or a sentinel when the child was killed by a signal or its status is
/// otherwise unrecoverable.
pub fn exit_code_for(status: Option<i32>) -> (r: i32)
    ensures
        r == (match status {
            Some(c) => c,
            None => -1i32,
        }),
{
    match status {
        Some(c) => c,
        None => -1,
    }
}

} // verus!
