//! The launch gate, the credential transition order, and exit codes.

use nyado::launch::{
    IdentityError,
    exit_code_for, next_action, resolve_target, CredStep, LaunchAction, TransitionPlan,
};

#[test]
fn group_id_is_set_strictly_before_user_id() {
    let plan = TransitionPlan {
        target_uid: 1000,
        target_gid: 1000,
    };
    let steps = plan.steps();
    let gid_pos = steps
        .iter()
        .position(|s| matches!(s, CredStep::SetGroupId(_)))
        .unwrap();
    let uid_pos = steps
        .iter()
        .position(|s| matches!(s, CredStep::SetUserId(_)))
        .unwrap();
    assert!(gid_pos < uid_pos);
    assert_eq!(
        steps,
        vec![CredStep::SetGroupId(1000), CredStep::SetUserId(1000)]
    );
}

#[test]
fn password_is_asked_before_any_launch() {
    // Allowed with a password required: the verifier is consulted first,
    // and only its yes reaches the privilege transition.
    assert_eq!(next_action(true, true, None), LaunchAction::AskPassword);
    assert_eq!(next_action(true, true, Some(true)), LaunchAction::Launch);
    assert_eq!(next_action(true, true, Some(false)), LaunchAction::Deny);
}

#[test]
fn no_password_launches_directly_when_allowed() {
    assert_eq!(next_action(true, false, None), LaunchAction::Launch);
    assert_eq!(next_action(false, false, None), LaunchAction::Deny);
}

#[test]
fn denied_command_with_password_still_asks_first() {
    // The caller is challenged before the allow check, as the pipeline
    // orders it; a verified caller without permission is still denied.
    assert_eq!(next_action(false, true, None), LaunchAction::AskPassword);
    assert_eq!(next_action(false, true, Some(true)), LaunchAction::Deny);
    assert_eq!(next_action(false, true, Some(false)), LaunchAction::Deny);
}

#[test]
fn exit_code_propagates_or_falls_back() {
    assert_eq!(exit_code_for(Some(0)), 0);
    assert_eq!(exit_code_for(Some(42)), 42);
    assert_eq!(exit_code_for(None), -1);
}

#[test]
fn explicit_uid_override_selects_that_uid() {
    // uid 0 exists on every system this runs on.
    let plan = resolve_target(Some(0), None).unwrap();
    assert_eq!(plan.target_uid, 0);
}

#[test]
fn default_target_is_the_superuser() {
    let plan = resolve_target(None, None).unwrap();
    assert_eq!(plan.target_uid, 0);
}

#[test]
fn unresolvable_target_uid_is_refused() {
    let absent_uid = u32::MAX - 1;
    assert_eq!(
        resolve_target(Some(absent_uid), None),
        Err(IdentityError::UnknownTargetUid(absent_uid))
    );
}

#[test]
fn unresolvable_target_name_is_refused() {
    let name = "no_such_user_for_this_test".to_string();
    assert_eq!(
        resolve_target(None, Some(&name)),
        Err(IdentityError::UnknownTargetName(name.clone()))
    );
}
