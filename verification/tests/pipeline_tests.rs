//! End-to-end: resolution feeding the launch gate.

use nyado::ident::Identity;
use nyado::launch::{next_action, LaunchAction};
use nyado::policy::PermissionType;
use nyado::store::{Entry, NyadoConfig, SubjectKind};

#[test]
fn permitted_command_with_password_goes_through_the_verifier() {
    // Policy: the caller may run ls and cat, with no nopasswd clause, so a
    // credential challenge stands before any launch.
    let perms = PermissionType::get_by_args(vec!["permit:ls,cat"]).unwrap();
    let c = NyadoConfig::from_entries(vec![Entry {
        kind: SubjectKind::User,
        id: 1042,
        perms,
    }]);
    let caller = Identity {
        uid: 1042,
        primary_gid: 1042,
        group_ids: vec![1042],
    };
    let decision = c.resolve(&caller, "ls").unwrap();
    assert_eq!(decision, (true, true));
    // First the caller must be challenged ...
    assert_eq!(
        next_action(decision.0, decision.1, None),
        LaunchAction::AskPassword
    );
    // ... and only its approval reaches the privilege transition.
    assert_eq!(
        next_action(decision.0, decision.1, Some(true)),
        LaunchAction::Launch
    );
    assert_eq!(
        next_action(decision.0, decision.1, Some(false)),
        LaunchAction::Deny
    );
}

#[test]
fn group_allow_then_group_deny_ends_denied() {
    // Two groups hold the caller; the allowing one stands first in store
    // order, the denying one last, and the last result stands.
    let allow_all = PermissionType::get_by_args(vec!["permit:all"]).unwrap();
    let unrelated = PermissionType::get_by_args(vec!["permit:zzz"]).unwrap();
    let c = NyadoConfig::from_entries(vec![
        Entry {
            kind: SubjectKind::Group,
            id: 800,
            perms: allow_all,
        },
        Entry {
            kind: SubjectKind::Group,
            id: 900,
            perms: unrelated,
        },
    ]);
    let caller = Identity {
        uid: 4242,
        primary_gid: 800,
        group_ids: vec![800, 900],
    };
    let decision = c.resolve(&caller, "ls").unwrap();
    assert_eq!(decision, (false, true));
    assert_eq!(
        next_action(decision.0, decision.1, Some(true)),
        LaunchAction::Deny
    );
}
