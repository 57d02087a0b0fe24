//! Store building, text loading, and resolution.

use nyado::ident::Identity;
use nyado::policy::{PermissionType, ResolveError};
use nyado::store::{ConfigError, Entry, NyadoConfig, SubjectKind};

fn strs(xs: &[&str]) -> Vec<String> {
    xs.iter().map(|s| s.to_string()).collect()
}

fn ident(uid: u32, gids: &[u32]) -> Identity {
    Identity {
        uid,
        primary_gid: gids.first().copied().unwrap_or(uid),
        group_ids: gids.to_vec(),
    }
}

#[test]
fn unmatched_identity_is_denied_with_password() {
    let c = NyadoConfig::from_entries(vec![
        Entry {
            kind: SubjectKind::User,
            id: 10,
            perms: vec![PermissionType::COMMANDS_ALL],
        },
        Entry {
            kind: SubjectKind::Group,
            id: 100,
            perms: vec![PermissionType::COMMANDS_ALL],
        },
    ]);
    let caller = ident(42, &[300, 301]);
    assert_eq!(c.resolve(&caller, "ls"), Ok((false, true)));
}

#[test]
fn empty_store_denies_by_default() {
    let c = NyadoConfig::empty();
    assert_eq!(c.resolve(&ident(0, &[0]), "ls"), Ok((false, true)));
}

#[test]
fn direct_user_entry_decides_alone() {
    // The user entry denies "rm"; a group of the caller would allow it,
    // but group membership is not consulted when a user entry exists.
    let c = NyadoConfig::from_entries(vec![
        Entry {
            kind: SubjectKind::User,
            id: 7,
            perms: vec![PermissionType::COMMANDS(strs(&["ls"]))],
        },
        Entry {
            kind: SubjectKind::Group,
            id: 70,
            perms: vec![PermissionType::COMMANDS_ALL],
        },
    ]);
    let caller = ident(7, &[70]);
    assert_eq!(c.resolve(&caller, "ls"), Ok((true, true)));
    assert_eq!(c.resolve(&caller, "rm"), Ok((false, true)));
}

#[test]
fn last_matching_group_wins() {
    // Group A allows everything, group B (later in store order) does not
    // list the command: the caller belongs to both, and B's denying result
    // stands — results are not merged.
    let c = NyadoConfig::from_entries(vec![
        Entry {
            kind: SubjectKind::Group,
            id: 100,
            perms: vec![PermissionType::COMMANDS_ALL],
        },
        Entry {
            kind: SubjectKind::Group,
            id: 200,
            perms: vec![PermissionType::COMMANDS(strs(&["zzz"]))],
        },
    ]);
    let caller = ident(42, &[100, 200]);
    assert_eq!(c.resolve(&caller, "ls"), Ok((false, true)));
    // The same caller with only the allowing group is allowed.
    let caller_a = ident(42, &[100]);
    assert_eq!(c.resolve(&caller_a, "ls"), Ok((true, true)));
}

#[test]
fn duplicate_subject_last_occurrence_wins() {
    let c = NyadoConfig::from_entries(vec![
        Entry {
            kind: SubjectKind::User,
            id: 5,
            perms: vec![PermissionType::COMMANDS(strs(&["ls"]))],
        },
        Entry {
            kind: SubjectKind::User,
            id: 5,
            perms: vec![PermissionType::COMMANDS(strs(&["cat"]))],
        },
    ]);
    let caller = ident(5, &[]);
    assert_eq!(c.resolve(&caller, "ls"), Ok((false, true)));
    assert_eq!(c.resolve(&caller, "cat"), Ok((true, true)));
}

#[test]
fn rejects_unknown_clause_keyword_with_line() {
    let r = NyadoConfig::from_text("user root permit_unknown:all");
    assert_eq!(
        r.unwrap_err(),
        ConfigError::UnknownClausePair {
            line: 1,
            key: "permit_unknown".to_string(),
            value: "all".to_string(),
        }
    );
}

#[test]
fn rejects_unknown_leading_token_with_line() {
    let r = NyadoConfig::from_text("# a comment\nhost foo permit:all");
    assert_eq!(
        r.unwrap_err(),
        ConfigError::UnknownField {
            line: 2,
            field: "host".to_string(),
        }
    );
}

#[test]
fn failed_load_returns_no_store() {
    // The failing line stands after a well-formed one: the whole load is
    // refused, no partial store is handed back.
    let r = NyadoConfig::from_text("user root permit:all\nhost foo permit:all");
    assert!(r.is_err());
}

#[test]
fn rejects_subject_kind_without_name() {
    let r = NyadoConfig::from_text("user");
    assert_eq!(
        r.unwrap_err(),
        ConfigError::UnknownField {
            line: 1,
            field: "user".to_string(),
        }
    );
}

#[test]
fn rejects_unresolvable_user_name() {
    let r = NyadoConfig::from_text("user no_such_user_for_this_test permit:all");
    assert_eq!(
        r.unwrap_err(),
        ConfigError::UnknownUser {
            line: 1,
            name: "no_such_user_for_this_test".to_string(),
        }
    );
}

#[test]
fn rejects_bare_unknown_clause_with_line() {
    let r = NyadoConfig::from_text("user root frobnicate");
    assert_eq!(
        r.unwrap_err(),
        ConfigError::UnknownClause {
            line: 1,
            clause: "frobnicate".to_string(),
        }
    );
}

#[test]
fn rejects_unresolvable_group_name() {
    let r = NyadoConfig::from_text("group no_such_group_for_this_test permit:all");
    assert_eq!(
        r.unwrap_err(),
        ConfigError::UnknownGroup {
            line: 1,
            name: "no_such_group_for_this_test".to_string(),
        }
    );
}

#[test]
fn unresolvable_caller_uid_is_an_identity_error() {
    // An entry exists for the uid, but the identity provider does not know
    // it: the lookup failure is surfaced, not a decision.
    let absent_uid = u32::MAX - 1;
    let c = NyadoConfig::from_entries(vec![Entry {
        kind: SubjectKind::User,
        id: absent_uid,
        perms: vec![PermissionType::COMMANDS_ALL],
    }]);
    assert_eq!(
        c.user_match_perms(absent_uid, "ls".to_string()),
        Err(ResolveError::UnknownIdentity)
    );
}

#[test]
fn comments_and_blank_lines_are_ignored() {
    let c = NyadoConfig::from_text("# comment\n\n   \n  # indented comment\n").unwrap();
    assert_eq!(c.resolve(&ident(1, &[1]), "ls"), Ok((false, true)));
}

#[test]
fn loads_root_user_rule_from_text() {
    // The superuser exists on every system this runs on.
    let c = NyadoConfig::from_text("user root permit:ls,cat").unwrap();
    let caller = ident(0, &[0]);
    assert_eq!(c.resolve(&caller, "ls"), Ok((true, true)));
    assert_eq!(c.resolve(&caller, "rm"), Ok((false, true)));
}

#[test]
fn user_match_perms_finds_direct_entry() {
    // uid 0 resolves on every system this runs on, so the direct entry is
    // evaluated.
    let c = NyadoConfig::from_entries(vec![Entry {
        kind: SubjectKind::User,
        id: 0,
        perms: vec![PermissionType::COMMANDS(strs(&["ls"]))],
    }]);
    assert_eq!(c.user_match_perms(0, "ls".to_string()), Ok((true, true)));
    assert_eq!(c.user_match_perms(0, "rm".to_string()), Ok((false, true)));
}
