//! Clause parsing and single-rule evaluation.

use nyado::policy::{ClauseError, PermissionType, ResolveError};
use nyado::store::NyadoConfig;

fn strs(xs: &[&str]) -> Vec<String> {
    xs.iter().map(|s| s.to_string()).collect()
}

#[test]
fn parses_permit_all() {
    let perms = PermissionType::get_by_args(vec!["permit:all"]).unwrap();
    assert_eq!(perms, vec![PermissionType::COMMANDS_ALL]);
}

#[test]
fn parses_permit_list() {
    let perms = PermissionType::get_by_args(vec!["permit:ls,cat"]).unwrap();
    assert_eq!(perms, vec![PermissionType::COMMANDS(strs(&["ls", "cat"]))]);
}

#[test]
fn parses_permit_nopasswd_list() {
    let perms = PermissionType::get_by_args(vec!["permit_nopasswd:apt-get,systemctl", "nopasswd"])
        .unwrap();
    assert_eq!(
        perms,
        vec![
            PermissionType::COMMANDS_NOPASSWD(strs(&["apt-get", "systemctl"])),
            PermissionType::NOPASSWD,
        ]
    );
}

#[test]
fn rejects_unknown_pair() {
    let r = PermissionType::get_by_args(vec!["permit_unknown:all"]);
    assert_eq!(
        r,
        Err(ClauseError::UnknownPair(
            "permit_unknown".to_string(),
            "all".to_string()
        ))
    );
}

#[test]
fn rejects_unknown_bare_clause() {
    let r = PermissionType::get_by_args(vec!["frobnicate"]);
    assert_eq!(r, Err(ClauseError::Unknown("frobnicate".to_string())));
}

#[test]
fn permit_with_empty_list_keeps_one_empty_command() {
    // `permit:` carries the single empty command string, as splitting a
    // comma list of an empty value yields one empty piece.
    let perms = PermissionType::get_by_args(vec!["permit:"]).unwrap();
    assert_eq!(perms, vec![PermissionType::COMMANDS(strs(&[""]))]);
}

#[test]
fn permit_all_inside_a_list_is_a_plain_command() {
    // Only the exact value `all` means every command; `all,ls` is a list.
    let perms = PermissionType::get_by_args(vec!["permit:all,ls"]).unwrap();
    assert_eq!(perms, vec![PermissionType::COMMANDS(strs(&["all", "ls"]))]);
}

#[test]
fn permit_all_allows_every_command() {
    let c = NyadoConfig::empty();
    let rule = vec![
        PermissionType::NOPASSWD,
        PermissionType::COMMANDS(strs(&["mount"])),
        PermissionType::COMMANDS_ALL,
    ];
    for cmd in ["ls", "cat", "anything-at-all", ""] {
        let d = c.match_perms(&rule, &cmd.to_string()).unwrap();
        assert!(d.0);
    }
}

#[test]
fn nopasswd_list_alone_decides_both_ways() {
    let c = NyadoConfig::empty();
    let rule = vec![PermissionType::COMMANDS_NOPASSWD(strs(&["ls"]))];
    assert_eq!(c.match_perms(&rule, &"ls".to_string()), Ok((true, false)));
    assert_eq!(c.match_perms(&rule, &"cat".to_string()), Ok((false, true)));
    assert_eq!(c.match_perms(&rule, &"".to_string()), Ok((false, true)));
}

#[test]
fn nonmatching_nopasswd_list_resets_password_flag() {
    let c = NyadoConfig::empty();
    let rule = vec![
        PermissionType::NOPASSWD,
        PermissionType::COMMANDS_NOPASSWD(strs(&["ls"])),
    ];
    let d = c.match_perms(&rule, &"cat".to_string()).unwrap();
    assert!(d.1, "the non-matching second clause must reset the flag");
    assert_eq!(d, (false, true));
}

#[test]
fn nopasswd_flag_after_list_is_kept() {
    let c = NyadoConfig::empty();
    let rule = vec![
        PermissionType::COMMANDS_NOPASSWD(strs(&["ls"])),
        PermissionType::NOPASSWD,
    ];
    assert_eq!(c.match_perms(&rule, &"cat".to_string()), Ok((false, false)));
}

#[test]
fn command_list_leaves_password_required() {
    let c = NyadoConfig::empty();
    let rule = vec![PermissionType::COMMANDS(strs(&["ls", "cat"]))];
    assert_eq!(c.match_perms(&rule, &"ls".to_string()), Ok((true, true)));
    assert_eq!(c.match_perms(&rule, &"rm".to_string()), Ok((false, true)));
}

#[test]
fn regex_clause_fails_fast() {
    let c = NyadoConfig::empty();
    let rule = vec![PermissionType::COMMANDS_REGEX("ls.*".to_string())];
    assert_eq!(
        c.match_perms(&rule, &"ls".to_string()),
        Err(ResolveError::RegexUnsupported)
    );
}

#[test]
fn all_commands_before_regex_short_circuits() {
    let c = NyadoConfig::empty();
    let rule = vec![
        PermissionType::COMMANDS_ALL,
        PermissionType::COMMANDS_REGEX("x".to_string()),
    ];
    let d = c.match_perms(&rule, &"ls".to_string()).unwrap();
    assert!(d.0);
}
