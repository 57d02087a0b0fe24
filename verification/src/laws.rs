//! General laws of the policy engine, proved once and for all inputs.

use vstd::prelude::*;

use crate::policy::{
    eval_rule, eval_rule_from, parse_clause_spec, parse_clauses_spec, Perm, ResolveError,
};
use crate::store::{
    build_cfg, entries_match, eval_groups_from, has_key, key_index, lemma_key_index, map_insert,
    matching_rules, parse_line_spec, parse_lines_spec, parse_text_spec, resolve_spec, rule_of,
    ConfigV, DirectiveV, EntryV,
};
use crate::text::{split_sep, split_ws};

verus! {

/// Whether a rule holds no pattern-based clause.
pub open spec fn regex_free(perms: Seq<Perm>) -> bool {
    forall|i: int| 0 <= i < perms.len() ==> !((#[trigger] perms[i]) is Regex)
}

/// Whether a rule holds an allow-all clause.
pub open spec fn has_all_commands(perms: Seq<Perm>) -> bool {
    exists|i: int| 0 <= i < perms.len() && (#[trigger] perms[i]) is AllCommands
}

/// Scanning a regex-free rule that still holds an allow-all clause — or
/// that has already allowed the command — ends in an allowing decision.
proof fn lemma_eval_from_all(perms: Seq<Perm>, cmd: Seq<char>, allowed: bool, password: bool)
    requires
        regex_free(perms),
        allowed || has_all_commands(perms),
    ensures
        eval_rule_from(perms, cmd, allowed, password) is Ok,
        eval_rule_from(perms, cmd, allowed, password)->Ok_0.0,
    decreases perms.len(),
{
    if perms.len() == 0 {
    } else {
        assert(!(perms[0] is Regex));
        assert(forall|k: int|
            0 <= k < perms.skip(1).len() ==> #[trigger] perms.skip(1)[k] == perms[k + 1]);
        if !allowed && !(perms[0] is AllCommands) {
            let w = choose|i: int| 0 <= i < perms.len() && (#[trigger] perms[i]) is AllCommands;
            assert(w >= 1);
            assert(perms.skip(1)[w - 1] is AllCommands);
            assert(has_all_commands(perms.skip(1)));
        }
        match perms[0] {
            Perm::AllCommands => {},
            Perm::Commands(cmds) => {
                lemma_eval_from_all(perms.skip(1), cmd, allowed || cmds.contains(cmd), password);
            },
            Perm::Regex(_) => {},
            Perm::CommandsNoPasswd(cmds) => {
                if !cmds.contains(cmd) {
                    lemma_eval_from_all(perms.skip(1), cmd, allowed, true);
                }
            },
            Perm::NoPasswd => {
                lemma_eval_from_all(perms.skip(1), cmd, allowed, false);
            },
        }
    }
}

/// Law: a regex-free rule that holds an allow-all clause allows every
/// command string, whatever the other clauses are and wherever they stand.
/// (A pattern clause standing before the allow-all clause would instead
/// fail evaluation fast, so those rules are left out; the policy parser
/// never produces one.)
pub proof fn lemma_all_commands_allows(perms: Seq<Perm>, cmd: Seq<char>)
    requires
        regex_free(perms),
        has_all_commands(perms),
    ensures
        eval_rule(perms, cmd) is Ok,
        eval_rule(perms, cmd)->Ok_0.0,
{
    lemma_eval_from_all(perms, cmd, false, true);
}

/// No group entry whose gid the caller holds means no matching rule.
proof fn lemma_no_match_empty(groups: Seq<(u32, Seq<Perm>)>, gids: Seq<u32>)
    requires
        forall|i: int| 0 <= i < groups.len() ==> !gids.contains((#[trigger] groups[i]).0),
    ensures
        matching_rules(groups, gids) == Seq::<Seq<Perm>>::empty(),
    decreases groups.len(),
{
    if groups.len() > 0 {
        assert(!gids.contains(groups[0].0));
        assert(forall|k: int|
            0 <= k < groups.skip(1).len() ==> #[trigger] groups.skip(1)[k] == groups[k + 1]);
        lemma_no_match_empty(groups.skip(1), gids);
    }
}

/// Law: fail closed. An identity with no direct user entry and no group
/// entry matching any of its gids resolves to denied, password required.
pub proof fn lemma_resolve_default_deny(c: ConfigV, uid: u32, gids: Seq<u32>, cmd: Seq<char>)
    requires
        rule_of(c.users, uid) is None,
        forall|i: int| 0 <= i < c.groups.len() ==> !gids.contains((#[trigger] c.groups[i]).0),
    ensures
        resolve_spec(c, uid, gids, cmd) == Ok::<(bool, bool), ResolveError>((false, true)),
{
    lemma_no_match_empty(c.groups, gids);
}

/// Law: the clause parser never yields a pattern-based clause, so every
/// rule read from a policy text is regex-free and evaluates without
/// failing fast.
pub proof fn lemma_parsed_clauses_regex_free(ts: Seq<Seq<char>>)
    requires
        parse_clauses_spec(ts) is Ok,
    ensures
        regex_free(parse_clauses_spec(ts)->Ok_0),
    decreases ts.len(),
{
    if ts.len() == 0 {
    } else {
        assert(!(parse_clause_spec(ts[0])->Ok_0 is Regex));
        lemma_parsed_clauses_regex_free(ts.skip(1));
        let p = parse_clause_spec(ts[0])->Ok_0;
        let ps = parse_clauses_spec(ts.skip(1))->Ok_0;
        let whole = parse_clauses_spec(ts)->Ok_0;
        assert(whole == seq![p] + ps);
        assert forall|i: int| 0 <= i < whole.len() implies !((#[trigger] whole[i]) is Regex) by {
            if i == 0 {
                assert(whole[0] == p);
            } else {
                assert(whole[i] == ps[i - 1]);
            }
        }
    }
}

/// Whether every rule of one store map is regex-free.
pub open spec fn regex_free_map(m: Seq<(u32, Seq<Perm>)>) -> bool {
    forall|i: int| 0 <= i < m.len() ==> regex_free((#[trigger] m[i]).1)
}

/// Whether every rule of a store is regex-free.
pub open spec fn regex_free_cfg(c: ConfigV) -> bool {
    regex_free_map(c.users) && regex_free_map(c.groups)
}

/// Inserting a regex-free rule keeps a map regex-free.
proof fn lemma_insert_regex_free(m: Seq<(u32, Seq<Perm>)>, id: u32, perms: Seq<Perm>)
    requires
        regex_free_map(m),
        regex_free(perms),
    ensures
        regex_free_map(map_insert(m, id, perms)),
{
    lemma_key_index(m, id);
    let mm = map_insert(m, id, perms);
    assert forall|i: int| 0 <= i < mm.len() implies regex_free((#[trigger] mm[i]).1) by {
        if has_key(m, id) {
            if i != key_index(m, id) {
                assert(mm[i] == m[i]);
            }
        } else {
            if i < m.len() {
                assert(mm[i] == m[i]);
            }
        }
    }
}

/// A store folded from regex-free entries is regex-free.
proof fn lemma_build_regex_free(es: Seq<EntryV>)
    requires
        forall|i: int| 0 <= i < es.len() ==> regex_free((#[trigger] es[i]).perms),
    ensures
        regex_free_cfg(build_cfg(es)),
    decreases es.len(),
{
    if es.len() > 0 {
        assert(forall|i: int|
            0 <= i < es.drop_last().len() ==> #[trigger] es.drop_last()[i] == es[i]);
        lemma_build_regex_free(es.drop_last());
        let prev = build_cfg(es.drop_last());
        let e = es.last();
        match e.kind {
            crate::store::SubjectKind::User => lemma_insert_regex_free(prev.users, e.id, e.perms),
            crate::store::SubjectKind::Group => lemma_insert_regex_free(prev.groups, e.id, e.perms),
        }
    }
}

/// Every directive a policy text parses to carries a regex-free rule.
proof fn lemma_parsed_lines_regex_free(lines: Seq<Seq<char>>, lineno: int)
    requires
        parse_lines_spec(lines, lineno) is Ok,
    ensures
        forall|i: int|
            0 <= i < parse_lines_spec(lines, lineno)->Ok_0.len() ==> regex_free(
                (#[trigger] parse_lines_spec(lines, lineno)->Ok_0[i]).perms,
            ),
    decreases lines.len(),
{
    if lines.len() == 0 {
    } else {
        let toks = split_ws(lines[0]);
        match parse_line_spec(lineno, lines[0]) {
            Err(_) => {},
            Ok(None) => {
                lemma_parsed_lines_regex_free(lines.skip(1), lineno + 1);
            },
            Ok(Some(d)) => {
                assert(parse_clauses_spec(toks.skip(2)) is Ok);
                lemma_parsed_clauses_regex_free(toks.skip(2));
                assert(regex_free(d.perms));
                lemma_parsed_lines_regex_free(lines.skip(1), lineno + 1);
                let ds = parse_lines_spec(lines.skip(1), lineno + 1)->Ok_0;
                let whole = parse_lines_spec(lines, lineno)->Ok_0;
                assert(whole == seq![d] + ds);
                assert forall|i: int| 0 <= i < whole.len() implies regex_free(
                    (#[trigger] whole[i]).perms,
                ) by {
                    if i == 0 {
                        assert(whole[0] == d);
                    } else {
                        assert(whole[i] == ds[i - 1]);
                    }
                }
            },
        }
    }
}

/// Law: a store loaded from a policy text holds only regex-free rules —
/// the grammar has no way to write the unimplemented pattern clause.
pub proof fn lemma_loaded_store_regex_free(
    text: Seq<char>,
    dirs: Seq<DirectiveV>,
    es: Seq<EntryV>,
    c: ConfigV,
)
    requires
        parse_text_spec(text) == Ok::<Seq<DirectiveV>, crate::store::ConfigErrorV>(dirs),
        entries_match(dirs, es),
        c == build_cfg(es),
    ensures
        regex_free_cfg(c),
{
    lemma_parsed_lines_regex_free(split_sep(text, '\n'), 1);
    assert forall|i: int| 0 <= i < es.len() implies regex_free((#[trigger] es[i]).perms) by {
        assert(es[i].perms == dirs[i].perms);
        assert(regex_free(dirs[i].perms));
    }
    lemma_build_regex_free(es);
}

/// Scanning any regex-free rule ends without failing fast.
proof fn lemma_eval_from_total(perms: Seq<Perm>, cmd: Seq<char>, allowed: bool, password: bool)
    requires
        regex_free(perms),
    ensures
        eval_rule_from(perms, cmd, allowed, password) is Ok,
    decreases perms.len(),
{
    if perms.len() > 0 {
        assert(!(perms[0] is Regex));
        assert(forall|k: int|
            0 <= k < perms.skip(1).len() ==> #[trigger] perms.skip(1)[k] == perms[k + 1]);
        match perms[0] {
            Perm::AllCommands => {},
            Perm::Commands(cmds) => {
                lemma_eval_from_total(perms.skip(1), cmd, allowed || cmds.contains(cmd), password);
            },
            Perm::Regex(_) => {},
            Perm::CommandsNoPasswd(cmds) => {
                if !cmds.contains(cmd) {
                    lemma_eval_from_total(perms.skip(1), cmd, allowed, true);
                }
            },
            Perm::NoPasswd => {
                lemma_eval_from_total(perms.skip(1), cmd, allowed, false);
            },
        }
    }
}

/// Every rule matched out of a regex-free group map is regex-free.
proof fn lemma_matching_rules_regex_free(groups: Seq<(u32, Seq<Perm>)>, gids: Seq<u32>)
    requires
        regex_free_map(groups),
    ensures
        forall|i: int|
            0 <= i < matching_rules(groups, gids).len() ==> regex_free(
                #[trigger] matching_rules(groups, gids)[i],
            ),
    decreases groups.len(),
{
    if groups.len() > 0 {
        assert(forall|k: int|
            0 <= k < groups.skip(1).len() ==> #[trigger] groups.skip(1)[k] == groups[k + 1]);
        lemma_matching_rules_regex_free(groups.skip(1), gids);
        let rest = matching_rules(groups.skip(1), gids);
        let whole = matching_rules(groups, gids);
        if gids.contains(groups[0].0) {
            assert(whole == seq![groups[0].1] + rest);
            assert forall|i: int| 0 <= i < whole.len() implies regex_free(#[trigger] whole[i]) by {
                if i == 0 {
                    assert(whole[0] == groups[0].1);
                } else {
                    assert(whole[i] == rest[i - 1]);
                }
            }
        }
    }
}

/// Evaluating regex-free rules in sequence ends without failing fast.
proof fn lemma_eval_groups_total(rules: Seq<Seq<Perm>>, cmd: Seq<char>, acc: (bool, bool))
    requires
        forall|i: int| 0 <= i < rules.len() ==> regex_free(#[trigger] rules[i]),
    ensures
        eval_groups_from(rules, cmd, acc) is Ok,
    decreases rules.len(),
{
    if rules.len() > 0 {
        lemma_eval_from_total(rules[0], cmd, false, true);
        let d = eval_rule(rules[0], cmd)->Ok_0;
        assert(forall|k: int|
            0 <= k < rules.skip(1).len() ==> #[trigger] rules.skip(1)[k] == rules[k + 1]);
        lemma_eval_groups_total(rules.skip(1), cmd, d);
    }
}

/// Law: on a regex-free store — and so on every store loaded from a policy
/// text — resolution always produces a decision; it never reports the
/// unimplemented pattern clause.
pub proof fn lemma_resolve_total(c: ConfigV, uid: u32, gids: Seq<u32>, cmd: Seq<char>)
    requires
        regex_free_cfg(c),
    ensures
        resolve_spec(c, uid, gids, cmd) is Ok,
{
    match rule_of(c.users, uid) {
        Some(rule) => {
            lemma_key_index(c.users, uid);
            assert(rule == c.users[key_index(c.users, uid)].1);
            lemma_eval_from_total(rule, cmd, false, true);
        },
        None => {
            lemma_matching_rules_regex_free(c.groups, gids);
            lemma_eval_groups_total(matching_rules(c.groups, gids), cmd, (false, true));
        },
    }
}

} // verus!
