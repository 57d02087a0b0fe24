//! The policy store: an immutable rule set keyed by subject, built once
//! from one policy text, and the resolver that walks it.
//!
//! Each subject appears at most once; a duplicate subject line silently
//! overwrites the previous rule for that subject (last occurrence wins).
//! Resolution consults a caller's direct user entry alone when one exists;
//! otherwise every group entry whose gid the caller belongs to is evaluated
//! in store order and the last result wins.

use vstd::prelude::*;

use crate::ident::{gid_for_group_name, lookup_user_by_uid, uid_for_user_name, Identity};
use crate::policy::{
    eval_clauses, parse_clause, parse_clauses_spec, views_of_perms, views_of_strings, ClauseError,
    ClauseErrorV, Perm, PermissionType, ResolveError,
};
use crate::text::{split_on, split_sep, split_whitespace_owned, split_ws, str_eq};

verus! {

/// The mathematical model of a policy store: two association sequences with
/// unique keys, in insertion order.
pub ghost struct ConfigV {
    pub users: Seq<(u32, Seq<Perm>)>,
    pub groups: Seq<(u32, Seq<Perm>)>,
}

/// The view of one association list of rules.
pub open spec fn map_view(m: Seq<(u32, Vec<PermissionType>)>) -> Seq<(u32, Seq<Perm>)> {
    m.map_values(|p: (u32, Vec<PermissionType>)| (p.0, views_of_perms(p.1@)))
}

/// A policy store mapping subjects to rules.
#[derive(Debug)]
pub struct NyadoConfig {
    user_permission_map: Vec<(u32, Vec<PermissionType>)>,
    group_permission_map: Vec<(u32, Vec<PermissionType>)>,
}

impl View for NyadoConfig {
    type V = ConfigV;

    closed spec fn view(&self) -> ConfigV {
        ConfigV {
            users: map_view(self.user_permission_map@),
            groups: map_view(self.group_permission_map@),
        }
    }
}

/// The index of the entry keyed by `id`, or `-1` when there is none.
pub open spec fn key_index(m: Seq<(u32, Seq<Perm>)>, id: u32) -> int
    decreases m.len(),
{
    if m.len() == 0 {
        -1
    } else if m[0].0 == id {
        0
    } else {
        let r = key_index(m.skip(1), id);
        if r < 0 {
            -1
        } else {
            r + 1
        }
    }
}

/// Whether an entry keyed by `id` exists.
pub open spec fn has_key(m: Seq<(u32, Seq<Perm>)>, id: u32) -> bool {
    key_index(m, id) >= 0
}

/// The rule keyed by `id`, if any.
pub open spec fn rule_of(m: Seq<(u32, Seq<Perm>)>, id: u32) -> Option<Seq<Perm>> {
    if has_key(m, id) {
        Some(m[key_index(m, id)].1)
    } else {
        None
    }
}

/// `key_index` finds the first entry with the key, and only that.
pub proof fn lemma_key_index(m: Seq<(u32, Seq<Perm>)>, id: u32)
    ensures
        key_index(m, id) == -1 ==> forall|i: int| 0 <= i < m.len() ==> m[i].0 != id,
        key_index(m, id) != -1 ==> 0 <= key_index(m, id) < m.len() && m[key_index(m, id)].0 == id
            && (forall|i: int| 0 <= i < key_index(m, id) ==> m[i].0 != id),
    decreases m.len(),
{
    if m.len() == 0 {
    } else if m[0].0 == id {
    } else {
        lemma_key_index(m.skip(1), id);
        let r = key_index(m.skip(1), id);
        assert(forall|i: int| 0 <= i < m.skip(1).len() ==> m.skip(1)[i] == m[i + 1]);
        if r < 0 {
            assert forall|i: int| 0 <= i < m.len() implies m[i].0 != id by {
                if i > 0 {
                    assert(m.skip(1)[i - 1].0 != id);
                }
            }
        } else {
            assert(m[r + 1].0 == m.skip(1)[r].0);
            assert forall|i: int| 0 <= i < r + 1 implies m[i].0 != id by {
                if i > 0 {
                    assert(m.skip(1)[i - 1].0 != id);
                }
            }
        }
    }
}

/// Inserts a rule for a subject: a present key is overwritten in place,
/// a new key is appended.
pub open spec fn map_insert(
    m: Seq<(u32, Seq<Perm>)>,
    id: u32,
    perms: Seq<Perm>,
) -> Seq<(u32, Seq<Perm>)> {
    if has_key(m, id) {
        m.update(key_index(m, id), (id, perms))
    } else {
        m.push((id, perms))
    }
}

/// Whether each key occurs at most once.
pub open spec fn unique_keys(m: Seq<(u32, Seq<Perm>)>) -> bool {
    forall|i: int, j: int| 0 <= i < j < m.len() ==> m[i].0 != m[j].0
}

/// Insertion keeps the keys unique.
pub proof fn lemma_insert_unique(m: Seq<(u32, Seq<Perm>)>, id: u32, perms: Seq<Perm>)
    requires
        unique_keys(m),
    ensures
        unique_keys(map_insert(m, id, perms)),
{
    lemma_key_index(m, id);
    let mm = map_insert(m, id, perms);
    assert forall|i: int, j: int| 0 <= i < j < mm.len() implies mm[i].0 != mm[j].0 by {
        if has_key(m, id) {
            let ki = key_index(m, id);
            assert(mm[i].0 == if i == ki {
                id
            } else {
                m[i].0
            });
            assert(mm[j].0 == if j == ki {
                id
            } else {
                m[j].0
            });
        } else {
            if j == m.len() {
                assert(mm[i].0 == m[i].0);
                assert(mm[j].0 == id);
            } else {
                assert(mm[i].0 == m[i].0 && mm[j].0 == m[j].0);
            }
        }
    }
}

/// A subject kind, as a policy line names it.
#[derive(Clone, Copy, Debug, PartialEq, Eq, Structural)]
pub enum SubjectKind {
    User,
    Group,
}

/// One resolved policy entry: a subject already resolved to its id, with
/// its rule.
pub struct Entry {
    pub kind: SubjectKind,
    pub id: u32,
    pub perms: Vec<PermissionType>,
}

/// The mathematical model of one resolved policy entry.
pub ghost struct EntryV {
    pub kind: SubjectKind,
    pub id: u32,
    pub perms: Seq<Perm>,
}

impl View for Entry {
    type V = EntryV;

    open spec fn view(&self) -> EntryV {
        EntryV { kind: self.kind, id: self.id, perms: views_of_perms(self.perms@) }
    }
}

/// The views of a sequence of entries.
pub open spec fn entries_view(es: Seq<Entry>) -> Seq<EntryV> {
    es.map_values(|e: Entry| e@)
}

/// The empty store.
pub open spec fn empty_cfg() -> ConfigV {
    ConfigV { users: Seq::empty(), groups: Seq::empty() }
}

/// One entry folded into a store.
pub open spec fn apply_entry(c: ConfigV, e: EntryV) -> ConfigV {
    match e.kind {
        SubjectKind::User => ConfigV { users: map_insert(c.users, e.id, e.perms), groups: c.groups },
        SubjectKind::Group => ConfigV {
            users: c.users,
            groups: map_insert(c.groups, e.id, e.perms),
        },
    }
}

/// The store built by folding the entries in order over the empty store.
pub open spec fn build_cfg(es: Seq<EntryV>) -> ConfigV
    decreases es.len(),
{
    if es.len() == 0 {
        empty_cfg()
    } else {
        apply_entry(build_cfg(es.drop_last()), es.last())
    }
}

/// A built store has unique keys in both maps.
pub proof fn lemma_build_unique(es: Seq<EntryV>)
    ensures
        unique_keys(build_cfg(es).users),
        unique_keys(build_cfg(es).groups),
    decreases es.len(),
{
    if es.len() == 0 {
    } else {
        lemma_build_unique(es.drop_last());
        let prev = build_cfg(es.drop_last());
        let e = es.last();
        match e.kind {
            SubjectKind::User => lemma_insert_unique(prev.users, e.id, e.perms),
            SubjectKind::Group => lemma_insert_unique(prev.groups, e.id, e.perms),
        }
    }
}

/// The rules of the group entries whose gid the caller belongs to, in
/// store order.
pub open spec fn matching_rules(groups: Seq<(u32, Seq<Perm>)>, gids: Seq<u32>) -> Seq<Seq<Perm>>
    decreases groups.len(),
{
    if groups.len() == 0 {
        Seq::empty()
    } else {
        let rest = matching_rules(groups.skip(1), gids);
        if gids.contains(groups[0].0) {
            seq![groups[0].1] + rest
        } else {
            rest
        }
    }
}

/// Evaluates a sequence of rules in order, keeping only the result of the
/// last one; the first rule whose evaluation fails aborts. `acc` is the
/// result standing so far.
pub open spec fn eval_groups_from(
    rules: Seq<Seq<Perm>>,
    cmd: Seq<char>,
    acc: (bool, bool),
) -> Result<(bool, bool), ResolveError>
    decreases rules.len(),
{
    if rules.len() == 0 {
        Ok(acc)
    } else {
        match crate::policy::eval_rule(rules[0], cmd) {
            Err(e) => Err(e),
            Ok(d) => eval_groups_from(rules.skip(1), cmd, d),
        }
    }
}

/// Evaluates a sequence of group rules from the deny-by-default seed.
pub open spec fn eval_groups(rules: Seq<Seq<Perm>>, cmd: Seq<char>) -> Result<
    (bool, bool),
    ResolveError,
> {
    eval_groups_from(rules, cmd, (false, true))
}

/// The decision of a store for a caller identity and a command: the direct
/// user entry alone when one exists, otherwise the last matching group's
/// result, otherwise deny with a password required.
pub open spec fn resolve_spec(
    c: ConfigV,
    uid: u32,
    gids: Seq<u32>,
    cmd: Seq<char>,
) -> Result<(bool, bool), ResolveError> {
    match rule_of(c.users, uid) {
        Some(rule) => crate::policy::eval_rule(rule, cmd),
        None => eval_groups(matching_rules(c.groups, gids), cmd),
    }
}

/// Whether `v` holds `x`.
fn contains_u32(v: &Vec<u32>, x: u32) -> (r: bool)
    ensures
        r == v@.contains(x),
{
    let mut j: usize = 0;
    while j < v.len()
        invariant
            j <= v@.len(),
            forall|k: int| 0 <= k < j ==> v@[k] != x,
        decreases v@.len() - j,
    {
        if v[j] == x {
            return true;
        }
        j = j + 1;
    }
    false
}

impl NyadoConfig {
    /// The store invariant: each subject appears at most once in each map.
    pub open spec fn wf(&self) -> bool {
        unique_keys(self@.users) && unique_keys(self@.groups)
    }

    /// An empty store.
    pub fn empty() -> (c: NyadoConfig)
        ensures
            c@ == empty_cfg(),
            c.wf(),
    {
        let c = NyadoConfig { user_permission_map: Vec::new(), group_permission_map: Vec::new() };
        proof {
            assert(map_view(c.user_permission_map@) =~= Seq::<(u32, Seq<Perm>)>::empty());
            assert(map_view(c.group_permission_map@) =~= Seq::<(u32, Seq<Perm>)>::empty());
        }
        c
    }

    /// Builds a store from resolved entries, in order: a later entry for a
    /// subject silently overwrites an earlier one.
    pub fn from_entries(entries: Vec<Entry>) -> (c: NyadoConfig)
        ensures
            c@ == build_cfg(entries_view(entries@)),
            c.wf(),
    {
        let ghost full = entries_view(entries@);
        let mut c = NyadoConfig {
            user_permission_map: Vec::new(),
            group_permission_map: Vec::new(),
        };
        let mut rest = entries;
        let ghost mut done: int = 0;
        proof {
            assert(map_view(c.user_permission_map@) =~= Seq::<(u32, Seq<Perm>)>::empty());
            assert(map_view(c.group_permission_map@) =~= Seq::<(u32, Seq<Perm>)>::empty());
            assert(full.take(0) =~= Seq::<EntryV>::empty());
            assert(entries_view(rest@) =~= full.skip(0));
        }
        while rest.len() > 0
            invariant
                0 <= done <= full.len(),
                entries_view(rest@) == full.skip(done),
                rest@.len() == full.len() - done,
                c@ == build_cfg(full.take(done)),
            decreases rest@.len(),
        {
            let ghost r0 = rest@;
            let e = rest.remove(0);
            proof {
                assert(rest@ =~= r0.skip(1));
                assert(entries_view(rest@).len() == full.skip(done + 1).len());
                assert forall|k: int|
                    0 <= k < rest@.len() implies entries_view(rest@)[k] == full.skip(done + 1)[k]
                    by {
                    assert(entries_view(rest@)[k] == rest@[k]@);
                    assert(rest@[k] == r0[k + 1]);
                    assert(entries_view(r0)[k + 1] == r0[k + 1]@);
                    assert(full.skip(done)[k + 1] == full[done + k + 1]);
                    assert(entries_view(r0) == full.skip(done));
                    assert(full.skip(done + 1)[k] == full[done + 1 + k]);
                }
                assert(entries_view(rest@) =~= full.skip(done + 1));
                assert(e@ == entries_view(r0)[0]);
                assert(e@ == full[done]);
            }
            let ghost cprev = c@;
            match e.kind {
                SubjectKind::User => insert_rule(&mut c.user_permission_map, e.id, e.perms),
                SubjectKind::Group => insert_rule(&mut c.group_permission_map, e.id, e.perms),
            }
            proof {
                assert(c@ == apply_entry(cprev, e@));
                done = done + 1;
                assert(full.take(done).drop_last() =~= full.take(done - 1));
                assert(full.take(done).last() == full[done - 1]);
                assert(c@ == build_cfg(full.take(done)));
            }
        }
        proof {
            assert(full.take(full.len() as int) =~= full);
            lemma_build_unique(full);
        }
        c
    }

    /// The index of the direct user entry for `uid`, if one exists.
    fn user_rule_index(&self, uid: u32) -> (r: Option<usize>)
        ensures
            ({
                match r {
                    Some(i) => i < self.user_permission_map@.len() && key_index(self@.users, uid)
                        == i && rule_of(self@.users, uid) == Some(
                        views_of_perms(self.user_permission_map@[i as int].1@),
                    ),
                    None => rule_of(self@.users, uid) is None,
                }
            }),
    {
        let mut i: usize = 0;
        proof {
            lemma_key_index(self@.users, uid);
        }
        while i < self.user_permission_map.len()
            invariant
                i <= self.user_permission_map@.len(),
                self@.users.len() == self.user_permission_map@.len(),
                forall|k: int| 0 <= k < i ==> self@.users[k].0 != uid,
                key_index(self@.users, uid) == -1 ==> forall|k: int|
                    0 <= k < self@.users.len() ==> self@.users[k].0 != uid,
                key_index(self@.users, uid) != -1 ==> 0 <= key_index(self@.users, uid)
                    < self@.users.len() && self@.users[key_index(self@.users, uid)].0 == uid && (
                forall|k: int| 0 <= k < key_index(self@.users, uid) ==> self@.users[k].0 != uid),
            decreases self.user_permission_map@.len() - i,
        {
            proof {
                assert(self@.users[i as int].0 == self.user_permission_map@[i as int].0);
            }
            if self.user_permission_map[i].0 == uid {
                proof {
                    let ki = key_index(self@.users, uid);
                    assert(ki != -1);
                    if ki < i {
                        assert(self@.users[ki].0 != uid);
                    }
                    if ki > i {
                        assert(self@.users[i as int].0 != uid);
                    }
                    assert(ki == i);
                }
                return Some(i);
            }
            i = i + 1;
        }
        proof {
            if key_index(self@.users, uid) != -1 {
                assert(self@.users[key_index(self@.users, uid)].0 != uid);
            }
        }
        None
    }

    /// Evaluates the group rules matching the caller's gids, in store
    /// order, keeping the last result.
    pub fn resolve_groups(&self, gids: &Vec<u32>, cmd: &str) -> (r: Result<
        (bool, bool),
        ResolveError,
    >)
        ensures
            r == eval_groups(matching_rules(self@.groups, gids@), cmd@),
    {
        let ghost full = eval_groups(matching_rules(self@.groups, gids@), cmd@);
        let mut acc_allowed = false;
        let mut acc_password = true;
        let mut i: usize = 0;
        proof {
            assert(self@.groups.skip(0) == self@.groups);
        }
        while i < self.group_permission_map.len()
            invariant
                i <= self.group_permission_map@.len(),
                self@.groups.len() == self.group_permission_map@.len(),
                full == eval_groups(matching_rules(self@.groups, gids@), cmd@),
                eval_groups_from(
                    matching_rules(self@.groups.skip(i as int), gids@),
                    cmd@,
                    (acc_allowed, acc_password),
                ) == full,
            decreases self.group_permission_map@.len() - i,
        {
            proof {
                assert(self@.groups[i as int] == (
                    self.group_permission_map@[i as int].0,
                    views_of_perms(self.group_permission_map@[i as int].1@),
                ));
                assert(self@.groups.skip(i as int)[0] == self@.groups[i as int]);
                assert(self@.groups.skip(i as int).skip(1) =~= self@.groups.skip(i + 1));
            }
            let entry = &self.group_permission_map[i];
            if contains_u32(gids, entry.0) {
                let d = eval_clauses(&entry.1, cmd);
                proof {
                    let ms = matching_rules(self@.groups.skip(i as int), gids@);
                    assert(ms[0] == self@.groups[i as int].1);
                    assert(ms.skip(1) =~= matching_rules(self@.groups.skip(i + 1), gids@));
                }
                match d {
                    Err(e) => {
                        return Err(e);
                    },
                    Ok(p) => {
                        acc_allowed = p.0;
                        acc_password = p.1;
                    },
                }
            }
            i = i + 1;
        }
        proof {
            assert(self@.groups.skip(self@.groups.len() as int).len() == 0);
        }
        Ok((acc_allowed, acc_password))
    }

    /// Resolves a caller identity and a command to a decision, entirely
    /// from the given identity snapshot.
    pub fn resolve(&self, identity: &Identity, cmd: &str) -> (r: Result<
        (bool, bool),
        ResolveError,
    >)
        ensures
            r == resolve_spec(self@, identity.uid, identity.group_ids@, cmd@),
    {
        match self.user_rule_index(identity.uid) {
            Some(i) => eval_clauses(&self.user_permission_map[i].1, cmd),
            None => self.resolve_groups(&identity.group_ids, cmd),
        }
    }

    /// Evaluates one rule against one command, in declaration order.
    pub fn match_perms(&self, permissions: &Vec<PermissionType>, cmd: &String) -> (r: Result<
        (bool, bool),
        ResolveError,
    >)
        ensures
            r == crate::policy::eval_rule(views_of_perms(permissions@), cmd@),
    {
        eval_clauses(permissions, cmd.as_str())
    }

    /// Resolves a caller known only by uid: the direct user entry alone
    /// when one exists, otherwise the caller's groups are fetched from the
    /// identity provider and the group entries decide. The identity
    /// provider decides which gids the caller holds, so for the group path
    /// this promises the group evaluation for some gid set.
    pub fn user_match_perms(&self, uid: u32, cmd: String) -> (r: Result<
        (bool, bool),
        ResolveError,
    >)
        ensures
            ({
                match rule_of(self@.users, uid) {
                    Some(rule) => r == Err::<(bool, bool), ResolveError>(
                        ResolveError::UnknownIdentity,
                    ) || r == crate::policy::eval_rule(rule, cmd@),
                    None => r == Err::<(bool, bool), ResolveError>(ResolveError::UnknownIdentity)
                        || (exists|gids: Seq<u32>|
                        r == eval_groups(matching_rules(self@.groups, gids), cmd@)),
                }
            }),
    {
        match self.user_rule_index(uid) {
            None => self.group_match_perms(uid, cmd),
            Some(i) => {
                match lookup_user_by_uid(uid) {
                    None => Err(ResolveError::UnknownIdentity),
                    Some(_info) => self.match_perms(&self.user_permission_map[i].1, &cmd),
                }
            },
        }
    }

    /// Resolves a caller by its group memberships alone, fetched from the
    /// identity provider; fails when the caller's uid or group list cannot
    /// be resolved.
    pub fn group_match_perms(&self, uid: u32, cmd: String) -> (r: Result<
        (bool, bool),
        ResolveError,
    >)
        ensures
            r == Err::<(bool, bool), ResolveError>(ResolveError::UnknownIdentity) || (exists|
                gids: Seq<u32>,
            |
                r == eval_groups(matching_rules(self@.groups, gids), cmd@)),
    {
        match lookup_user_by_uid(uid) {
            None => Err(ResolveError::UnknownIdentity),
            Some((_pg, None)) => Err(ResolveError::UnknownIdentity),
            Some((_pg, Some(gids))) => {
                let r = self.resolve_groups(&gids, cmd.as_str());
                proof {
                    assert(r == eval_groups(matching_rules(self@.groups, gids@), cmd@));
                }
                r
            },
        }
    }
}

/// An error reported while loading a policy text. Every variant names the
/// 1-based line it arose on; any such error aborts the whole load.
#[derive(Debug, PartialEq)]
pub enum ConfigError {
    /// A line whose leading token is not a recognized subject kind, or a
    /// subject kind with no name after it.
    UnknownField { line: usize, field: String },
    /// A clause token `key:value` with an unrecognized key.
    UnknownClausePair { line: usize, key: String, value: String },
    /// A bare clause token that is not a recognized keyword.
    UnknownClause { line: usize, clause: String },
    /// A user name the identity provider cannot resolve.
    UnknownUser { line: usize, name: String },
    /// A group name the identity provider cannot resolve.
    UnknownGroup { line: usize, name: String },
}

/// The mathematical model of a load error.
pub ghost enum ConfigErrorV {
    UnknownField { line: int, field: Seq<char> },
    UnknownClausePair { line: int, key: Seq<char>, value: Seq<char> },
    UnknownClause { line: int, clause: Seq<char> },
    UnknownUser { line: int, name: Seq<char> },
    UnknownGroup { line: int, name: Seq<char> },
}

impl View for ConfigError {
    type V = ConfigErrorV;

    open spec fn view(&self) -> ConfigErrorV {
        match self {
            ConfigError::UnknownField { line, field } => ConfigErrorV::UnknownField {
                line: *line as int,
                field: field@,
            },
            ConfigError::UnknownClausePair { line, key, value } => ConfigErrorV::UnknownClausePair {
                line: *line as int,
                key: key@,
                value: value@,
            },
            ConfigError::UnknownClause { line, clause } => ConfigErrorV::UnknownClause {
                line: *line as int,
                clause: clause@,
            },
            ConfigError::UnknownUser { line, name } => ConfigErrorV::UnknownUser {
                line: *line as int,
                name: name@,
            },
            ConfigError::UnknownGroup { line, name } => ConfigErrorV::UnknownGroup {
                line: *line as int,
                name: name@,
            },
        }
    }
}

/// One parsed policy line: a subject still named by text, with its rule and
/// the 1-based line it stood on.
#[derive(Debug)]
pub struct Directive {
    pub kind: SubjectKind,
    pub name: String,
    pub perms: Vec<PermissionType>,
    pub line: usize,
}

/// The mathematical model of one parsed policy line.
pub ghost struct DirectiveV {
    pub kind: SubjectKind,
    pub name: Seq<char>,
    pub perms: Seq<Perm>,
    pub line: int,
}

impl View for Directive {
    type V = DirectiveV;

    open spec fn view(&self) -> DirectiveV {
        DirectiveV {
            kind: self.kind,
            name: self.name@,
            perms: views_of_perms(self.perms@),
            line: self.line as int,
        }
    }
}

/// The views of a sequence of directives.
pub open spec fn directives_view(ds: Seq<Directive>) -> Seq<DirectiveV> {
    ds.map_values(|d: Directive| d@)
}

/// A clause error placed on its line.
pub open spec fn lift_clause_err(line: int, e: ClauseErrorV) -> ConfigErrorV {
    match e {
        ClauseErrorV::UnknownPair(k, v) => ConfigErrorV::UnknownClausePair {
            line,
            key: k,
            value: v,
        },
        ClauseErrorV::Unknown(t) => ConfigErrorV::UnknownClause { line, clause: t },
    }
}

/// The meaning of one policy line: nothing for a blank line or a comment,
/// a directive `<kind> <name> <clause>...` otherwise, or the error it
/// carries.
pub open spec fn parse_line_spec(lineno: int, line: Seq<char>) -> Result<
    Option<DirectiveV>,
    ConfigErrorV,
> {
    let toks = split_ws(line);
    if toks.len() == 0 {
        Ok(None)
    } else if toks[0].len() > 0 && toks[0][0] == '#' {
        Ok(None)
    } else if toks[0] == "user"@ && toks.len() >= 2 {
        match parse_clauses_spec(toks.skip(2)) {
            Ok(ps) => Ok(
                Some(
                    DirectiveV { kind: SubjectKind::User, name: toks[1], perms: ps, line: lineno },
                ),
            ),
            Err(e) => Err(lift_clause_err(lineno, e)),
        }
    } else if toks[0] == "group"@ && toks.len() >= 2 {
        match parse_clauses_spec(toks.skip(2)) {
            Ok(ps) => Ok(
                Some(
                    DirectiveV { kind: SubjectKind::Group, name: toks[1], perms: ps, line: lineno },
                ),
            ),
            Err(e) => Err(lift_clause_err(lineno, e)),
        }
    } else {
        Err(ConfigErrorV::UnknownField { line: lineno, field: toks[0] })
    }
}

/// The meaning of a sequence of policy lines, the first numbered `lineno`:
/// the directives in order, or the first error.
pub open spec fn parse_lines_spec(lines: Seq<Seq<char>>, lineno: int) -> Result<
    Seq<DirectiveV>,
    ConfigErrorV,
>
    decreases lines.len(),
{
    if lines.len() == 0 {
        Ok(Seq::empty())
    } else {
        match parse_line_spec(lineno, lines[0]) {
            Err(e) => Err(e),
            Ok(None) => parse_lines_spec(lines.skip(1), lineno + 1),
            Ok(Some(d)) => match parse_lines_spec(lines.skip(1), lineno + 1) {
                Err(e) => Err(e),
                Ok(ds) => Ok(seq![d] + ds),
            },
        }
    }
}

/// The meaning of a whole policy text, cut into lines at every newline.
pub open spec fn parse_text_spec(text: Seq<char>) -> Result<Seq<DirectiveV>, ConfigErrorV> {
    parse_lines_spec(split_sep(text, '\n'), 1)
}

/// Places a clause error on its line.
fn lift_clause_error(line: usize, e: ClauseError) -> (r: ConfigError)
    ensures
        r@ == lift_clause_err(line as int, e@),
{
    match e {
        ClauseError::UnknownPair(k, v) => ConfigError::UnknownClausePair { line, key: k, value: v },
        ClauseError::Unknown(t) => ConfigError::UnknownClause { line, clause: t },
    }
}

/// Parses the clause tokens of one line, from index `from` on.
fn parse_clause_list(toks: &Vec<String>, from: usize) -> (r: Result<
    Vec<PermissionType>,
    ClauseError,
>)
    requires
        from <= toks@.len(),
    ensures
        ({
            match parse_clauses_spec(views_of_strings(toks@).skip(from as int)) {
                Ok(ps) => r is Ok && views_of_perms(r.unwrap()@) == ps,
                Err(e) => r is Err && r.unwrap_err()@ == e,
            }
        }),
{
    let ghost tv = views_of_strings(toks@).skip(from as int);
    let ghost full = parse_clauses_spec(tv);
    let mut permissions: Vec<PermissionType> = Vec::new();
    let mut i: usize = from;
    proof {
        assert(tv.skip(0) == tv);
        assert(views_of_perms(permissions@) =~= Seq::<Perm>::empty());
        if full is Ok {
            assert(Seq::<Perm>::empty() + full->Ok_0 =~= full->Ok_0);
        }
    }
    while i < toks.len()
        invariant
            from <= i <= toks@.len(),
            tv == views_of_strings(toks@).skip(from as int),
            full == parse_clauses_spec(tv),
            ({
                match parse_clauses_spec(tv.skip(i - from)) {
                    Ok(rest) => full is Ok && full->Ok_0 == views_of_perms(permissions@) + rest,
                    Err(e) => full == Err::<Seq<Perm>, ClauseErrorV>(e),
                }
            }),
        decreases toks@.len() - i,
    {
        proof {
            assert(views_of_strings(toks@)[i as int] == toks@[i as int]@);
            assert(tv.skip(i - from)[0] == views_of_strings(toks@)[i as int]);
            assert(tv.skip(i - from).skip(1) =~= tv.skip(i + 1 - from));
        }
        match parse_clause(toks[i].as_str()) {
            Ok(p) => {
                proof {
                    assert(views_of_perms(permissions@.push(p)) =~= views_of_perms(
                        permissions@,
                    ).push(p@));
                    match parse_clauses_spec(tv.skip(i + 1 - from)) {
                        Ok(rest) => {
                            assert(views_of_perms(permissions@).push(p@) + rest =~= views_of_perms(
                                permissions@,
                            ) + (seq![p@] + rest));
                        },
                        Err(_) => {},
                    }
                }
                permissions.push(p);
            },
            Err(e) => {
                return Err(e);
            },
        }
        i = i + 1;
    }
    proof {
        assert(tv.skip(toks@.len() - from).len() == 0);
        assert(views_of_perms(permissions@) + Seq::<Perm>::empty() =~= views_of_perms(
            permissions@,
        ));
    }
    Ok(permissions)
}

/// Parses one policy line.
pub fn parse_line(lineno: usize, line: &str) -> (r: Result<Option<Directive>, ConfigError>)
    ensures
        ({
            match parse_line_spec(lineno as int, line@) {
                Ok(None) => r is Ok && r.unwrap() is None,
                Ok(Some(d)) => r is Ok && r.unwrap() is Some && r.unwrap().unwrap()@ == d,
                Err(e) => r is Err && r.unwrap_err()@ == e,
            }
        }),
{
    let mut toks = split_whitespace_owned(line);
    let ghost tv = split_ws(line@);
    if toks.len() == 0 {
        return Ok(None);
    }
    proof {
        assert(forall|k: int| 0 <= k < toks@.len() ==> #[trigger] tv[k] == toks@[k]@);
    }
    let first_len = toks[0].as_str().unicode_len();
    if first_len > 0 && toks[0].as_str().get_char(0) == '#' {
        return Ok(None);
    }
    if str_eq(toks[0].as_str(), "user") && toks.len() >= 2 {
        proof {
            assert(views_of_strings(toks@).skip(2) =~= tv.skip(2));
        }
        match parse_clause_list(&toks, 2) {
            Ok(ps) => {
                let name = toks[1].clone();
                return Ok(
                    Some(Directive { kind: SubjectKind::User, name, perms: ps, line: lineno }),
                );
            },
            Err(e) => {
                return Err(lift_clause_error(lineno, e));
            },
        }
    }
    if str_eq(toks[0].as_str(), "group") && toks.len() >= 2 {
        proof {
            assert(views_of_strings(toks@).skip(2) =~= tv.skip(2));
        }
        match parse_clause_list(&toks, 2) {
            Ok(ps) => {
                let name = toks[1].clone();
                return Ok(
                    Some(Directive { kind: SubjectKind::Group, name, perms: ps, line: lineno }),
                );
            },
            Err(e) => {
                return Err(lift_clause_error(lineno, e));
            },
        }
    }
    Err(ConfigError::UnknownField { line: lineno, field: toks.remove(0) })
}

/// Parses a whole policy text into its directives, in order; the first
/// malformed line aborts the whole parse.
pub fn parse_directives(text: &str) -> (r: Result<Vec<Directive>, ConfigError>)
    ensures
        ({
            match parse_text_spec(text@) {
                Ok(ds) => r is Ok && directives_view(r.unwrap()@) == ds,
                Err(e) => r is Err && r.unwrap_err()@ == e,
            }
        }),
{
    let lines = split_on(text, '\n');
    let ghost lv = split_sep(text@, '\n');
    let ghost full = parse_lines_spec(lv, 1);
    let mut dirs: Vec<Directive> = Vec::new();
    let mut i: usize = 0;
    proof {
        assert(forall|k: int| 0 <= k < lines@.len() ==> #[trigger] lv[k] == lines@[k]@);
        assert(lv.skip(0) == lv);
        assert(directives_view(dirs@) =~= Seq::<DirectiveV>::empty());
        if full is Ok {
            assert(Seq::<DirectiveV>::empty() + full->Ok_0 =~= full->Ok_0);
        }
    }
    while i < lines.len()
        invariant
            i <= lines@.len(),
            lines@.len() == lv.len(),
            lv == split_sep(text@, '\n'),
            forall|k: int| 0 <= k < lines@.len() ==> #[trigger] lv[k] == lines@[k]@,
            full == parse_lines_spec(lv, 1),
            ({
                match parse_lines_spec(lv.skip(i as int), i + 1) {
                    Ok(rest) => full is Ok && full->Ok_0 == directives_view(dirs@) + rest,
                    Err(e) => full == Err::<Seq<DirectiveV>, ConfigErrorV>(e),
                }
            }),
        decreases lines@.len() - i,
    {
        proof {
            assert(lv.skip(i as int)[0] == lv[i as int]);
            assert(lv.skip(i as int).skip(1) =~= lv.skip(i + 1));
        }
        match parse_line(i + 1, lines[i].as_str()) {
            Err(e) => {
                return Err(e);
            },
            Ok(None) => {},
            Ok(Some(d)) => {
                proof {
                    assert(directives_view(dirs@.push(d)) =~= directives_view(dirs@).push(d@));
                    match parse_lines_spec(lv.skip(i + 1), i + 2) {
                        Ok(rest) => {
                            assert(directives_view(dirs@).push(d@) + rest =~= directives_view(
                                dirs@,
                            ) + (seq![d@] + rest));
                        },
                        Err(_) => {},
                    }
                }
                dirs.push(d);
            },
        }
        i = i + 1;
    }
    proof {
        assert(lv.skip(lv.len() as int).len() == 0);
        assert(directives_view(dirs@) + Seq::<DirectiveV>::empty() =~= directives_view(dirs@));
    }
    Ok(dirs)
}

/// Whether each entry carries the kind and rule of the directive standing
/// at the same position.
pub open spec fn entries_match(dirs: Seq<DirectiveV>, es: Seq<EntryV>) -> bool {
    es.len() == dirs.len() && forall|i: int|
        0 <= i < dirs.len() ==> (#[trigger] es[i]).kind == dirs[i].kind && es[i].perms
            == dirs[i].perms
}

/// What loading a policy text promises: a parse error is handed through
/// unchanged; on success the store is the fold, in order, of the parsed
/// directives under some assignment of ids to their subjects; a resolution
/// error names a parsed directive whose subject the identity provider does
/// not know.
pub open spec fn load_post(text: Seq<char>, r: Result<NyadoConfig, ConfigError>) -> bool {
    match parse_text_spec(text) {
        Err(e) => r is Err && r->Err_0@ == e,
        Ok(dirs) => match r {
            Ok(c) => c.wf() && (exists|es: Seq<EntryV>|
                entries_match(dirs, es) && c@ == build_cfg(es)),
            Err(err) => match err@ {
                ConfigErrorV::UnknownUser { line, name } => exists|i: int|
                    0 <= i < dirs.len() && (#[trigger] dirs[i]).kind == SubjectKind::User
                        && dirs[i].name == name && dirs[i].line == line,
                ConfigErrorV::UnknownGroup { line, name } => exists|i: int|
                    0 <= i < dirs.len() && (#[trigger] dirs[i]).kind == SubjectKind::Group
                        && dirs[i].name == name && dirs[i].line == line,
                _ => false,
            },
        },
    }
}

impl NyadoConfig {
    /// Loads a store from one policy text: the text is parsed into
    /// directives, each subject name is resolved through the identity
    /// provider, and the entries are folded into the store in order, a
    /// later entry for a subject silently overwriting an earlier one. Any
    /// failure aborts the whole load: no partial store is returned.
    ///
    /// The identity provider decides which id a name carries, so on
    /// success the store is the fold of the parsed directives under some
    /// assignment of ids to their subjects.
    pub fn from_text(text: &str) -> (r: Result<NyadoConfig, ConfigError>)
        ensures
            load_post(text@, r),
    {
        let dirs = match parse_directives(text) {
            Err(e) => {
                return Err(e);
            },
            Ok(ds) => ds,
        };
        let ghost dv = directives_view(dirs@);
        let mut entries: Vec<Entry> = Vec::new();
        let mut restd = dirs;
        let ghost mut done: int = 0;
        proof {
            assert(directives_view(restd@) =~= dv.skip(0));
        }
        while restd.len() > 0
            invariant
                0 <= done <= dv.len(),
                parse_text_spec(text@) == Ok::<Seq<DirectiveV>, ConfigErrorV>(dv),
                directives_view(restd@) == dv.skip(done),
                restd@.len() == dv.len() - done,
                entries@.len() == done,
                forall|k: int|
                    0 <= k < done ==> (#[trigger] entries_view(entries@)[k]).kind == dv[k].kind
                        && entries_view(entries@)[k].perms == dv[k].perms,
            decreases restd@.len(),
        {
            let ghost r0 = restd@;
            let d = restd.remove(0);
            proof {
                assert(restd@ =~= r0.skip(1));
                assert(d@ == directives_view(r0)[0]);
                assert(d@ == dv[done]);
                assert(directives_view(restd@).len() == dv.skip(done + 1).len());
                assert forall|k: int|
                    0 <= k < restd@.len() implies directives_view(restd@)[k] == dv.skip(done + 1)[k]
                    by {
                    assert(directives_view(restd@)[k] == restd@[k]@);
                    assert(restd@[k] == r0[k + 1]);
                    assert(directives_view(r0)[k + 1] == r0[k + 1]@);
                    assert(dv.skip(done)[k + 1] == dv[done + k + 1]);
                    assert(dv.skip(done + 1)[k] == dv[done + 1 + k]);
                }
                assert(directives_view(restd@) =~= dv.skip(done + 1));
            }
            let id_opt = match d.kind {
                SubjectKind::User => uid_for_user_name(d.name.as_str()),
                SubjectKind::Group => gid_for_group_name(d.name.as_str()),
            };
            match id_opt {
                None => {
                    match d.kind {
                        SubjectKind::User => {
                            let err = ConfigError::UnknownUser { line: d.line, name: d.name };
                            proof {
                                assert(0 <= done < dv.len());
                                assert(dv[done].kind == SubjectKind::User && dv[done].name
                                    == err@->UnknownUser_name && dv[done].line
                                    == err@->UnknownUser_line);
                                assert(exists|i: int|
                                    0 <= i < dv.len() && (#[trigger] dv[i]).kind
                                        == SubjectKind::User && dv[i].name
                                        == err@->UnknownUser_name && dv[i].line
                                        == err@->UnknownUser_line);
                            }
                            return Err(err);
                        },
                        SubjectKind::Group => {
                            let err = ConfigError::UnknownGroup { line: d.line, name: d.name };
                            proof {
                                assert(0 <= done < dv.len());
                                assert(dv[done].kind == SubjectKind::Group && dv[done].name
                                    == err@->UnknownGroup_name && dv[done].line
                                    == err@->UnknownGroup_line);
                                assert(exists|i: int|
                                    0 <= i < dv.len() && (#[trigger] dv[i]).kind
                                        == SubjectKind::Group && dv[i].name
                                        == err@->UnknownGroup_name && dv[i].line
                                        == err@->UnknownGroup_line);
                            }
                            return Err(err);
                        },
                    }
                },
                Some(id) => {
                    let ghost e0 = entries@;
                    entries.push(Entry { kind: d.kind, id, perms: d.perms });
                    proof {
                        assert(entries_view(entries@) =~= entries_view(e0).push(
                            entries@[entries@.len() - 1]@,
                        ));
                        assert(entries_view(entries@)[done].kind == dv[done].kind);
                        assert(entries_view(entries@)[done].perms == dv[done].perms);
                        assert(forall|k: int|
                            0 <= k < done ==> #[trigger] entries_view(entries@)[k]
                                == entries_view(e0)[k]);
                    }
                },
            }
            proof {
                done = done + 1;
            }
        }
        let ghost es = entries_view(entries@);
        proof {
            assert(done == dv.len());
            assert(entries_match(dv, es));
        }
        let c = NyadoConfig::from_entries(entries);
        proof {
            assert(entries_match(dv, es) && c@ == build_cfg(es));
        }
        Ok(c)
    }
}

/// Inserts a rule into one association list: a present key is overwritten
/// in place, a new key is appended.
fn insert_rule(map: &mut Vec<(u32, Vec<PermissionType>)>, id: u32, perms: Vec<PermissionType>)
    ensures
        map_view(final(map)@) == map_insert(map_view(old(map)@), id, views_of_perms(perms@)),
{
    let ghost m0 = map_view(old(map)@);
    proof {
        lemma_key_index(m0, id);
        assert(forall|k: int| 0 <= k < m0.len() ==> m0[k].0 == old(map)@[k].0);
    }
    let mut j: usize = 0;
    let n = map.len();
    while j < n
        invariant
            *map == *old(map),
            m0 == map_view(old(map)@),
            n == map@.len(),
            j <= n,
            forall|k: int| 0 <= k < j ==> map@[k].0 != id,
            m0.len() == n,
            forall|k: int| 0 <= k < m0.len() ==> m0[k].0 == old(map)@[k].0,
            key_index(m0, id) == -1 ==> forall|k: int| 0 <= k < m0.len() ==> m0[k].0 != id,
            key_index(m0, id) != -1 ==> 0 <= key_index(m0, id) < m0.len() && m0[key_index(
                m0,
                id,
            )].0 == id && (forall|k: int| 0 <= k < key_index(m0, id) ==> m0[k].0 != id),
        decreases n - j,
    {
        if map[j].0 == id {
            proof {
                assert(m0[j as int].0 == old(map)@[j as int].0);
                assert(m0[j as int].0 == id);
                let ki = key_index(m0, id);
                assert(ki != -1);
                if ki < j {
                    assert(m0[ki].0 != id);
                }
                if ki > j {
                    assert(m0[j as int].0 != id);
                }
                assert(ki == j);
            }
            map.remove(j);
            map.insert(j, (id, perms));
            proof {
                assert(map_view(map@) =~= m0.update(j as int, (id, views_of_perms(perms@))));
            }
            return ;
        }
        j = j + 1;
    }
    proof {
        if key_index(m0, id) != -1 {
            assert(m0[key_index(m0, id)].0 != id);
        }
        assert(!has_key(m0, id));
    }
    map.push((id, perms));
    proof {
        assert(map_view(map@) =~= m0.push((id, views_of_perms(perms@))));
    }
}

} // verus!
