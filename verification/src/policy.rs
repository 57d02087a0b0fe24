//! Permission clauses and rule evaluation.
//!
//! A rule is an ordered sequence of clauses; order is significant. Evaluation
//! scans the clauses in declaration order from the seed decision
//! `(allowed: false, password: true)` and is specified by [`eval_rule`].

use vstd::prelude::*;

use crate::text::{split_on, split_once_at, split_once_on, split_sep, str_eq};

verus! {

/// One permission clause of a policy rule.
#[allow(non_camel_case_types)]
#[derive(Debug, PartialEq)]
pub enum PermissionType {
    /// `permit:<c1,c2,...>`: the listed commands are allowed.
    COMMANDS(Vec<String>),
    /// `permit:all`: every command is allowed.
    COMMANDS_ALL,
    /// Declared placeholder for pattern-based matching; evaluation fails
    /// fast when it reaches this clause.
    COMMANDS_REGEX(String),
    /// `permit_nopasswd:<c1,...>`: the listed commands are allowed without
    /// a credential challenge.
    COMMANDS_NOPASSWD(Vec<String>),
    /// `nopasswd`: no credential challenge is required.
    NOPASSWD,
}

/// The mathematical model of one permission clause.
pub ghost enum Perm {
    Commands(Seq<Seq<char>>),
    AllCommands,
    Regex(Seq<char>),
    CommandsNoPasswd(Seq<Seq<char>>),
    NoPasswd,
}

/// The views of a sequence of owned strings.
pub open spec fn views_of_strings(v: Seq<String>) -> Seq<Seq<char>> {
    v.map_values(|s: String| s@)
}

impl View for PermissionType {
    type V = Perm;

    open spec fn view(&self) -> Perm {
        match self {
            PermissionType::COMMANDS(v) => Perm::Commands(views_of_strings(v@)),
            PermissionType::COMMANDS_ALL => Perm::AllCommands,
            PermissionType::COMMANDS_REGEX(r) => Perm::Regex(r@),
            PermissionType::COMMANDS_NOPASSWD(v) => Perm::CommandsNoPasswd(views_of_strings(v@)),
            PermissionType::NOPASSWD => Perm::NoPasswd,
        }
    }
}

/// The views of a sequence of clauses.
pub open spec fn views_of_perms(v: Seq<PermissionType>) -> Seq<Perm> {
    v.map_values(|p: PermissionType| p@)
}

/// An error reported while resolving a decision.
#[derive(Debug, PartialEq, Eq, Structural, Clone, Copy)]
pub enum ResolveError {
    /// Evaluation reached a pattern-based clause, which is unimplemented.
    RegexUnsupported,
    /// The caller's identity could not be resolved by the identity provider.
    UnknownIdentity,
}

/// Scans the clauses of one rule in order, from the running decision
/// `(allowed, password)`:
/// - allow-all: allowed, scanning stops;
/// - a command list: allowed when the command is listed, scanning goes on;
/// - a no-password command list: when the command is listed, allowed without
///   a password and scanning stops; otherwise the password requirement is
///   reset to required and scanning goes on;
/// - the bare no-password flag: no password required, scanning goes on;
/// - a pattern clause: evaluation fails fast.
pub open spec fn eval_rule_from(
    perms: Seq<Perm>,
    cmd: Seq<char>,
    allowed: bool,
    password: bool,
) -> Result<(bool, bool), ResolveError>
    decreases perms.len(),
{
    if perms.len() == 0 {
        Ok((allowed, password))
    } else {
        match perms[0] {
            Perm::AllCommands => Ok((true, password)),
            Perm::Commands(cmds) => eval_rule_from(
                perms.skip(1),
                cmd,
                allowed || cmds.contains(cmd),
                password,
            ),
            Perm::Regex(_) => Err(ResolveError::RegexUnsupported),
            Perm::CommandsNoPasswd(cmds) => if cmds.contains(cmd) {
                Ok((true, false))
            } else {
                eval_rule_from(perms.skip(1), cmd, allowed, true)
            },
            Perm::NoPasswd => eval_rule_from(perms.skip(1), cmd, allowed, false),
        }
    }
}

/// The decision of one rule for one command, from the seed
/// `(allowed: false, password: true)`.
pub open spec fn eval_rule(perms: Seq<Perm>, cmd: Seq<char>) -> Result<(bool, bool), ResolveError> {
    eval_rule_from(perms, cmd, false, true)
}

/// Whether `v` holds a string equal to `x`.
pub fn vec_contains_str(v: &Vec<String>, x: &str) -> (r: bool)
    ensures
        r == views_of_strings(v@).contains(x@),
{
    let mut j: usize = 0;
    while j < v.len()
        invariant
            j <= v@.len(),
            forall|k: int| 0 <= k < j ==> v@[k]@ != x@,
        decreases v@.len() - j,
    {
        if str_eq(v[j].as_str(), x) {
            proof {
                assert(views_of_strings(v@)[j as int] == v@[j as int]@);
            }
            return true;
        }
        j = j + 1;
    }
    proof {
        assert(forall|k: int|
            0 <= k < views_of_strings(v@).len() ==> views_of_strings(v@)[k] == v@[k]@);
    }
    false
}

/// Evaluates one rule against one command, in declaration order.
pub fn eval_clauses(permissions: &Vec<PermissionType>, cmd: &str) -> (r: Result<
    (bool, bool),
    ResolveError,
>)
    ensures
        r == eval_rule(views_of_perms(permissions@), cmd@),
{
    let ghost full = eval_rule(views_of_perms(permissions@), cmd@);
    let mut allowed = false;
    let mut password = true;
    let mut idx: usize = 0;
    proof {
        assert(views_of_perms(permissions@).skip(0) == views_of_perms(permissions@));
    }
    while idx < permissions.len()
        invariant
            idx <= permissions@.len(),
            full == eval_rule(views_of_perms(permissions@), cmd@),
            eval_rule_from(views_of_perms(permissions@).skip(idx as int), cmd@, allowed, password)
                == full,
        decreases permissions@.len() - idx,
    {
        proof {
            assert(views_of_perms(permissions@)[idx as int] == permissions@[idx as int]@);
            assert(views_of_perms(permissions@).skip(idx as int)[0] == views_of_perms(
                permissions@,
            )[idx as int]);
            assert(views_of_perms(permissions@).skip(idx as int).skip(1) =~= views_of_perms(
                permissions@,
            ).skip(idx + 1));
        }
        match &permissions[idx] {
            PermissionType::COMMANDS_ALL => {
                return Ok((true, password));
            },
            PermissionType::COMMANDS(v) => {
                if vec_contains_str(v, cmd) {
                    allowed = true;
                } else {
                    proof {
                        assert((allowed || views_of_strings(v@).contains(cmd@)) == allowed);
                    }
                }
            },
            PermissionType::COMMANDS_REGEX(_r) => {
                return Err(ResolveError::RegexUnsupported);
            },
            PermissionType::COMMANDS_NOPASSWD(v) => {
                if vec_contains_str(v, cmd) {
                    return Ok((true, false));
                } else {
                    password = true;
                }
            },
            PermissionType::NOPASSWD => {
                password = false;
            },
        }
        idx = idx + 1;
    }
    Ok((allowed, password))
}

/// An error reported for a single malformed clause token.
#[derive(Debug, PartialEq)]
pub enum ClauseError {
    /// A `key:value` token with an unrecognized key.
    UnknownPair(String, String),
    /// A bare token that is not a recognized keyword.
    Unknown(String),
}

/// The mathematical model of a clause error.
pub ghost enum ClauseErrorV {
    UnknownPair(Seq<char>, Seq<char>),
    Unknown(Seq<char>),
}

impl View for ClauseError {
    type V = ClauseErrorV;

    open spec fn view(&self) -> ClauseErrorV {
        match self {
            ClauseError::UnknownPair(k, v) => ClauseErrorV::UnknownPair(k@, v@),
            ClauseError::Unknown(t) => ClauseErrorV::Unknown(t@),
        }
    }
}

/// The clause denoted by one token: a bare keyword, or a `key:value` pair
/// whose value is a comma-separated list.
pub open spec fn parse_clause_spec(t: Seq<char>) -> Result<Perm, ClauseErrorV> {
    match split_once_at(t, ':') {
        Some(p) => if p.0 == "permit"@ && p.1 == "all"@ {
            Ok(Perm::AllCommands)
        } else if p.0 == "permit"@ {
            Ok(Perm::Commands(split_sep(p.1, ',')))
        } else if p.0 == "permit_nopasswd"@ {
            Ok(Perm::CommandsNoPasswd(split_sep(p.1, ',')))
        } else {
            Err(ClauseErrorV::UnknownPair(p.0, p.1))
        },
        None => if t == "nopasswd"@ {
            Ok(Perm::NoPasswd)
        } else {
            Err(ClauseErrorV::Unknown(t))
        },
    }
}

/// The clauses denoted by a sequence of tokens; the first malformed token
/// aborts the whole parse.
pub open spec fn parse_clauses_spec(ts: Seq<Seq<char>>) -> Result<Seq<Perm>, ClauseErrorV>
    decreases ts.len(),
{
    if ts.len() == 0 {
        Ok(Seq::empty())
    } else {
        match parse_clause_spec(ts[0]) {
            Err(e) => Err(e),
            Ok(p) => match parse_clauses_spec(ts.skip(1)) {
                Err(e) => Err(e),
                Ok(ps) => Ok(seq![p] + ps),
            },
        }
    }
}

/// Parses one clause token.
pub fn parse_clause(t: &str) -> (r: Result<PermissionType, ClauseError>)
    ensures
        ({
            match parse_clause_spec(t@) {
                Ok(p) => r is Ok && r.unwrap()@ == p,
                Err(e) => r is Err && r.unwrap_err()@ == e,
            }
        }),
{
    match split_once_on(t, ':') {
        Some((key, value)) => {
            if str_eq(key.as_str(), "permit") {
                if str_eq(value.as_str(), "all") {
                    Ok(PermissionType::COMMANDS_ALL)
                } else {
                    Ok(PermissionType::COMMANDS(split_on(value.as_str(), ',')))
                }
            } else if str_eq(key.as_str(), "permit_nopasswd") {
                Ok(PermissionType::COMMANDS_NOPASSWD(split_on(value.as_str(), ',')))
            } else {
                Err(ClauseError::UnknownPair(key, value))
            }
        },
        None => {
            if str_eq(t, "nopasswd") {
                Ok(PermissionType::NOPASSWD)
            } else {
                Err(ClauseError::Unknown(String::from_str(t)))
            }
        },
    }
}

impl PermissionType {
    /// Parses a whole list of clause tokens, as they stand on one policy
    /// line after the subject name; the first malformed token aborts.
    pub fn get_by_args(args: Vec<&str>) -> (r: Result<Vec<PermissionType>, ClauseError>)
        ensures
            ({
                match parse_clauses_spec(args@.map_values(|s: &str| s@)) {
                    Ok(ps) => r is Ok && views_of_perms(r.unwrap()@) == ps,
                    Err(e) => r is Err && r.unwrap_err()@ == e,
                }
            }),
    {
        let ghost toks = args@.map_values(|s: &str| s@);
        let ghost full = parse_clauses_spec(toks);
        let mut permissions: Vec<PermissionType> = Vec::new();
        let mut i: usize = 0;
        proof {
            assert(toks.skip(0) == toks);
            assert(views_of_perms(permissions@) =~= Seq::<Perm>::empty());
            if full is Ok {
                assert(Seq::<Perm>::empty() + full->Ok_0 =~= full->Ok_0);
            }
        }
        while i < args.len()
            invariant
                i <= args@.len(),
                toks == args@.map_values(|s: &str| s@),
                full == parse_clauses_spec(toks),
                ({
                    match parse_clauses_spec(toks.skip(i as int)) {
                        Ok(rest) => full is Ok && full->Ok_0 == views_of_perms(permissions@)
                            + rest,
                        Err(e) => full == Err::<Seq<Perm>, ClauseErrorV>(e),
                    }
                }),
            decreases args@.len() - i,
        {
            proof {
                assert(toks[i as int] == args@[i as int]@);
                assert(toks.skip(i as int)[0] == toks[i as int]);
                assert(toks.skip(i as int).skip(1) =~= toks.skip(i + 1));
            }
            match parse_clause(args[i]) {
                Ok(p) => {
                    proof {
                        assert(views_of_perms(permissions@.push(p)) =~= views_of_perms(
                            permissions@,
                        ).push(p@));
                        match parse_clauses_spec(toks.skip(i + 1)) {
                            Ok(rest) => {
                                assert(views_of_perms(permissions@).push(p@) + rest
                                    =~= views_of_perms(permissions@) + (seq![p@] + rest));
                            },
                            Err(_) => {},
                        }
                    }
                    permissions.push(p);
                },
                Err(e) => {
                    return Err(e);
                },
            }
            i = i + 1;
        }
        proof {
            assert(toks.skip(args@.len() as int).len() == 0);
            assert(views_of_perms(permissions@) + Seq::<Perm>::empty() =~= views_of_perms(
                permissions@,
            ));
        }
        Ok(permissions)
    }
}

} // verus!
