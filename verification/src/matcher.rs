//! The matcher walks a group tree against a token sequence, resolving the
//! deepest matching command, applying permission checks at every node along
//! the path, and producing a resolved command plus bound arguments or a typed
//! failure.
//!
//! The permission provider is an outside capability answering whether a
//! caller holds a named role in a scope. One matching attempt consumes only
//! those booleans: the caller gathers the provider's answers for its
//! identity and scope into the list of held role names handed to
//! `try_match`, and nothing is cached across attempts.

use vstd::prelude::*;
use crate::holds_role;
use crate::spec_holds_role;
use crate::tree::ArgKind;
use crate::tree::ArgSpec;
use crate::tree::Command;
use crate::tree::Group;

verus! {

/// Typed failure of one matching attempt. `NotMatched` is a routing signal,
/// not an error: it lets the dispatcher try the next component.
#[derive(Clone, Copy, Debug, PartialEq, Eq, Structural)]
pub enum MatchError {
    NotMatched,
    PermissionDenied,
    MissingArgument,
    TooManyArguments,
    UnknownArgument,
}

/// A resolved command: the group names descended through, the command name,
/// and each declared slot bound to a token or left empty (optional slots).
pub struct Matched {
    pub path: Vec<String>,
    pub command: String,
    pub args: Vec<(String, Option<String>)>,
}

/// Mathematical content of a `Matched` value.
#[verifier::ext_equal]
pub struct MatchedView {
    pub path: Seq<Seq<char>>,
    pub command: Seq<char>,
    pub args: Seq<(Seq<char>, Option<Seq<char>>)>,
}

impl View for Matched {
    type V = MatchedView;

    open spec fn view(&self) -> MatchedView {
        MatchedView {
            path: self.path.deep_view(),
            command: self.command@,
            args: self.args.deep_view(),
        }
    }
}

/// The view of a matching result.
pub open spec fn result_view(r: Result<Matched, MatchError>) -> Result<MatchedView, MatchError> {
    match r {
        Ok(m) => Ok(m@),
        Err(e) => Err(e),
    }
}

/// Whether the caller holds an optional required role.
pub open spec fn spec_role_ok(req: Option<String>, roles: Seq<Seq<char>>) -> bool {
    match req {
        None => true,
        Some(r) => spec_holds_role(roles, r@),
    }
}

/// The names of a sequence of child groups.
pub open spec fn group_names(gs: Seq<Group>) -> Seq<Seq<char>> {
    Seq::new(gs.len(), |i: int| gs[i].name@)
}

/// The names of a sequence of child commands.
pub open spec fn command_names(cs: Seq<Command>) -> Seq<Seq<char>> {
    Seq::new(cs.len(), |i: int| cs[i].name@)
}

/// Index of the first occurrence of `name`, if any.
pub open spec fn spec_find(names: Seq<Seq<char>>, name: Seq<char>) -> Option<int>
    decreases names.len(),
{
    if names.len() == 0 {
        None
    } else if names[0] == name {
        Some(0)
    } else {
        match spec_find(names.drop_first(), name) {
            Some(k) => Some(k + 1),
            None => None,
        }
    }
}

pub proof fn lemma_spec_find(names: Seq<Seq<char>>, name: Seq<char>)
    ensures
        match spec_find(names, name) {
            None => forall|i: int| 0 <= i < names.len() ==> names[i] != name,
            Some(k) => 0 <= k < names.len() && names[k] == name && (forall|i: int|
                0 <= i < k ==> names[i] != name),
        },
    decreases names.len(),
{
    if names.len() > 0 && names[0] != name {
        let d = names.drop_first();
        lemma_spec_find(d, name);
        assert(forall|i: int| 0 <= i < d.len() ==> #[trigger] d[i] == names[i + 1]);
        match spec_find(d, name) {
            None => {
                assert forall|i: int| 0 <= i < names.len() implies names[i] != name by {
                    if i > 0 {
                        assert(d[i - 1] == names[i]);
                    }
                }
            },
            Some(k) => {
                assert(names[k + 1] == name);
                assert forall|i: int| 0 <= i < k + 1 implies names[i] != name by {
                    if i > 0 {
                        assert(d[i - 1] == names[i]);
                    }
                }
            },
        }
    }
}

/// A decimal digit.
pub open spec fn is_digit_char(c: char) -> bool {
    c == '0' || c == '1' || c == '2' || c == '3' || c == '4' || c == '5' || c == '6' || c == '7'
        || c == '8' || c == '9'
}

/// Runtime test for a decimal digit.
pub fn is_digit(c: char) -> (b: bool)
    ensures
        b == is_digit_char(c),
{
    match c {
        '0' | '1' | '2' | '3' | '4' | '5' | '6' | '7' | '8' | '9' => true,
        _ => false,
    }
}

/// Whether a token is acceptable for a slot of the given kind: anything for
/// text, a nonempty run of decimal digits for an integer, `true` or `false`
/// for a boolean.
pub open spec fn spec_coerce_ok(kind: ArgKind, tok: Seq<char>) -> bool {
    match kind {
        ArgKind::Text => true,
        ArgKind::Int => tok.len() > 0 && (forall|i: int|
            0 <= i < tok.len() ==> is_digit_char(#[trigger] tok[i])),
        ArgKind::Bool => tok == "true"@ || tok == "false"@,
    }
}

/// Positional binding of the residual tokens to a command's declared slots.
/// Surplus tokens are refused first, then an unfilled required slot, then a
/// token that does not fit its slot's kind.
pub open spec fn spec_bind_args(args: Seq<ArgSpec>, toks: Seq<Seq<char>>) -> Result<
    Seq<(Seq<char>, Option<Seq<char>>)>,
    MatchError,
> {
    if toks.len() > args.len() {
        Err(MatchError::TooManyArguments)
    } else if exists|i: int| toks.len() <= i < args.len() && (#[trigger] args[i]).required {
        Err(MatchError::MissingArgument)
    } else if exists|i: int|
        0 <= i < toks.len() && !spec_coerce_ok((#[trigger] args[i]).kind, toks[i]) {
        Err(MatchError::UnknownArgument)
    } else {
        Ok(
            Seq::new(
                args.len(),
                |i: int|
                    (
                        args[i].name@,
                        if i < toks.len() {
                            Some(toks[i])
                        } else {
                            None
                        },
                    ),
            ),
        )
    }
}

/// The matching algorithm, starting inside group `g` at token `i`, with
/// `path` the group names already descended through. The group the walk
/// stands in is a container: exhausted tokens, or a token naming none of
/// its children, yield `NotMatched` — the routing signal — whatever roles
/// the caller holds. A role is demanded the moment a token addresses a
/// gated child group (before anything of its subtree is looked at) or
/// names a command. One token is consumed per descent; group children
/// shadow command children of the same name, though a well-formed tree has
/// no such collision.
pub open spec fn spec_try_match(
    g: Group,
    toks: Seq<Seq<char>>,
    roles: Seq<Seq<char>>,
    i: int,
    path: Seq<Seq<char>>,
) -> Result<MatchedView, MatchError>
    recommends
        0 <= i <= toks.len(),
    decreases toks.len() - i,
{
    if i >= toks.len() {
        Err(MatchError::NotMatched)
    } else {
        match spec_find(group_names(g.groups@), toks[i]) {
            Some(k) => {
                if !spec_role_ok(g.groups@[k].required_role, roles) {
                    Err(MatchError::PermissionDenied)
                } else {
                    spec_try_match(g.groups@[k], toks, roles, i + 1, path.push(toks[i]))
                }
            },
            None => match spec_find(command_names(g.commands@), toks[i]) {
                Some(k) => {
                    let c = g.commands@[k];
                    if !spec_role_ok(c.required_role, roles) {
                        Err(MatchError::PermissionDenied)
                    } else {
                        match spec_bind_args(c.args@, toks.subrange(i + 1, toks.len() as int)) {
                            Ok(bound) => Ok(
                                MatchedView { path: path, command: toks[i], args: bound },
                            ),
                            Err(e) => Err(e),
                        }
                    }
                },
                None => Err(MatchError::NotMatched),
            },
        }
    }
}

/// First index among the child groups whose name is `name`.
fn find_group(groups: &Vec<Group>, name: &String) -> (r: Option<usize>)
    ensures
        match r {
            None => spec_find(group_names(groups@), name@) is None,
            Some(k) => k < groups@.len() && spec_find(group_names(groups@), name@) == Some(
                k as int,
            ),
        },
{
    let mut i: usize = 0;
    while i < groups.len()
        invariant
            i <= groups@.len(),
            forall|j: int| 0 <= j < i ==> group_names(groups@)[j] != name@,
        decreases groups.len() - i,
    {
        if groups[i].name.eq(name) {
            proof {
                assert(group_names(groups@)[i as int] == name@);
                lemma_spec_find(group_names(groups@), name@);
            }
            return Some(i);
        }
        proof {
            assert(group_names(groups@)[i as int] == groups@[i as int].name@);
        }
        i = i + 1;
    }
    proof {
        lemma_spec_find(group_names(groups@), name@);
    }
    None
}

/// First index among the child commands whose name is `name`.
fn find_command(commands: &Vec<Command>, name: &String) -> (r: Option<usize>)
    ensures
        match r {
            None => spec_find(command_names(commands@), name@) is None,
            Some(k) => k < commands@.len() && spec_find(command_names(commands@), name@) == Some(
                k as int,
            ),
        },
{
    let mut i: usize = 0;
    while i < commands.len()
        invariant
            i <= commands@.len(),
            forall|j: int| 0 <= j < i ==> command_names(commands@)[j] != name@,
        decreases commands.len() - i,
    {
        if commands[i].name.eq(name) {
            proof {
                assert(command_names(commands@)[i as int] == name@);
                lemma_spec_find(command_names(commands@), name@);
            }
            return Some(i);
        }
        proof {
            assert(command_names(commands@)[i as int] == commands@[i as int].name@);
        }
        i = i + 1;
    }
    proof {
        lemma_spec_find(command_names(commands@), name@);
    }
    None
}

/// Whether a token fits a slot of the given kind.
fn coerce_ok(kind: ArgKind, tok: &String) -> (b: bool)
    ensures
        b == spec_coerce_ok(kind, tok@),
{
    match kind {
        ArgKind::Text => true,
        ArgKind::Int => {
            let s = tok.as_str();
            let n = s.unicode_len();
            if n == 0 {
                return false;
            }
            let mut i: usize = 0;
            while i < n
                invariant
                    kind is Int,
                    n == tok@.len(),
                    s@ == tok@,
                    i <= n,
                    forall|j: int| 0 <= j < i ==> is_digit_char(#[trigger] tok@[j]),
                decreases n - i,
            {
                let c = s.get_char(i);
                if !is_digit(c) {
                    proof {
                        assert(!is_digit_char(tok@[i as int]));
                    }
                    return false;
                }
                i = i + 1;
            }
            true
        },
        ArgKind::Bool => {
            let t = String::from_str("true");
            let f = String::from_str("false");
            tok.eq(&t) || tok.eq(&f)
        },
    }
}

/// Bind `tokens[start..]` to the declared slots.
fn bind_args(args: &Vec<ArgSpec>, tokens: &Vec<String>, start: usize) -> (r: Result<
    Vec<(String, Option<String>)>,
    MatchError,
>)
    requires
        start <= tokens@.len(),
    ensures
        match r {
            Ok(bound) => spec_bind_args(
                args@,
                tokens.deep_view().subrange(start as int, tokens@.len() as int),
            ) == Ok::<_, MatchError>(bound.deep_view()),
            Err(e) => spec_bind_args(
                args@,
                tokens.deep_view().subrange(start as int, tokens@.len() as int),
            ) == Err::<Seq<(Seq<char>, Option<Seq<char>>)>, _>(e),
        },
{
    let ghost toks = tokens.deep_view().subrange(start as int, tokens@.len() as int);
    let n = tokens.len();
    let rest = n - start;
    if rest > args.len() {
        return Err(MatchError::TooManyArguments);
    }
    let mut j: usize = rest;
    while j < args.len()
        invariant
            rest <= j <= args@.len(),
            n == tokens@.len(),
            start + rest == n,
            toks == tokens.deep_view().subrange(start as int, tokens@.len() as int),
            forall|i: int| rest <= i < j ==> !(#[trigger] args@[i]).required,
        decreases args.len() - j,
    {
        if args[j].required {
            proof {
                assert(toks.len() == rest);
            }
            return Err(MatchError::MissingArgument);
        }
        j = j + 1;
    }
    let mut j: usize = 0;
    while j < rest
        invariant
            rest <= args@.len(),
            n == tokens@.len(),
            start + rest == n,
            j <= rest,
            toks == tokens.deep_view().subrange(start as int, tokens@.len() as int),
            forall|i: int|
                rest <= i < args@.len() ==> !(#[trigger] args@[i]).required,
            forall|i: int| 0 <= i < j ==> spec_coerce_ok((#[trigger] args@[i]).kind, toks[i]),
        decreases rest - j,
    {
        proof {
            assert(toks[j as int] == tokens.deep_view()[start + j]);
            assert(tokens.deep_view()[start + j] == tokens@[start + j]@);
        }
        if !coerce_ok(args[j].kind, &tokens[start + j]) {
            return Err(MatchError::UnknownArgument);
        }
        j = j + 1;
    }
    let mut bound: Vec<(String, Option<String>)> = Vec::new();
    let mut j: usize = 0;
    while j < args.len()
        invariant
            rest <= args@.len(),
            n == tokens@.len(),
            start + rest == n,
            j <= args@.len(),
            toks == tokens.deep_view().subrange(start as int, tokens@.len() as int),
            forall|i: int|
                rest <= i < args@.len() ==> !(#[trigger] args@[i]).required,
            forall|i: int|
                0 <= i < rest ==> spec_coerce_ok((#[trigger] args@[i]).kind, toks[i]),
            bound@.len() == j as int,
            forall|i: int|
                0 <= i < j ==> (#[trigger] bound@[i]).deep_view() == (
                    args@[i].name@,
                    if i < rest {
                        Some(toks[i])
                    } else {
                        None
                    },
                ),
        decreases args.len() - j,
    {
        let ghost prevs = bound@;
        if j < rest {
            proof {
                assert(toks[j as int] == tokens.deep_view()[start + j]);
                assert(tokens.deep_view()[start + j] == tokens@[start + j]@);
            }
            bound.push((args[j].name.clone(), Some(tokens[start + j].clone())));
        } else {
            bound.push((args[j].name.clone(), None));
        }
        proof {
            assert(forall|i: int| 0 <= i < j ==> bound@[i] == prevs[i]);
            assert(bound@[j as int].deep_view() == (
                bound@[j as int].0.deep_view(),
                bound@[j as int].1.deep_view(),
            ));
            assert(bound@[j as int].0@ == args@[j as int].name@);
        }
        j = j + 1;
    }
    proof {
        assert(!(toks.len() > args@.len()));
        assert(!(exists|i: int| toks.len() <= i < args@.len() && (#[trigger] args@[i]).required));
        assert(!(exists|i: int|
            0 <= i < toks.len() && !spec_coerce_ok((#[trigger] args@[i]).kind, toks[i])));
        assert(bound.deep_view() =~= Seq::new(
            args@.len(),
            |i: int|
                (
                    args@[i].name@,
                    if i < toks.len() {
                        Some(toks[i])
                    } else {
                        None
                    },
                ),
        ));
    }
    Ok(bound)
}

/// The value of the first slot named `name`, scanning from position `i`.
pub open spec fn spec_get_argument(
    args: Seq<(Seq<char>, Option<Seq<char>>)>,
    name: Seq<char>,
    i: int,
) -> Option<Seq<char>>
    decreases args.len() - i,
{
    if i < 0 || i >= args.len() {
        None
    } else if args[i].0 == name {
        args[i].1
    } else {
        spec_get_argument(args, name, i + 1)
    }
}

impl Matched {
    /// Name of the resolved command.
    pub fn get_command(&self) -> (r: &String)
        ensures
            r@ == self@.command,
    {
        &self.command
    }

    /// The token bound to the slot named `name`, if that slot exists and was
    /// filled.
    pub fn get_argument(&self, name: &String) -> (r: Option<&String>)
        ensures
            match r {
                Some(v) => spec_get_argument(self@.args, name@, 0) == Some(v@),
                None => spec_get_argument(self@.args, name@, 0) is None,
            },
    {
        let mut i: usize = 0;
        while i < self.args.len()
            invariant
                i <= self.args@.len(),
                spec_get_argument(self@.args, name@, 0) == spec_get_argument(
                    self@.args,
                    name@,
                    i as int,
                ),
            decreases self.args.len() - i,
        {
            proof {
                assert(self@.args[i as int] == (
                    self.args@[i as int].0@,
                    match self.args@[i as int].1 {
                        Some(s) => Some(s@),
                        None => None,
                    },
                ));
            }
            if self.args[i].0.eq(name) {
                return match &self.args[i].1 {
                    Some(v) => Some(v),
                    None => None,
                };
            }
            i = i + 1;
        }
        None
    }
}

impl Group {
    /// Resolve a token sequence to a command, beginning at `start` when one
    /// is given and at this group otherwise. The begin group is a
    /// container: a line its tree does not match — empty, or addressing no
    /// child — is `NotMatched`, the routing signal, whatever the caller's
    /// roles. Every group a token then addresses gates on its required
    /// role before any of its children are even looked at, so a caller
    /// lacking a role learns nothing about the subtree behind it.
    pub fn try_match(&self, start: Option<&Group>, tokens: &Vec<String>, roles: &Vec<String>) -> (r:
        Result<Matched, MatchError>)
        ensures
            result_view(r) == spec_try_match(
                match start {
                    Some(s) => *s,
                    None => *self,
                },
                tokens.deep_view(),
                roles.deep_view(),
                0,
                Seq::<Seq<char>>::empty(),
            ),
    {
        let begin = match start {
            Some(s) => s,
            None => self,
        };
        let path: Vec<String> = Vec::new();
        assert(path.deep_view() =~= Seq::<Seq<char>>::empty());
        begin.try_match_at(tokens, 0, roles, path)
    }

    /// Recursive worker: match inside this group starting at token `i`.
    fn try_match_at(&self, tokens: &Vec<String>, i: usize, roles: &Vec<String>, path: Vec<String>) -> (r:
        Result<Matched, MatchError>)
        requires
            i <= tokens@.len(),
        ensures
            result_view(r) == spec_try_match(
                *self,
                tokens.deep_view(),
                roles.deep_view(),
                i as int,
                path.deep_view(),
            ),
        decreases tokens@.len() - i,
    {
        if i == tokens.len() {
            return Err(MatchError::NotMatched);
        }
        proof {
            assert(tokens.deep_view()[i as int] == tokens@[i as int]@);
        }
        match find_group(&self.groups, &tokens[i]) {
            Some(k) => {
                match &self.groups[k].required_role {
                    Some(role) => {
                        if !holds_role(roles, role) {
                            return Err(MatchError::PermissionDenied);
                        }
                    },
                    None => {},
                }
                let mut path = path;
                let ghost prev = path.deep_view();
                let ghost prevs = path@;
                path.push(tokens[i].clone());
                proof {
                    assert(path@ == prevs.push(path@[prevs.len() as int]));
                    assert(forall|m: int| 0 <= m < prevs.len() ==> path@[m] == prevs[m]);
                    assert(path@[prevs.len() as int]@ == tokens.deep_view()[i as int]);
                    assert(path.deep_view() =~= prev.push(tokens.deep_view()[i as int]));
                }
                self.groups[k].try_match_at(tokens, i + 1, roles, path)
            },
            None => {
                match find_command(&self.commands, &tokens[i]) {
                    Some(k) => {
                        let cmd = &self.commands[k];
                        match &cmd.required_role {
                            Some(role) => {
                                if !holds_role(roles, role) {
                                    return Err(MatchError::PermissionDenied);
                                }
                            },
                            None => {},
                        }
                        match bind_args(&cmd.args, tokens, i + 1) {
                            Ok(bound) => Ok(
                                Matched {
                                    path,
                                    command: tokens[i].clone(),
                                    args: bound,
                                },
                            ),
                            Err(e) => Err(e),
                        }
                    },
                    None => Err(MatchError::NotMatched),
                }
            },
        }
    }
}

/// Matching is deterministic: the result is a function of the tree, the
/// token sequence and the permission provider's answers alone, so two calls
/// that agree on those agree on the outcome.
pub proof fn lemma_try_match_deterministic(
    g: Group,
    toks: Seq<Seq<char>>,
    roles: Seq<Seq<char>>,
    r1: Result<Matched, MatchError>,
    r2: Result<Matched, MatchError>,
)
    requires
        result_view(r1) == spec_try_match(g, toks, roles, 0, Seq::<Seq<char>>::empty()),
        result_view(r2) == spec_try_match(g, toks, roles, 0, Seq::<Seq<char>>::empty()),
    ensures
        result_view(r1) == result_view(r2),
{
}

/// An empty token sequence against a group always yields `NotMatched` — a
/// routing signal, never an error — whatever roles the caller holds and
/// whatever role the group itself requires.
pub proof fn lemma_empty_line_never_matches(
    g: Group,
    toks: Seq<Seq<char>>,
    roles: Seq<Seq<char>>,
    path: Seq<Seq<char>>,
)
    requires
        toks.len() == 0,
    ensures
        spec_try_match(g, toks, roles, 0, path) == Err::<MatchedView, MatchError>(
            MatchError::NotMatched,
        ),
{
}

/// Every role requirement along the walk that the matcher actually takes
/// from group `g`: each gated group a token addresses, and the resolved
/// command's own role at the end. The group the walk begins in is a
/// container and contributes no requirement of its own.
pub open spec fn spec_gates_passed(g: Group, toks: Seq<Seq<char>>, roles: Seq<Seq<char>>, i: int) -> bool
    recommends
        0 <= i <= toks.len(),
    decreases toks.len() - i,
{
    if i < toks.len() {
        match spec_find(group_names(g.groups@), toks[i]) {
            Some(k) => spec_role_ok(g.groups@[k].required_role, roles) && spec_gates_passed(
                g.groups@[k],
                toks,
                roles,
                i + 1,
            ),
            None => match spec_find(command_names(g.commands@), toks[i]) {
                Some(k) => spec_role_ok(g.commands@[k].required_role, roles),
                None => true,
            },
        }
    } else {
        true
    }
}

/// A caller lacking a role somewhere along the path never reaches an
/// argument-binding error: those failures presuppose that every permission
/// along the walk, group by group and at the command itself, was granted.
pub proof fn lemma_binding_errors_lie_behind_open_gates(
    g: Group,
    toks: Seq<Seq<char>>,
    roles: Seq<Seq<char>>,
    i: int,
    path: Seq<Seq<char>>,
)
    requires
        0 <= i <= toks.len(),
        spec_try_match(g, toks, roles, i, path) matches Err(e) && (e is MissingArgument
            || e is TooManyArguments || e is UnknownArgument),
    ensures
        spec_gates_passed(g, toks, roles, i),
    decreases toks.len() - i,
{
    if i < toks.len() {
        match spec_find(group_names(g.groups@), toks[i]) {
            Some(k) => {
                lemma_spec_find(group_names(g.groups@), toks[i]);
                lemma_binding_errors_lie_behind_open_gates(
                    g.groups@[k],
                    toks,
                    roles,
                    i + 1,
                    path.push(toks[i]),
                );
            },
            None => {},
        }
    }
}

/// Permission gates are evaluated top-down and eagerly: when the next
/// token names a child group whose required role the caller lacks, the
/// whole match is `PermissionDenied` at once, whatever commands or
/// argument shapes lie below — nothing of the subtree is consulted.
pub proof fn lemma_permission_checked_before_descent(
    g: Group,
    toks: Seq<Seq<char>>,
    roles: Seq<Seq<char>>,
    i: int,
    path: Seq<Seq<char>>,
    k: int,
)
    requires
        0 <= i < toks.len(),
        spec_find(group_names(g.groups@), toks[i]) == Some(k),
        !spec_role_ok(g.groups@[k].required_role, roles),
    ensures
        spec_try_match(g, toks, roles, i, path) == Err::<MatchedView, MatchError>(
            MatchError::PermissionDenied,
        ),
{
    lemma_spec_find(group_names(g.groups@), toks[i]);
}

} // verus!
