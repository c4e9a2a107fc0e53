//! The miscellaneous component: small commands without a category, and the
//! connection-ready greeting. Its one command, `ping`, answers `pong!`.

use vstd::prelude::*;
use crate::matcher::MatchError;
use crate::matcher::spec_try_match;
use crate::tokenize::spec_split_shell;
use crate::tokenize::split_shell;
use crate::tree::Command;
use crate::tree::Group;

verus! {

/// Outcome of handing one line to a component, as the dispatcher's callers
/// see it.
pub enum CommandMatch {
    Matched,
    NotMatched,
    Error(String),
}

/// A user-facing description of a matching failure.
pub open spec fn spec_describe(e: MatchError) -> Seq<char> {
    match e {
        MatchError::NotMatched => "Commande inconnue"@,
        MatchError::PermissionDenied => "Permission refusée"@,
        MatchError::MissingArgument => "Argument manquant"@,
        MatchError::TooManyArguments => "Trop d'arguments"@,
        MatchError::UnknownArgument => "Argument invalide"@,
    }
}

impl MatchError {
    /// The user-facing text of this failure.
    pub fn describe(&self) -> (r: String)
        ensures
            r@ == spec_describe(*self),
    {
        match self {
            MatchError::NotMatched => String::from_str("Commande inconnue"),
            MatchError::PermissionDenied => String::from_str("Permission refusée"),
            MatchError::MissingArgument => String::from_str("Argument manquant"),
            MatchError::TooManyArguments => String::from_str("Trop d'arguments"),
            MatchError::UnknownArgument => String::from_str("Argument invalide"),
        }
    }
}

pub struct Misc {
    pub group_match: Group,
}

/// The role check a component makes before acting in a guild: outside any
/// guild (a direct message) every role is considered held; inside one, the
/// permission provider's answer stands, and its failure is reported as a
/// command error.
pub fn has_role_decision(guild: Option<u64>, answer: Result<bool, String>) -> (r: Result<
    bool,
    CommandMatch,
>)
    ensures
        match r {
            Ok(b) => (guild is None && b) || (guild is Some && (answer matches Ok(x) && x == b)),
            Err(CommandMatch::Error(e)) => guild is Some && (answer matches Err(y) && e@ == y@),
            Err(_) => false,
        },
{
    match guild {
        None => Ok(true),
        Some(_) => match answer {
            Ok(v) => Ok(v),
            Err(e) => Err(CommandMatch::Error(e)),
        },
    }
}

/// The greeting printed when the connection is ready.
pub fn connected_line(username: &String) -> (r: String)
    ensures
        r@ == username@ + " is connected!"@,
{
    let mut s = username.clone();
    s.append(" is connected!");
    s
}

/// The line naming the bot's invitation address.
pub fn invitation_line(url: &String) -> (r: String)
    ensures
        r@ == "Invitation: "@ + url@,
{
    let mut s = String::from_str("Invitation: ");
    s.append(url.as_str());
    s
}

/// What the component decides for one line: not its business, a failure to
/// report, or a text to say back.
pub enum MiscAction {
    NotMatched,
    Error(String),
    Say(String),
}

pub enum MiscActionView {
    NotMatched,
    Error(Seq<char>),
    Say(Seq<char>),
}

impl View for MiscAction {
    type V = MiscActionView;

    open spec fn view(&self) -> MiscActionView {
        match self {
            MiscAction::NotMatched => MiscActionView::NotMatched,
            MiscAction::Error(s) => MiscActionView::Error(s@),
            MiscAction::Say(s) => MiscActionView::Say(s@),
        }
    }
}

/// The decision the `misc` component takes on a tokenized line: `ping`,
/// granted its required role, is answered with `pong!`; a line the tree
/// does not match is a plain non-match, left for the next component; any
/// other failure is reported in words.
pub open spec fn spec_misc_action(g: Group, line: Seq<char>, roles: Seq<Seq<char>>) -> MiscActionView {
    match spec_try_match(g, spec_split_shell(line), roles, 0, Seq::<Seq<char>>::empty()) {
        Ok(m) => {
            if m.command == "ping"@ {
                MiscActionView::Say("pong!"@)
            } else {
                MiscActionView::NotMatched
            }
        },
        Err(MatchError::NotMatched) => MiscActionView::NotMatched,
        Err(e) => MiscActionView::Error(spec_describe(e)),
    }
}

impl Misc {
    /// The component's command surface: one group `misc` holding the
    /// `ping` command, which requires `role_ping`. The group's own
    /// required role, `role`, guards it where it stands as a child of
    /// another group; as the component's begin group it is a container.
    pub fn new() -> (r: Misc)
        ensures
            r.group_match.name@ == "misc"@,
            crate::tree::opt_view(r.group_match.required_role) == Some("role"@),
            crate::tree::opt_view(r.group_match.help) == Some(
                "Commande diverse, sans catégorie, ou de test"@,
            ),
            r.group_match.groups@.len() == 0,
            r.group_match.commands@.len() == 1,
            r.group_match.commands@[0].name@ == "ping"@,
            crate::tree::opt_view(r.group_match.commands@[0].required_role) == Some(
                "role_ping"@,
            ),
            crate::tree::opt_view(r.group_match.commands@[0].help) == Some(
                "Permet d'avoir une réponse du bot"@,
            ),
            r.group_match.commands@[0].args@.len() == 0,
            crate::tree::group_wf(r.group_match),
    {
        let m = Misc {
            group_match: Group::new("misc").set_help(
                "Commande diverse, sans catégorie, ou de test",
            ).add_command(
                Command::new("ping").set_help("Permet d'avoir une réponse du bot").set_role(
                    "role_ping",
                ),
            ).set_role("role"),
        };
        proof {
            assert(crate::tree::child_names(m.group_match).len() == 1);
            assert(crate::tree::group_wf(m.group_match));
        }
        m
    }

    /// The component's name.
    pub fn name(&self) -> (r: &'static str)
        ensures
            r@ == "misc"@,
    {
        "misc"
    }

    /// The component's match tree, for a caller that routes lines itself.
    pub fn group_parser(&self) -> (r: Option<&Group>)
        ensures
            r matches Some(g) && *g == self.group_match,
    {
        Some(&self.group_match)
    }

    /// Decide one raw line (already stripped of the prefix character):
    /// tokenize it, match it against the component's tree, and name the
    /// text to send back, if any. The caller sends it.
    pub fn command(&self, line: &str, roles: &Vec<String>) -> (r: MiscAction)
        ensures
            r@ == spec_misc_action(self.group_match, line@, roles.deep_view()),
    {
        let args = split_shell(line);
        let ping = String::from_str("ping");
        match self.group_match.try_match(None, &args, roles) {
            Ok(m) => {
                if m.get_command().eq(&ping) {
                    MiscAction::Say(String::from_str("pong!"))
                } else {
                    MiscAction::NotMatched
                }
            },
            Err(MatchError::NotMatched) => MiscAction::NotMatched,
            Err(e) => MiscAction::Error(e.describe()),
        }
    }
}

} // verus!
