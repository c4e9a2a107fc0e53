//! The dispatcher owns the set of registered components and routes each raw
//! text line or platform event to them. A command is an addressed request
//! with exactly one intended handler, so routing a line is first-wins in
//! registration order; an event is a broadcast notification, so every
//! component registered for its tag is a delivery target.

use vstd::prelude::*;
use crate::contains_str;
use crate::spec_contains_str;
use crate::matcher::MatchError;
use crate::matcher::Matched;
use crate::matcher::MatchedView;
use crate::matcher::spec_try_match;
use crate::tokenize::spec_split_shell;
use crate::tokenize::split_shell;
use crate::tree::Group;
use crate::tree::group_wf;

verus! {

/// Fatal registration-time failure: a duplicate component name or a
/// malformed command tree indicates a programming error in a component's
/// setup, and is refused before any routing begins.
#[derive(Clone, Copy, Debug, PartialEq, Eq, Structural)]
pub enum RegistryError {
    ConfigurationError,
}

/// One registered component: its unique name, the root of its command tree
/// (whose children are the component's root-level groups and commands), and
/// the tags of the event classes its handlers subscribe to.
pub struct Component {
    pub name: String,
    pub root: Group,
    pub event_tags: Vec<String>,
}

/// Outcome of routing one text line.
pub enum ClaimResult {
    NotClaimed,
    Claimed { component: String, matched: Matched },
    Failed { component: String, error: MatchError },
}

/// Mathematical content of a `ClaimResult`.
pub enum ClaimView {
    NotClaimed,
    Claimed { component: Seq<char>, matched: MatchedView },
    Failed { component: Seq<char>, error: MatchError },
}

impl View for ClaimResult {
    type V = ClaimView;

    open spec fn view(&self) -> ClaimView {
        match self {
            ClaimResult::NotClaimed => ClaimView::NotClaimed,
            ClaimResult::Claimed { component, matched } => ClaimView::Claimed {
                component: component@,
                matched: matched@,
            },
            ClaimResult::Failed { component, error } => ClaimView::Failed {
                component: component@,
                error: *error,
            },
        }
    }
}

/// The router that all inbound text lines and events pass through. Beyond
/// the prefix character it holds only the list of registered components,
/// set up before routing begins and read-only afterwards.
pub struct Dispatcher {
    pub components: Vec<Component>,
    pub prefix: char,
}

/// Whether a component with this name is already registered.
pub open spec fn spec_has_component(cs: Seq<Component>, name: Seq<char>) -> bool {
    exists|i: int| 0 <= i < cs.len() && cs[i].name@ == name
}

/// A registration is accepted exactly when the component's name is new and
/// its tree is well-formed.
pub open spec fn spec_register_ok(cs: Seq<Component>, c: Component) -> bool {
    !spec_has_component(cs, c.name@) && group_wf(c.root)
}

/// What matching one component's tree against the tokens yields.
pub open spec fn spec_component_match(
    c: Component,
    toks: Seq<Seq<char>>,
    roles: Seq<Seq<char>>,
) -> Result<MatchedView, MatchError> {
    spec_try_match(c.root, toks, roles, 0, Seq::<Seq<char>>::empty())
}

/// First-wins routing over the components from index `i` on: the first
/// component whose matcher reports anything but `NotMatched` is
/// authoritative, and later siblings are not consulted even on a failure.
pub open spec fn spec_route_from(
    cs: Seq<Component>,
    toks: Seq<Seq<char>>,
    roles: Seq<Seq<char>>,
    i: int,
) -> ClaimView
    recommends
        0 <= i <= cs.len(),
    decreases cs.len() - i,
{
    if i < 0 || i >= cs.len() {
        ClaimView::NotClaimed
    } else {
        match spec_component_match(cs[i], toks, roles) {
            Ok(m) => ClaimView::Claimed { component: cs[i].name@, matched: m },
            Err(MatchError::NotMatched) => spec_route_from(cs, toks, roles, i + 1),
            Err(e) => ClaimView::Failed { component: cs[i].name@, error: e },
        }
    }
}

/// Routing a full line: a line that is empty or does not begin with the
/// configured prefix character is not a command and no component sees it;
/// otherwise the prefix is stripped, the rest tokenized, and the components
/// consulted first-wins.
pub open spec fn spec_route_command(
    cs: Seq<Component>,
    prefix: char,
    line: Seq<char>,
    roles: Seq<Seq<char>>,
) -> ClaimView {
    if line.len() == 0 || line[0] != prefix {
        ClaimView::NotClaimed
    } else {
        spec_route_from(cs, spec_split_shell(line.subrange(1, line.len() as int)), roles, 0)
    }
}

/// The names of the components subscribed to an event tag, in registration
/// order: events fan out, so every one of them is a delivery target.
pub open spec fn spec_event_targets(cs: Seq<Component>, tag: Seq<char>) -> Seq<Seq<char>>
    decreases cs.len(),
{
    if cs.len() == 0 {
        Seq::empty()
    } else {
        let rest = spec_event_targets(cs.drop_last(), tag);
        if spec_contains_str(cs.last().event_tags.deep_view(), tag) {
            rest.push(cs.last().name@)
        } else {
            rest
        }
    }
}

impl Dispatcher {
    /// A dispatcher with no components, routing lines that begin with
    /// `prefix`.
    pub fn new(prefix: char) -> (r: Self)
        ensures
            r.components@ =~= Seq::<Component>::empty(),
            r.prefix == prefix,
    {
        Dispatcher { components: Vec::new(), prefix }
    }

    /// Register one component. A name already taken or a command tree with
    /// duplicate sibling names is a configuration error; the registration
    /// is refused, never silently merged, and the dispatcher is unchanged.
    pub fn register(&mut self, c: Component) -> (r: Result<(), RegistryError>)
        ensures
            match r {
                Ok(()) => spec_register_ok(old(self).components@, c) && final(self).components@
                    == old(self).components@.push(c),
                Err(RegistryError::ConfigurationError) => !spec_register_ok(
                    old(self).components@,
                    c,
                ) && *final(self) == *old(self),
            },
            final(self).prefix == old(self).prefix,
    {
        let mut i: usize = 0;
        while i < self.components.len()
            invariant
                i <= self.components@.len(),
                forall|j: int|
                    0 <= j < i ==> (#[trigger] self.components@[j]).name@ != c.name@,
            decreases self.components.len() - i,
        {
            if self.components[i].name.eq(&c.name) {
                return Err(RegistryError::ConfigurationError);
            }
            i = i + 1;
        }
        if !c.root.check_wf() {
            return Err(RegistryError::ConfigurationError);
        }
        self.components.push(c);
        Ok(())
    }

    /// Route one raw text line, first-wins across the registered components.
    pub fn route_command(&self, line: &str, roles: &Vec<String>) -> (r: ClaimResult)
        ensures
            r@ == spec_route_command(self.components@, self.prefix, line@, roles.deep_view()),
    {
        let n = line.unicode_len();
        if n == 0 {
            return ClaimResult::NotClaimed;
        }
        let c0 = line.get_char(0);
        if c0 != self.prefix {
            return ClaimResult::NotClaimed;
        }
        let rest = line.substring_char(1, n);
        let tokens = split_shell(rest);
        let ghost toks = spec_split_shell(line@.subrange(1, line@.len() as int));
        let mut i: usize = 0;
        while i < self.components.len()
            invariant
                i <= self.components@.len(),
                line@.len() > 0,
                line@[0] == self.prefix,
                toks == spec_split_shell(line@.subrange(1, line@.len() as int)),
                tokens.deep_view() == toks,
                spec_route_from(self.components@, toks, roles.deep_view(), 0) == spec_route_from(
                    self.components@,
                    toks,
                    roles.deep_view(),
                    i as int,
                ),
            decreases self.components.len() - i,
        {
            let comp = &self.components[i];
            match comp.root.try_match(None, &tokens, roles) {
                Err(MatchError::NotMatched) => {},
                Ok(m) => {
                    return ClaimResult::Claimed { component: comp.name.clone(), matched: m };
                },
                Err(e) => {
                    return ClaimResult::Failed { component: comp.name.clone(), error: e };
                },
            }
            i = i + 1;
        }
        ClaimResult::NotClaimed
    }

    /// The delivery targets of one event, by tag, in registration order.
    /// The caller invokes each target's handler in turn; one handler's
    /// failure is reported to that handler's caller and does not prevent
    /// delivery to the remaining targets.
    pub fn route_event(&self, tag: &String) -> (r: Vec<String>)
        ensures
            r.deep_view() == spec_event_targets(self.components@, tag@),
    {
        let mut out: Vec<String> = Vec::new();
        let mut i: usize = 0;
        while i < self.components.len()
            invariant
                i <= self.components@.len(),
                out.deep_view() == spec_event_targets(
                    self.components@.subrange(0, i as int),
                    tag@,
                ),
            decreases self.components.len() - i,
        {
            let ghost prefix_now = self.components@.subrange(0, i as int);
            let ghost prefix_next = self.components@.subrange(0, i + 1);
            proof {
                assert(prefix_next.drop_last() =~= prefix_now);
                assert(prefix_next.last() == self.components@[i as int]);
            }
            if contains_str(&self.components[i].event_tags, tag) {
                let ghost prevs = out@;
                out.push(self.components[i].name.clone());
                proof {
                    assert(forall|m: int| 0 <= m < prevs.len() ==> out@[m] == prevs[m]);
                    assert(out.deep_view() =~= spec_event_targets(prefix_next, tag@));
                }
            } else {
                proof {
                    assert(out.deep_view() =~= spec_event_targets(prefix_next, tag@));
                }
            }
            i = i + 1;
        }
        proof {
            assert(self.components@.subrange(0, self.components@.len() as int)
                =~= self.components@);
        }
        out
    }
}

/// A name that is already registered can never be registered again: the
/// second attempt is a configuration error, whatever tree it carries.
pub proof fn lemma_reregistration_rejected(cs: Seq<Component>, c: Component, i: int)
    requires
        0 <= i < cs.len(),
        cs[i].name@ == c.name@,
    ensures
        !spec_register_ok(cs, c),
{
}

} // verus!
