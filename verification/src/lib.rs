//! Core of a chat-bot plugin host: a hierarchical command router with
//! role-based permission gates, and a durable shared-state store that every
//! component composes with.

use vstd::prelude::*;

pub mod codec;
pub mod decimal;
pub mod dispatch;
pub mod matcher;
pub mod message;
pub mod misc;
pub mod store;
pub mod tickets;
pub mod tokenize;
pub mod tree;

verus! {

/// Whether a string with this view occurs in the sequence.
pub open spec fn spec_contains_str(strs: Seq<Seq<char>>, s: Seq<char>) -> bool {
    exists|i: int| 0 <= i < strs.len() && strs[i] == s
}

/// Membership test for a string in a list of strings.
pub fn contains_str(strs: &Vec<String>, s: &String) -> (r: bool)
    ensures
        r == spec_contains_str(strs.deep_view(), s@),
{
    let mut i: usize = 0;
    while i < strs.len()
        invariant
            0 <= i <= strs.len(),
            forall|j: int| 0 <= j < i ==> strs.deep_view()[j] != s@,
        decreases strs.len() - i,
    {
        assert(strs.deep_view()[i as int] == strs[i as int]@);
        if strs[i].eq(s) {
            return true;
        }
        i = i + 1;
    }
    false
}

/// A caller holds a role when the role name occurs among the answers the
/// permission provider gave for this caller.
pub open spec fn spec_holds_role(roles: Seq<Seq<char>>, role: Seq<char>) -> bool {
    spec_contains_str(roles, role)
}

/// Membership test for a role name in the caller's set of held roles.
pub fn holds_role(roles: &Vec<String>, role: &String) -> (r: bool)
    ensures
        r == spec_holds_role(roles.deep_view(), role@),
{
    contains_str(roles, role)
}

} // verus!
