//! Global protocols: the choreography's tree of communications.

use vstd::prelude::*;
use crate::message::MessageType;
use crate::role::{Role, RoleView, role_in};

verus! {

/// A global protocol, seen from no participant in particular.
#[derive(Debug)]
pub enum Protocol {
    /// `from` sends `message` to `to`, then `continuation`.
    Send { from: Role, to: Role, message: MessageType, continuation: Box<Protocol> },
    /// `from` sends `message` to every role of `to_all`, then `continuation`.
    Broadcast { from: Role, to_all: Vec<Role>, message: MessageType, continuation: Box<Protocol> },
    /// `role` picks one of the labelled branches.
    Choice { role: Role, branches: Vec<Branch> },
    /// `body`, repeated as `condition` says.
    Loop { condition: Option<Condition>, body: Box<Protocol> },
    /// The children run concurrently.
    Parallel { protocols: Vec<Protocol> },
    /// A recursion scope binding `label` within `body`.
    Rec { label: String, body: Box<Protocol> },
    /// A jump back to the enclosing `Rec` of that label.
    Var(String),
    /// Termination.
    End,
}

/// One labelled alternative of a choice.
#[derive(Debug)]
pub struct Branch {
    pub label: String,
    pub guard: Option<String>,
    pub protocol: Protocol,
}

/// How often a loop's body runs.
#[derive(Debug)]
pub enum Condition {
    /// The given role decides at each iteration.
    RoleDecides(Role),
    /// A fixed number of iterations.
    Count(usize),
    /// A condition given as opaque text.
    Custom(String),
}

impl Condition {
    /// A copy of the condition with every field kept.
    pub fn copy(&self) -> (r: Condition)
        ensures
            r == *self,
    {
        match self {
            Condition::RoleDecides(role) => Condition::RoleDecides(role.copy()),
            Condition::Count(n) => Condition::Count(*n),
            Condition::Custom(s) => Condition::Custom(s.clone()),
        }
    }
}

/// Whether role `r` occurs anywhere in `p`: as a sender, a recipient or a decider.
pub open spec fn mentions(p: Protocol, r: RoleView) -> bool
    decreases p,
{
    match p {
        Protocol::Send { from, to, continuation, .. } => from@ == r || to@ == r || mentions(
            *continuation,
            r,
        ),
        Protocol::Broadcast { from, to_all, continuation, .. } => from@ == r || role_in(
            to_all@,
            r,
        ) || mentions(*continuation, r),
        Protocol::Choice { role, branches } => role@ == r || exists|i: int|
            0 <= i < branches.len() && mentions(#[trigger] branches@[i].protocol, r),
        Protocol::Loop { body, .. } => mentions(*body, r),
        Protocol::Parallel { protocols } => exists|i: int|
            0 <= i < protocols.len() && mentions(#[trigger] protocols@[i], r),
        Protocol::Rec { body, .. } => mentions(*body, r),
        Protocol::Var(_) => false,
        Protocol::End => false,
    }
}

/// A branch of a choice is smaller than the choice.
pub proof fn lemma_branch_decreases(p: Protocol, i: int)
    requires
        p is Choice,
        0 <= i < p->branches.len(),
    ensures
        decreases_to!(p => p->branches@[i].protocol),
{
    let bs = p->branches;
    assert(decreases_to!(p => bs));
    assert(decreases_to!(bs => bs@));
    assert(decreases_to!(bs@ => bs@[i]));
    assert(decreases_to!(bs@[i] => bs@[i].protocol));
}

/// A child of a parallel composition is smaller than the composition.
pub proof fn lemma_child_decreases(p: Protocol, i: int)
    requires
        p is Parallel,
        0 <= i < p->protocols.len(),
    ensures
        decreases_to!(p => p->protocols@[i]),
{
    let ps = p->protocols;
    assert(decreases_to!(p => ps));
    assert(decreases_to!(ps => ps@));
    assert(decreases_to!(ps@ => ps@[i]));
}

impl Protocol {
    /// Whether `role` occurs anywhere in the protocol.
    pub fn mentions_role(&self, role: &Role) -> (b: bool)
        ensures
            b == mentions(*self, role@),
        decreases self,
    {
        match self {
            Protocol::Send { from, to, continuation, .. } => {
                from.same_as(role) || to.same_as(role) || continuation.mentions_role(role)
            },
            Protocol::Broadcast { from, to_all, continuation, .. } => {
                from.same_as(role) || crate::role::contains_role(to_all.as_slice(), role)
                    || continuation.mentions_role(role)
            },
            Protocol::Choice { role: r, branches } => {
                if r.same_as(role) {
                    return true;
                }
                let mut i: usize = 0;
                while i < branches.len()
                    invariant
                        0 <= i <= branches.len(),
                        *self == (Protocol::Choice { role: *r, branches: *branches }),
                        forall|j: int| 0 <= j < i ==> !mentions(#[trigger] branches@[j].protocol, role@),
                    decreases branches.len() - i,
                {
                    proof {
                        lemma_branch_decreases(*self, i as int);
                    }
                    if branches[i].protocol.mentions_role(role) {
                        assert(mentions(branches@[i as int].protocol, role@));
                        return true;
                    }
                    i = i + 1;
                }
                false
            },
            Protocol::Loop { body, .. } => body.mentions_role(role),
            Protocol::Parallel { protocols } => {
                let mut i: usize = 0;
                while i < protocols.len()
                    invariant
                        0 <= i <= protocols.len(),
                        *self == (Protocol::Parallel { protocols: *protocols }),
                        forall|j: int| 0 <= j < i ==> !mentions(#[trigger] protocols@[j], role@),
                    decreases protocols.len() - i,
                {
                    proof {
                        lemma_child_decreases(*self, i as int);
                    }
                    if protocols[i].mentions_role(role) {
                        assert(mentions(protocols@[i as int], role@));
                        return true;
                    }
                    i = i + 1;
                }
                false
            },
            Protocol::Rec { body, .. } => body.mentions_role(role),
            Protocol::Var(_) => false,
            Protocol::End => false,
        }
    }
}

} // verus!
