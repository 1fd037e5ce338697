//! Advisory analysis of a global protocol: who takes part how often, whether
//! every role takes part, and whether the protocol can terminate.

use vstd::prelude::*;
use crate::choreography::Choreography;
use crate::protocol::{Protocol, Branch, lemma_branch_decreases, lemma_child_decreases};
use crate::role::{Role, RoleView, role_in, contains_role};

verus! {

/// The number of communications and decisions of `p` in which `r` takes part.
pub open spec fn involvement(p: Protocol, r: RoleView) -> nat
    decreases p,
{
    match p {
        Protocol::Send { from, to, continuation, .. } => (if from@ == r || to@ == r {
            1nat
        } else {
            0nat
        }) + involvement(*continuation, r),
        Protocol::Broadcast { from, to_all, continuation, .. } => (if from@ == r || role_in(to_all@, r) {
            1nat
        } else {
            0nat
        }) + involvement(*continuation, r),
        Protocol::Choice { role, branches } => (if role@ == r {
            1nat
        } else {
            0nat
        }) + involvement_branches(branches@, r),
        Protocol::Loop { body, .. } => involvement(*body, r),
        Protocol::Parallel { protocols } => involvement_list(protocols@, r),
        Protocol::Rec { body, .. } => involvement(*body, r),
        Protocol::Var(_) => 0,
        Protocol::End => 0,
    }
}

pub open spec fn involvement_branches(bs: Seq<Branch>, r: RoleView) -> nat
    decreases bs,
{
    if bs.len() == 0 {
        0
    } else {
        involvement(bs[0].protocol, r) + involvement_branches(bs.subrange(1, bs.len() as int), r)
    }
}

pub open spec fn involvement_list(ps: Seq<Protocol>, r: RoleView) -> nat
    decreases ps,
{
    if ps.len() == 0 {
        0
    } else {
        involvement(ps[0], r) + involvement_list(ps.subrange(1, ps.len() as int), r)
    }
}

/// A count held in a `usize`: the count, or `usize::MAX` where it is larger.
pub open spec fn capped(n: nat) -> usize {
    if n > usize::MAX {
        usize::MAX
    } else {
        n as usize
    }
}

/// Whether some run of the protocol reaches `End`: a choice needs one such
/// branch, a parallel composition needs all its children to have one, a loop
/// needs a condition that can stop it, and a jump back never ends.
pub open spec fn has_end_path(p: Protocol) -> bool
    decreases p,
{
    match p {
        Protocol::Send { continuation, .. } => has_end_path(*continuation),
        Protocol::Broadcast { continuation, .. } => has_end_path(*continuation),
        Protocol::Choice { branches, .. } => exists|i: int|
            0 <= i < branches.len() && has_end_path(#[trigger] branches@[i].protocol),
        Protocol::Loop { condition, body } => condition is Some && has_end_path(*body),
        Protocol::Parallel { protocols } => forall|i: int|
            0 <= i < protocols.len() ==> has_end_path(#[trigger] protocols@[i]),
        Protocol::Rec { body, .. } => has_end_path(*body),
        Protocol::Var(_) => false,
        Protocol::End => true,
    }
}

/// Counts, capped at `usize::MAX`, the communications and decisions of `p`
/// in which `r` takes part.
pub fn count_involvement(p: &Protocol, r: &Role) -> (n: usize)
    ensures
        n == capped(involvement(*p, r@)),
    decreases p,
{
    match p {
        Protocol::Send { from, to, continuation, .. } => {
            let here: usize = if from.same_as(r) || to.same_as(r) { 1 } else { 0 };
            here.saturating_add(count_involvement(continuation, r))
        },
        Protocol::Broadcast { from, to_all, continuation, .. } => {
            let here: usize = if from.same_as(r) || contains_role(to_all.as_slice(), r) {
                1
            } else {
                0
            };
            here.saturating_add(count_involvement(continuation, r))
        },
        Protocol::Choice { role, branches } => {
            let mut acc: usize = if role.same_as(r) { 1 } else { 0 };
            let ghost mut total: nat = if role@ == r@ { 1 } else { 0 };
            proof {
                assert(branches@.subrange(0, branches@.len() as int) =~= branches@);
            }
            let mut i: usize = 0;
            while i < branches.len()
                invariant
                    0 <= i <= branches.len(),
                    *p == (Protocol::Choice { role: *role, branches: *branches }),
                    involvement(*p, r@) == total + involvement_branches(
                        branches@.subrange(i as int, branches@.len() as int),
                        r@,
                    ),
                    acc == capped(total),
                decreases branches.len() - i,
            {
                proof {
                    lemma_branch_decreases(*p, i as int);
                    let t = branches@.subrange(i as int, branches@.len() as int);
                    assert(t[0] == branches@[i as int]);
                    assert(t.subrange(1, t.len() as int) =~= branches@.subrange(
                        i + 1,
                        branches@.len() as int,
                    ));
                }
                let c = count_involvement(&branches[i].protocol, r);
                acc = acc.saturating_add(c);
                proof {
                    total = total + involvement(branches@[i as int].protocol, r@);
                }
                i = i + 1;
            }
            acc
        },
        Protocol::Loop { body, .. } => count_involvement(body, r),
        Protocol::Parallel { protocols } => {
            let mut acc: usize = 0;
            let ghost mut total: nat = 0;
            proof {
                assert(protocols@.subrange(0, protocols@.len() as int) =~= protocols@);
            }
            let mut i: usize = 0;
            while i < protocols.len()
                invariant
                    0 <= i <= protocols.len(),
                    *p == (Protocol::Parallel { protocols: *protocols }),
                    involvement(*p, r@) == total + involvement_list(
                        protocols@.subrange(i as int, protocols@.len() as int),
                        r@,
                    ),
                    acc == capped(total),
                decreases protocols.len() - i,
            {
                proof {
                    lemma_child_decreases(*p, i as int);
                    let t = protocols@.subrange(i as int, protocols@.len() as int);
                    assert(t[0] == protocols@[i as int]);
                    assert(t.subrange(1, t.len() as int) =~= protocols@.subrange(
                        i + 1,
                        protocols@.len() as int,
                    ));
                }
                let c = count_involvement(&protocols[i], r);
                acc = acc.saturating_add(c);
                proof {
                    total = total + involvement(protocols@[i as int], r@);
                }
                i = i + 1;
            }
            acc
        },
        Protocol::Rec { body, .. } => count_involvement(body, r),
        Protocol::Var(_) => 0,
        Protocol::End => 0,
    }
}

/// Whether some run of `p` reaches `End`; see `has_end_path`.
pub fn can_terminate(p: &Protocol) -> (b: bool)
    ensures
        b == has_end_path(*p),
    decreases p,
{
    match p {
        Protocol::Send { continuation, .. } => can_terminate(continuation),
        Protocol::Broadcast { continuation, .. } => can_terminate(continuation),
        Protocol::Choice { branches, .. } => {
            let mut i: usize = 0;
            while i < branches.len()
                invariant
                    0 <= i <= branches.len(),
                    p is Choice && p->branches == *branches,
                    forall|j: int| 0 <= j < i ==> !has_end_path(#[trigger] branches@[j].protocol),
                decreases branches.len() - i,
            {
                proof {
                    lemma_branch_decreases(*p, i as int);
                }
                if can_terminate(&branches[i].protocol) {
                    assert(has_end_path(branches@[i as int].protocol));
                    return true;
                }
                i = i + 1;
            }
            false
        },
        Protocol::Loop { condition, body } => condition.is_some() && can_terminate(body),
        Protocol::Parallel { protocols } => {
            let mut i: usize = 0;
            while i < protocols.len()
                invariant
                    0 <= i <= protocols.len(),
                    p is Parallel && p->protocols == *protocols,
                    forall|j: int| 0 <= j < i ==> has_end_path(#[trigger] protocols@[j]),
                decreases protocols.len() - i,
            {
                proof {
                    lemma_child_decreases(*p, i as int);
                }
                if !can_terminate(&protocols[i]) {
                    assert(!has_end_path(protocols@[i as int]));
                    return false;
                }
                i = i + 1;
            }
            true
        },
        Protocol::Rec { body, .. } => can_terminate(body),
        Protocol::Var(_) => false,
        Protocol::End => true,
    }
}

/// The advisory results of `analyze`.
#[derive(Debug)]
pub struct AnalysisResult {
    /// Each declared role, in order, with its involvement count.
    pub role_participation: Vec<(Role, usize)>,
    /// Every declared role takes part in some communication or decision.
    pub has_progress: bool,
    /// Some run of the protocol terminates.
    pub is_deadlock_free: bool,
}

/// Analyses a choreography; projection does not depend on the outcome.
pub fn analyze(c: &Choreography) -> (res: AnalysisResult)
    ensures
        res.role_participation.len() == c.roles.len(),
        forall|i: int|
            0 <= i < c.roles.len() ==> (#[trigger] res.role_participation@[i]).0 == c.roles@[i]
                && res.role_participation@[i].1 == capped(involvement(c.protocol, c.roles@[i]@)),
        res.has_progress == (forall|i: int|
            0 <= i < c.roles.len() ==> involvement(c.protocol, (#[trigger] c.roles@[i])@) > 0),
        res.is_deadlock_free == has_end_path(c.protocol),
{
    let mut parts: Vec<(Role, usize)> = Vec::new();
    let mut progress = true;
    let mut i: usize = 0;
    while i < c.roles.len()
        invariant
            0 <= i <= c.roles.len(),
            parts.len() == i,
            forall|j: int|
                0 <= j < i ==> (#[trigger] parts@[j]).0 == c.roles@[j] && parts@[j].1 == capped(
                    involvement(c.protocol, c.roles@[j]@),
                ),
            progress == (forall|j: int| 0 <= j < i ==> involvement(c.protocol, (#[trigger] c.roles@[j])@) > 0),
        decreases c.roles.len() - i,
    {
        let n = count_involvement(&c.protocol, &c.roles[i]);
        proof {
            if n == 0 {
                assert(involvement(c.protocol, c.roles@[i as int]@) == 0);
            } else {
                assert(involvement(c.protocol, c.roles@[i as int]@) > 0);
            }
        }
        progress = progress && n > 0;
        parts.push((c.roles[i].copy(), n));
        i = i + 1;
    }
    AnalysisResult {
        role_participation: parts,
        has_progress: progress,
        is_deadlock_free: can_terminate(&c.protocol),
    }
}

} // verus!
