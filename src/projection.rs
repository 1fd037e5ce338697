//! Endpoint projection: from a global protocol to the local type of one role.

use vstd::prelude::*;
use crate::choreography::Choreography;
use crate::local_type::{LocalType, LocalSpec, cond_view, arms_view, lemma_arms_view, local_type_eq};
use crate::message::MessageType;
use crate::protocol::{Protocol, Branch, lemma_branch_decreases, lemma_child_decreases};
use crate::role::{Role, RoleView, role_in};

verus! {

/// Why a protocol has no projection onto a role.
#[derive(Debug, PartialEq, Eq)]
pub enum ProjectionError {
    /// The decider's branches do not all start with a send to one recipient.
    NonParticipantChoice,
    UnsupportedParallel(String),
    /// Two parallel children of the role start on the same peer in the same direction.
    InconsistentParallel,
    UnboundVariable(String),
    MergeFailure,
}

/// The nested sends that a broadcast of `m` to `ts` becomes at the sender,
/// in the order of `ts`, followed by `k`.
pub open spec fn send_chain(ts: Seq<Role>, m: Seq<char>, k: LocalSpec) -> LocalSpec
    decreases ts.len(),
{
    if ts.len() == 0 {
        k
    } else {
        LocalSpec::Send { to: ts[0]@, msg: m, cont: Box::new(send_chain(ts.subrange(1, ts.len() as int), m, k)) }
    }
}

/// Every branch starts with a send from the decider `d` (and there is one).
pub open spec fn communicated(bs: Seq<Branch>, d: RoleView) -> bool {
    &&& bs.len() > 0
    &&& forall|i: int|
        0 <= i < bs.len() ==> ((#[trigger] bs[i]).protocol matches Protocol::Send { from, .. } && from@
            == d)
}

/// The recipient of a send.
pub open spec fn head_to(p: Protocol) -> RoleView {
    p->Send_to@
}

/// Every branch's head send goes to the recipient of the first one.
pub open spec fn same_recipient(bs: Seq<Branch>) -> bool {
    forall|i: int| 0 <= i < bs.len() ==> head_to((#[trigger] bs[i]).protocol) == head_to(bs[0].protocol)
}

/// Some branch starts with a send from `d` to `r`.
pub open spec fn receives_choice(bs: Seq<Branch>, d: RoleView, r: RoleView) -> bool {
    exists|i: int|
        0 <= i < bs.len() && ((#[trigger] bs[i]).protocol matches Protocol::Send { from, to, .. }
            && from@ == d && to@ == r)
}

/// What a branch contributes to a projection: the whole branch, or, where the
/// head send is absorbed by a `Select`, its continuation.
pub open spec fn arm_body(p: Protocol, strip: bool) -> Protocol {
    if strip && p is Send {
        *p->Send_continuation
    } else {
        p
    }
}

/// The first non-`End` projection among the arms, or `End`.
pub open spec fn first_non_end(arms: Seq<(Seq<char>, LocalSpec)>) -> LocalSpec
    decreases arms.len(),
{
    if arms.len() == 0 {
        LocalSpec::End
    } else if arms[0].1 != LocalSpec::End {
        arms[0].1
    } else {
        first_non_end(arms.subrange(1, arms.len() as int))
    }
}

/// Merge of a bystander's branch projections: the common projection when all
/// are equal, else the first one that is not `End`.
pub open spec fn merge_arms(arms: Seq<(Seq<char>, LocalSpec)>) -> LocalSpec {
    if arms.len() == 0 {
        LocalSpec::End
    } else if forall|i: int| 0 <= i < arms.len() ==> (#[trigger] arms[i]).1 == arms[0].1 {
        arms[0].1
    } else {
        first_non_end(arms)
    }
}

/// The peer that a local type first sends to (by `Send` or `Select`).
pub open spec fn send_peer(l: LocalSpec) -> Option<RoleView> {
    match l {
        LocalSpec::Send { to, .. } => Some(to),
        LocalSpec::Select { to, .. } => Some(to),
        _ => None,
    }
}

/// The peer that a local type first receives from (by `Receive` or `Branch`).
pub open spec fn recv_peer(l: LocalSpec) -> Option<RoleView> {
    match l {
        LocalSpec::Receive { from, .. } => Some(from),
        LocalSpec::Branch { from, .. } => Some(from),
        _ => None,
    }
}

/// Two of the parallel projections start by sending to the same peer, or by
/// receiving from the same peer.
pub open spec fn parallel_conflict(s: Seq<LocalSpec>) -> bool {
    exists|i: int, j: int| 0 <= i < j < s.len() && #[trigger] pair_conflict(s[i], s[j])
}

/// Two projections start on the same peer in the same direction.
pub open spec fn pair_conflict(a: LocalSpec, b: LocalSpec) -> bool {
    ||| send_peer(a) is Some && send_peer(a) == send_peer(b)
    ||| recv_peer(a) is Some && recv_peer(a) == recv_peer(b)
}

/// The projections that are not `End`, in order.
pub open spec fn survivors(s: Seq<LocalSpec>) -> Seq<LocalSpec>
    decreases s.len(),
{
    if s.len() == 0 {
        Seq::empty()
    } else if s[s.len() - 1] == LocalSpec::End {
        survivors(s.subrange(0, s.len() - 1))
    } else {
        survivors(s.subrange(0, s.len() - 1)).push(s[s.len() - 1])
    }
}

/// `c` appended at the tail of `l`: every `End` reached through sends and
/// receives is replaced by `c`; any other constructor keeps its own tail.
pub open spec fn append(l: LocalSpec, c: LocalSpec) -> LocalSpec
    decreases l,
{
    match l {
        LocalSpec::Send { to, msg, cont } => LocalSpec::Send { to, msg, cont: Box::new(append(*cont, c)) },
        LocalSpec::Receive { from, msg, cont } => LocalSpec::Receive {
            from,
            msg,
            cont: Box::new(append(*cont, c)),
        },
        LocalSpec::End => c,
        _ => l,
    }
}

/// Sequential composition of two projections.
pub open spec fn seq_merge(a: LocalSpec, b: LocalSpec) -> LocalSpec {
    if a == LocalSpec::End {
        b
    } else if b == LocalSpec::End {
        a
    } else {
        append(a, b)
    }
}

/// Right-to-left interleaving of parallel projections.
pub open spec fn interleave(s: Seq<LocalSpec>) -> LocalSpec
    decreases s.len(),
{
    if s.len() == 0 {
        LocalSpec::End
    } else {
        seq_merge(s[0], interleave(s.subrange(1, s.len() as int)))
    }
}

/// Projection of a parallel composition from its children's projections.
pub open spec fn combine_parallel(ps: Seq<LocalSpec>) -> Result<LocalSpec, ProjectionError> {
    let s = survivors(ps);
    if s.len() == 0 {
        Ok(LocalSpec::End)
    } else if s.len() == 1 {
        Ok(s[0])
    } else if parallel_conflict(s) {
        Err(ProjectionError::InconsistentParallel)
    } else {
        Ok(interleave(s))
    }
}

/// `End` where the role has nothing to do, else `wrap` applied.
pub open spec fn elide_end(b: LocalSpec, wrapped: LocalSpec) -> LocalSpec {
    if b == LocalSpec::End {
        LocalSpec::End
    } else {
        wrapped
    }
}

/// The local type of role `r` in protocol `p`.
pub open spec fn proj(p: Protocol, r: RoleView) -> Result<LocalSpec, ProjectionError>
    decreases p,
{
    match p {
        Protocol::Send { from, to, message, continuation } => {
            match proj(*continuation, r) {
                Err(e) => Err(e),
                Ok(k) => if from@ == r {
                    Ok(LocalSpec::Send { to: to@, msg: message.name@, cont: Box::new(k) })
                } else if to@ == r {
                    Ok(LocalSpec::Receive { from: from@, msg: message.name@, cont: Box::new(k) })
                } else {
                    Ok(k)
                },
            }
        },
        Protocol::Broadcast { from, to_all, message, continuation } => {
            match proj(*continuation, r) {
                Err(e) => Err(e),
                Ok(k) => if from@ == r {
                    Ok(send_chain(to_all@, message.name@, k))
                } else if role_in(to_all@, r) {
                    Ok(LocalSpec::Receive { from: from@, msg: message.name@, cont: Box::new(k) })
                } else {
                    Ok(k)
                },
            }
        },
        Protocol::Choice { role, branches } => {
            if role@ == r && communicated(branches@, r) {
                if !same_recipient(branches@) {
                    Err(ProjectionError::NonParticipantChoice)
                } else {
                    match proj_arms(branches@, r, true) {
                        Err(e) => Err(e),
                        Ok(arms) => Ok(LocalSpec::Select { to: head_to(branches@[0].protocol), arms }),
                    }
                }
            } else {
                match proj_arms(branches@, r, false) {
                    Err(e) => Err(e),
                    Ok(arms) => if role@ == r {
                        Ok(LocalSpec::LocalChoice { arms })
                    } else if receives_choice(branches@, role@, r) {
                        Ok(LocalSpec::Branch { from: role@, arms })
                    } else {
                        Ok(merge_arms(arms))
                    },
                }
            }
        },
        Protocol::Loop { condition, body } => match proj(*body, r) {
            Err(e) => Err(e),
            Ok(b) => Ok(elide_end(b, LocalSpec::Loop { cond: cond_view(condition), body: Box::new(b) })),
        },
        Protocol::Parallel { protocols } => match proj_list(protocols@, r) {
            Err(e) => Err(e),
            Ok(ps) => combine_parallel(ps),
        },
        Protocol::Rec { label, body } => match proj(*body, r) {
            Err(e) => Err(e),
            Ok(b) => Ok(elide_end(b, LocalSpec::Rec { label: label@, body: Box::new(b) })),
        },
        Protocol::Var(l) => Ok(LocalSpec::Var(l@)),
        Protocol::End => Ok(LocalSpec::End),
    }
}

/// The labelled projections of the branches, in order; the first failure wins.
pub open spec fn proj_arms(bs: Seq<Branch>, r: RoleView, strip: bool) -> Result<Seq<(Seq<char>, LocalSpec)>, ProjectionError>
    decreases bs,
{
    if bs.len() == 0 {
        Ok(Seq::empty())
    } else {
        match proj(arm_body(bs[0].protocol, strip), r) {
            Err(e) => Err(e),
            Ok(l) => match proj_arms(bs.subrange(1, bs.len() as int), r, strip) {
                Err(e) => Err(e),
                Ok(rest) => Ok(seq![(bs[0].label@, l)] + rest),
            },
        }
    }
}

/// The projections of the children, in order; the first failure wins.
pub open spec fn proj_list(ps: Seq<Protocol>, r: RoleView) -> Result<Seq<LocalSpec>, ProjectionError>
    decreases ps,
{
    if ps.len() == 0 {
        Ok(Seq::empty())
    } else {
        match proj(ps[0], r) {
            Err(e) => Err(e),
            Ok(l) => match proj_list(ps.subrange(1, ps.len() as int), r) {
                Err(e) => Err(e),
                Ok(rest) => Ok(seq![l] + rest),
            },
        }
    }
}

/// The view of a projection's outcome.
pub open spec fn outcome(res: Result<LocalType, ProjectionError>) -> Result<LocalSpec, ProjectionError> {
    match res {
        Ok(l) => Ok(l@),
        Err(e) => Err(e),
    }
}

/// The views of a sequence of local types.
pub open spec fn views(s: Seq<LocalType>) -> Seq<LocalSpec> {
    s.map_values(|l: LocalType| l@)
}

/// A failure, or `pre` followed by what succeeded.
pub open spec fn prefixed<A>(pre: Seq<A>, res: Result<Seq<A>, ProjectionError>) -> Result<Seq<A>, ProjectionError> {
    match res {
        Err(e) => Err(e),
        Ok(rest) => Ok(pre + rest),
    }
}

/// What a branch contributes to a projection is smaller than the choice.
proof fn lemma_arm_body_decreases(parent: Protocol, i: int, strip: bool)
    requires
        parent is Choice,
        0 <= i < parent->branches.len(),
    ensures
        decreases_to!(parent => arm_body(parent->branches@[i].protocol, strip)),
{
    lemma_branch_decreases(parent, i);
    let q = parent->branches@[i].protocol;
    if strip && q is Send {
        assert(decreases_to!(q => *q->Send_continuation));
    }
}

fn is_end(l: &LocalType) -> (b: bool)
    ensures
        b == (l@ == LocalSpec::End),
{
    match l {
        LocalType::End => true,
        _ => false,
    }
}

/// The nested sends of a broadcast at its sender, built back to front.
fn broadcast_sends(to_all: &Vec<Role>, message: &MessageType, k: LocalType) -> (r: LocalType)
    ensures
        r@ == send_chain(to_all@, message.name@, k@),
{
    let ghost kv = k@;
    let mut current = k;
    let mut j: usize = to_all.len();
    while j > 0
        invariant
            j <= to_all.len(),
            current@ == send_chain(to_all@.subrange(j as int, to_all@.len() as int), message.name@, kv),
        decreases j,
    {
        j = j - 1;
        proof {
            let s = to_all@.subrange(j as int, to_all@.len() as int);
            assert(s.subrange(1, s.len() as int) =~= to_all@.subrange(j + 1, to_all@.len() as int));
            assert(s[0] == to_all@[j as int]);
        }
        current = LocalType::Send {
            to: to_all[j].copy(),
            message: message.copy(),
            continuation: Box::new(current),
        };
    }
    proof {
        assert(to_all@.subrange(0, to_all@.len() as int) =~= to_all@);
    }
    current
}

/// Appends `c` at the tail of `l`; see `append`.
pub fn append_continuation(l: LocalType, c: LocalType) -> (r: LocalType)
    ensures
        r@ == append(l@, c@),
    decreases l,
{
    match l {
        LocalType::Send { to, message, continuation } => LocalType::Send {
            to,
            message,
            continuation: Box::new(append_continuation(*continuation, c)),
        },
        LocalType::Receive { from, message, continuation } => LocalType::Receive {
            from,
            message,
            continuation: Box::new(append_continuation(*continuation, c)),
        },
        LocalType::End => c,
        other => other,
    }
}

/// Sequential composition; see `seq_merge`.
pub fn sequential_merge(a: LocalType, b: LocalType) -> (r: LocalType)
    ensures
        r@ == seq_merge(a@, b@),
{
    if is_end(&a) {
        b
    } else if is_end(&b) {
        a
    } else {
        append_continuation(a, b)
    }
}

fn send_peer_of(l: &LocalType) -> (r: Option<&Role>)
    ensures
        match r {
            Some(p) => send_peer(l@) == Some(p@),
            None => send_peer(l@) is None,
        },
{
    match l {
        LocalType::Send { to, .. } => Some(to),
        LocalType::Select { to, .. } => Some(to),
        _ => None,
    }
}

fn recv_peer_of(l: &LocalType) -> (r: Option<&Role>)
    ensures
        match r {
            Some(p) => recv_peer(l@) == Some(p@),
            None => recv_peer(l@) is None,
        },
{
    match l {
        LocalType::Receive { from, .. } => Some(from),
        LocalType::Branch { from, .. } => Some(from),
        _ => None,
    }
}

fn same_peer(a: Option<&Role>, b: Option<&Role>) -> (r: bool)
    ensures
        r == (a is Some && b is Some && a->0@ == b->0@),
{
    match (a, b) {
        (Some(x), Some(y)) => x.same_as(y),
        _ => false,
    }
}

/// Whether two of the projections start on the same peer in the same direction.
pub fn check_parallel_conflicts(s: &Vec<LocalType>) -> (b: bool)
    ensures
        b == parallel_conflict(views(s@)),
{
    let ghost v = views(s@);
    let n = s.len();
    let mut i: usize = 0;
    while i < n
        invariant
            n == s.len(),
            v == views(s@),
            v.len() == n,
            0 <= i <= n,
            forall|a: int, b: int| 0 <= a < i && a < b < n ==> !#[trigger] pair_conflict(v[a], v[b]),
        decreases n - i,
    {
        let mut j: usize = i + 1;
        while j < n
            invariant
                n == s.len(),
                v == views(s@),
                v.len() == n,
                0 <= i < n,
                i + 1 <= j <= n,
                forall|a: int, b: int| 0 <= a < i && a < b < n ==> !#[trigger] pair_conflict(v[a], v[b]),
                forall|b: int| i < b < j ==> !#[trigger] pair_conflict(v[i as int], v[b]),
            decreases n - j,
        {
            let sends = same_peer(send_peer_of(&s[i]), send_peer_of(&s[j]));
            let recvs = same_peer(recv_peer_of(&s[i]), recv_peer_of(&s[j]));
            if sends || recvs {
                assert(pair_conflict(v[i as int], v[j as int]));
                return true;
            }
            j = j + 1;
        }
        i = i + 1;
    }
    false
}

/// The projection of a parallel composition from its children's projections.
fn merge_parallel(ps: Vec<LocalType>) -> (r: Result<LocalType, ProjectionError>)
    ensures
        outcome(r) == combine_parallel(views(ps@)),
{
    let ghost all = views(ps@);
    let mut rest = ps;
    let mut surv: Vec<LocalType> = Vec::new();
    let ghost mut i: int = 0;
    proof {
        assert(all.subrange(0, 0) =~= Seq::<LocalSpec>::empty());
        assert(views(surv@) =~= Seq::<LocalSpec>::empty());
        assert(views(rest@) =~= all.subrange(0, all.len() as int));
    }
    while rest.len() > 0
        invariant
            0 <= i <= all.len(),
            views(rest@) == all.subrange(i, all.len() as int),
            views(surv@) == survivors(all.subrange(0, i)),
        decreases rest.len(),
    {
        let ghost before = surv@;
        let ghost old_rest = rest@;
        proof {
            assert(views(rest@).len() == rest@.len());
            assert(views(rest@)[0] == rest@[0]@);
            assert(all.subrange(i, all.len() as int)[0] == all[i]);
        }
        let x = rest.remove(0);
        proof {
            assert(x@ == all[i]);
            assert(all.subrange(0, i + 1).subrange(0, i) =~= all.subrange(0, i));
        }
        if !is_end(&x) {
            surv.push(x);
            proof {
                assert(views(surv@) =~= views(before).push(all[i]));
            }
        }
        proof {
            assert forall|j: int| 0 <= j < rest@.len() implies views(rest@)[j] == all[i + 1 + j] by {
                assert(rest@[j] == old_rest[j + 1]);
                assert(views(old_rest)[j + 1] == old_rest[j + 1]@);
                assert(all.subrange(i, all.len() as int)[j + 1] == all[i + 1 + j]);
            }
            assert(views(rest@) =~= all.subrange(i + 1, all.len() as int));
            i = i + 1;
        }
    }
    proof {
        assert(all.subrange(0, i) =~= all);
    }
    let ghost sv = views(surv@);
    if surv.len() == 0 {
        return Ok(LocalType::End);
    }
    if surv.len() == 1 {
        let only = surv.remove(0);
        return Ok(only);
    }
    if check_parallel_conflicts(&surv) {
        return Err(ProjectionError::InconsistentParallel);
    }
    let n = surv.len();
    let mut merged = LocalType::End;
    proof {
        assert(sv.subrange(n as int, n as int) =~= Seq::<LocalSpec>::empty());
    }
    while surv.len() > 0
        invariant
            surv.len() <= n,
            n == sv.len(),
            views(surv@) == sv.subrange(0, surv.len() as int),
            merged@ == interleave(sv.subrange(surv.len() as int, n as int)),
        decreases surv.len(),
    {
        let ghost k = surv.len() as int;
        proof {
            assert(views(surv@)[k - 1] == surv@[k - 1]@);
            assert(sv.subrange(0, k)[k - 1] == sv[k - 1]);
        }
        match surv.pop() {
            Some(x) => {
                proof {
                    assert(x@ == sv[k - 1]);
                    let t = sv.subrange(k - 1, n as int);
                    assert(t.subrange(1, t.len() as int) =~= sv.subrange(k, n as int));
                    assert(t[0] == sv[k - 1]);
                    assert(views(surv@) =~= sv.subrange(0, k - 1));
                }
                merged = sequential_merge(x, merged);
            },
            None => {},
        }
    }
    proof {
        assert(sv.subrange(0, n as int) =~= sv);
    }
    Ok(merged)
}

/// Whether every branch starts with a send from `d` (and there is one).
fn is_communicated(bs: &Vec<Branch>, d: &Role) -> (b: bool)
    ensures
        b == communicated(bs@, d@),
{
    if bs.len() == 0 {
        return false;
    }
    let mut i: usize = 0;
    while i < bs.len()
        invariant
            0 <= i <= bs.len(),
            forall|j: int|
                0 <= j < i ==> ((#[trigger] bs@[j]).protocol matches Protocol::Send { from, .. }
                    && from@ == d@),
        decreases bs.len() - i,
    {
        let ok = match &bs[i].protocol {
            Protocol::Send { from, .. } => from.same_as(d),
            _ => false,
        };
        if !ok {
            return false;
        }
        i = i + 1;
    }
    true
}

/// The recipient of a send, copied.
fn head_recipient(p: &Protocol) -> (r: Role)
    requires
        p is Send,
    ensures
        r@ == head_to(*p),
{
    match p {
        Protocol::Send { to, .. } => to.copy(),
        _ => {
            proof {
                assert(false);
            }
            Role::new(String::new())
        },
    }
}

/// Whether every branch's head send goes to the first branch's recipient.
fn has_same_recipient(bs: &Vec<Branch>) -> (b: bool)
    requires
        communicated(bs@, bs@[0].protocol->Send_from@),
    ensures
        b == same_recipient(bs@),
{
    let first = head_recipient(&bs[0].protocol);
    let mut i: usize = 0;
    while i < bs.len()
        invariant
            0 <= i <= bs.len(),
            bs.len() > 0,
            first@ == head_to(bs@[0].protocol),
            communicated(bs@, bs@[0].protocol->Send_from@),
            forall|j: int| 0 <= j < i ==> head_to((#[trigger] bs@[j]).protocol) == head_to(bs@[0].protocol),
        decreases bs.len() - i,
    {
        assert(bs@[i as int].protocol is Send);
        let t = head_recipient(&bs[i].protocol);
        if !t.same_as(&first) {
            return false;
        }
        i = i + 1;
    }
    true
}

/// Whether some branch starts with a send from `d` to `r`.
fn is_choice_receiver(bs: &Vec<Branch>, d: &Role, r: &Role) -> (b: bool)
    ensures
        b == receives_choice(bs@, d@, r@),
{
    let mut i: usize = 0;
    while i < bs.len()
        invariant
            0 <= i <= bs.len(),
            forall|j: int|
                0 <= j < i ==> !((#[trigger] bs@[j]).protocol matches Protocol::Send { from, to, .. }
                    && from@ == d@ && to@ == r@),
        decreases bs.len() - i,
    {
        let hit = match &bs[i].protocol {
            Protocol::Send { from, to, .. } => from.same_as(d) && to.same_as(r),
            _ => false,
        };
        if hit {
            return true;
        }
        i = i + 1;
    }
    false
}

/// A bystander's merge of its branch projections; see `merge_arms`.
fn merge_choice_continuations(arms: Vec<(String, LocalType)>) -> (r: LocalType)
    ensures
        r@ == merge_arms(arms_view(arms@)),
{
    let ghost av = arms_view(arms@);
    proof {
        lemma_arms_view(arms@);
    }
    let mut rest = arms;
    if rest.len() == 0 {
        return LocalType::End;
    }
    let mut all_same = true;
    let mut i: usize = 0;
    while i < rest.len()
        invariant
            0 <= i <= rest.len(),
            rest.len() > 0,
            av == arms_view(rest@),
            av.len() == rest.len(),
            forall|j: int| 0 <= j < rest.len() ==> #[trigger] av[j] == (rest@[j].0@, rest@[j].1@),
            all_same == (forall|j: int| 0 <= j < i ==> (#[trigger] av[j]).1 == av[0].1),
        decreases rest.len() - i,
    {
        let same = local_type_eq(&rest[i].1, &rest[0].1);
        proof {
            assert(av[i as int].1 == rest@[i as int].1@);
            assert(av[0].1 == rest@[0].1@);
            if !same {
                assert(av[i as int].1 != av[0].1);
            }
        }
        all_same = all_same && same;
        i = i + 1;
    }
    if all_same {
        let (_, first) = rest.remove(0);
        return first;
    }
    proof {
        assert(av.subrange(0, av.len() as int) =~= av);
    }
    let mut k: usize = 0;
    while k < rest.len()
        invariant
            0 <= k <= rest.len(),
            av == arms_view(rest@),
            av == arms_view(arms@),
            av.len() == rest.len(),
            forall|j: int| 0 <= j < rest.len() ==> #[trigger] av[j] == (rest@[j].0@, rest@[j].1@),
            !(forall|j: int| 0 <= j < av.len() ==> (#[trigger] av[j]).1 == av[0].1),
            first_non_end(av) == first_non_end(av.subrange(k as int, av.len() as int)),
        decreases rest.len() - k,
    {
        proof {
            let t = av.subrange(k as int, av.len() as int);
            assert(t[0] == av[k as int]);
            assert(t.subrange(1, t.len() as int) =~= av.subrange(k + 1, av.len() as int));
        }
        if !is_end(&rest[k].1) {
            proof {
                assert(av[k as int].1 == rest@[k as int].1@);
                assert(av[k as int].1 != LocalSpec::End);
                assert(first_non_end(av.subrange(k as int, av.len() as int)) == av[k as int].1);
                assert(merge_arms(av) == first_non_end(av));
            }
            let ghost before = rest@;
            let (_, found) = rest.remove(k);
            assert(found == before[k as int].1);
            assert(found@ == av[k as int].1);
            assert(merge_arms(av) == av[k as int].1);
            return found;
        }
        k = k + 1;
    }
    LocalType::End
}

/// Projects the bodies of the branches in order, labelled; the first failure wins.
fn project_arms(parent: &Protocol, bs: &Vec<Branch>, r: &Role, strip: bool) -> (res: Result<Vec<(String, LocalType)>, ProjectionError>)
    requires
        parent is Choice,
        *bs == parent->branches,
    ensures
        match res {
            Ok(v) => proj_arms(bs@, r@, strip) == Ok::<_, ProjectionError>(arms_view(v@)),
            Err(e) => proj_arms(bs@, r@, strip) == Err::<Seq<(Seq<char>, LocalSpec)>, _>(e),
        },
    decreases parent, 0nat,
{
    let mut out: Vec<(String, LocalType)> = Vec::new();
    proof {
        assert(bs@.subrange(0, bs@.len() as int) =~= bs@);
        assert(arms_view(out@) =~= Seq::<(Seq<char>, LocalSpec)>::empty());
        match proj_arms(bs@, r@, strip) {
            Ok(rest) => assert(Seq::<(Seq<char>, LocalSpec)>::empty() + rest =~= rest),
            Err(_) => {},
        }
    }
    let mut i: usize = 0;
    while i < bs.len()
        invariant
            0 <= i <= bs.len(),
            parent is Choice,
            *bs == parent->branches,
            proj_arms(bs@, r@, strip) == prefixed(
                arms_view(out@),
                proj_arms(bs@.subrange(i as int, bs@.len() as int), r@, strip),
            ),
        decreases bs.len() - i,
    {
        let ghost t = bs@.subrange(i as int, bs@.len() as int);
        let ghost pre = arms_view(out@);
        proof {
            lemma_arm_body_decreases(*parent, i as int, strip);
            assert(t[0] == bs@[i as int]);
            assert(t.subrange(1, t.len() as int) =~= bs@.subrange(i + 1, bs@.len() as int));
        }
        let body: &Protocol = if strip {
            match &bs[i].protocol {
                Protocol::Send { continuation, .. } => continuation,
                other => other,
            }
        } else {
            &bs[i].protocol
        };
        assert(*body == arm_body(bs@[i as int].protocol, strip));
        match project_protocol(body, r) {
            Err(e) => {
                return Err(e);
            },
            Ok(l) => {
                let ghost lv = l@;
                let label = bs[i].label.clone();
                let ghost old_out = out@;
                out.push((label, l));
                proof {
                    let x = (bs@[i as int].label@, lv);
                    assert(out@.subrange(0, out@.len() - 1) =~= old_out);
                    assert(out@[out@.len() - 1].0@ == x.0);
                    assert(arms_view(out@) == pre.push(x));
                    match proj_arms(bs@.subrange(i + 1, bs@.len() as int), r@, strip) {
                        Ok(rest) => {
                            assert(pre + (seq![x] + rest) =~= pre.push(x) + rest);
                        },
                        Err(_) => {},
                    }
                }
            },
        }
        i = i + 1;
    }
    proof {
        assert(bs@.subrange(i as int, bs@.len() as int).len() == 0);
        assert(arms_view(out@) + Seq::<(Seq<char>, LocalSpec)>::empty() =~= arms_view(out@));
    }
    Ok(out)
}

/// Projects the children of a parallel composition in order; the first failure wins.
fn project_list(parent: &Protocol, ps: &Vec<Protocol>, r: &Role) -> (res: Result<Vec<LocalType>, ProjectionError>)
    requires
        parent is Parallel,
        *ps == parent->protocols,
    ensures
        match res {
            Ok(v) => proj_list(ps@, r@) == Ok::<_, ProjectionError>(views(v@)),
            Err(e) => proj_list(ps@, r@) == Err::<Seq<LocalSpec>, _>(e),
        },
    decreases parent, 0nat,
{
    let mut out: Vec<LocalType> = Vec::new();
    proof {
        assert(ps@.subrange(0, ps@.len() as int) =~= ps@);
        assert(views(out@) =~= Seq::<LocalSpec>::empty());
        match proj_list(ps@, r@) {
            Ok(rest) => assert(Seq::<LocalSpec>::empty() + rest =~= rest),
            Err(_) => {},
        }
    }
    let mut i: usize = 0;
    while i < ps.len()
        invariant
            0 <= i <= ps.len(),
            parent is Parallel,
            *ps == parent->protocols,
            proj_list(ps@, r@) == prefixed(views(out@), proj_list(ps@.subrange(i as int, ps@.len() as int), r@)),
        decreases ps.len() - i,
    {
        let ghost t = ps@.subrange(i as int, ps@.len() as int);
        let ghost pre = views(out@);
        proof {
            lemma_child_decreases(*parent, i as int);
            assert(t[0] == ps@[i as int]);
            assert(t.subrange(1, t.len() as int) =~= ps@.subrange(i + 1, ps@.len() as int));
        }
        match project_protocol(&ps[i], r) {
            Err(e) => {
                return Err(e);
            },
            Ok(l) => {
                let ghost lv = l@;
                out.push(l);
                proof {
                    assert(views(out@) =~= pre.push(lv));
                    match proj_list(ps@.subrange(i + 1, ps@.len() as int), r@) {
                        Ok(rest) => {
                            assert(pre + (seq![lv] + rest) =~= pre.push(lv) + rest);
                        },
                        Err(_) => {},
                    }
                }
            },
        }
        i = i + 1;
    }
    proof {
        assert(ps@.subrange(i as int, ps@.len() as int).len() == 0);
        assert(views(out@) + Seq::<LocalSpec>::empty() =~= views(out@));
    }
    Ok(out)
}

/// Projects `p` onto role `r`; see `proj`.
pub fn project_protocol(p: &Protocol, r: &Role) -> (res: Result<LocalType, ProjectionError>)
    ensures
        outcome(res) == proj(*p, r@),
    decreases p, 1nat,
{
    match p {
        Protocol::Send { from, to, message, continuation } => {
            let k = match project_protocol(continuation, r) {
                Ok(k) => k,
                Err(e) => {
                    return Err(e);
                },
            };
            if from.same_as(r) {
                Ok(LocalType::Send { to: to.copy(), message: message.copy(), continuation: Box::new(k) })
            } else if to.same_as(r) {
                Ok(LocalType::Receive { from: from.copy(), message: message.copy(), continuation: Box::new(k) })
            } else {
                Ok(k)
            }
        },
        Protocol::Broadcast { from, to_all, message, continuation } => {
            let k = match project_protocol(continuation, r) {
                Ok(k) => k,
                Err(e) => {
                    return Err(e);
                },
            };
            if from.same_as(r) {
                Ok(broadcast_sends(to_all, message, k))
            } else if crate::role::contains_role(to_all.as_slice(), r) {
                Ok(LocalType::Receive { from: from.copy(), message: message.copy(), continuation: Box::new(k) })
            } else {
                Ok(k)
            }
        },
        Protocol::Choice { role, branches } => {
            if role.same_as(r) && is_communicated(branches, role) {
                if !has_same_recipient(branches) {
                    return Err(ProjectionError::NonParticipantChoice);
                }
                let to = head_recipient(&branches[0].protocol);
                match project_arms(p, branches, r, true) {
                    Err(e) => Err(e),
                    Ok(arms) => Ok(LocalType::Select { to, branches: arms }),
                }
            } else {
                match project_arms(p, branches, r, false) {
                    Err(e) => Err(e),
                    Ok(arms) => {
                        if role.same_as(r) {
                            Ok(LocalType::LocalChoice { branches: arms })
                        } else if is_choice_receiver(branches, role, r) {
                            Ok(LocalType::Branch { from: role.copy(), branches: arms })
                        } else {
                            Ok(merge_choice_continuations(arms))
                        }
                    },
                }
            }
        },
        Protocol::Loop { condition, body } => {
            let b = match project_protocol(body, r) {
                Ok(b) => b,
                Err(e) => {
                    return Err(e);
                },
            };
            if is_end(&b) {
                Ok(LocalType::End)
            } else {
                let c = match condition {
                    Some(c) => Some(c.copy()),
                    None => None,
                };
                Ok(LocalType::Loop { condition: c, body: Box::new(b) })
            }
        },
        Protocol::Parallel { protocols } => {
            match project_list(p, protocols, r) {
                Err(e) => Err(e),
                Ok(ps) => merge_parallel(ps),
            }
        },
        Protocol::Rec { label, body } => {
            let b = match project_protocol(body, r) {
                Ok(b) => b,
                Err(e) => {
                    return Err(e);
                },
            };
            if is_end(&b) {
                Ok(LocalType::End)
            } else {
                Ok(LocalType::Rec { label: label.clone(), body: Box::new(b) })
            }
        },
        Protocol::Var(l) => Ok(LocalType::Var(l.clone())),
        Protocol::End => Ok(LocalType::End),
    }
}

/// Projects a choreography's protocol onto one role.
pub fn project(choreography: &Choreography, role: &Role) -> (res: Result<LocalType, ProjectionError>)
    ensures
        outcome(res) == proj(choreography.protocol, role@),
{
    project_protocol(&choreography.protocol, role)
}

} // verus!
