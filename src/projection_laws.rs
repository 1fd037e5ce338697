//! What projection guarantees: no failure for unbound variables, determinism,
//! the shapes that sends and broadcasts take, nothing to do for roles a
//! protocol does not mention, operations kept by parallel merge, and
//! recursion scopes kept where the role takes part.

use vstd::prelude::*;
use crate::choreography::{Choreography, valid_result};
use crate::local_type::{LocalSpec, cond_view};
use crate::message::MessageType;
use crate::projection::{
    ProjectionError, proj, proj_arms, proj_list, arm_body, receives_choice, first_non_end, communicated,
    same_recipient, head_to,
    survivors, combine_parallel, parallel_conflict, interleave, append, send_chain,
};
use crate::protocol::{Protocol, Branch, mentions, lemma_branch_decreases, lemma_child_decreases};
use crate::role::{Role, RoleView, role_in, opt_text};

verus! {

/// The projection failed for want of a bound recursion variable.
pub open spec fn unbound_failure<A>(res: Result<A, ProjectionError>) -> bool {
    res matches Err(ProjectionError::UnboundVariable(_))
}

/// Projection never fails for want of a bound recursion variable.
pub proof fn lemma_proj_never_unbound(p: Protocol, r: RoleView)
    ensures
        !unbound_failure(proj(p, r)),
    decreases p,
{
    match p {
        Protocol::Send { continuation, .. } => lemma_proj_never_unbound(*continuation, r),
        Protocol::Broadcast { continuation, .. } => lemma_proj_never_unbound(*continuation, r),
        Protocol::Choice { branches, .. } => {
            lemma_arms_never_unbound(branches@, r, true);
            lemma_arms_never_unbound(branches@, r, false);
        },
        Protocol::Loop { body, .. } => lemma_proj_never_unbound(*body, r),
        Protocol::Parallel { protocols } => lemma_list_never_unbound(protocols@, r),
        Protocol::Rec { body, .. } => lemma_proj_never_unbound(*body, r),
        _ => {},
    }
}

proof fn lemma_arms_never_unbound(bs: Seq<Branch>, r: RoleView, strip: bool)
    ensures
        !unbound_failure(proj_arms(bs, r, strip)),
    decreases bs,
{
    if bs.len() > 0 {
        let q = bs[0].protocol;
        if strip && q is Send {
            assert(decreases_to!(bs => *q->Send_continuation)) by {
                assert(decreases_to!(bs => bs[0]));
                assert(decreases_to!(bs[0] => q));
                assert(decreases_to!(q => *q->Send_continuation));
            }
        }
        lemma_proj_never_unbound(arm_body(q, strip), r);
        lemma_arms_never_unbound(bs.subrange(1, bs.len() as int), r, strip);
    }
}

proof fn lemma_list_never_unbound(ps: Seq<Protocol>, r: RoleView)
    ensures
        !unbound_failure(proj_list(ps, r)),
    decreases ps,
{
    if ps.len() > 0 {
        lemma_proj_never_unbound(ps[0], r);
        lemma_list_never_unbound(ps.subrange(1, ps.len() as int), r);
    }
}

/// A choreography that validates projects onto each of its declared roles
/// without a failure for an unbound variable (and projection knows no
/// failure for an undeclared role).
pub proof fn lemma_valid_choreography_projects(c: Choreography, i: int)
    requires
        valid_result(c) is Ok,
        0 <= i < c.roles.len(),
    ensures
        !unbound_failure(proj(c.protocol, c.roles@[i]@)),
{
    lemma_proj_never_unbound(c.protocol, c.roles@[i]@);
}

/// Structural equality of messages: equal name, payload and annotation text.
pub open spec fn same_message(a: MessageType, b: MessageType) -> bool {
    &&& a.name@ == b.name@
    &&& opt_text(a.payload) == opt_text(b.payload)
    &&& opt_text(a.type_annotation) == opt_text(b.type_annotation)
}

/// Two role lists hold the same roles, by identity, in the same order.
pub open spec fn same_roles(a: Seq<Role>, b: Seq<Role>) -> bool {
    a.len() == b.len() && forall|i: int| 0 <= i < a.len() ==> (#[trigger] a[i])@ == b[i]@
}

/// Structural equality of global protocols: the constructor trees match node
/// for node, roles by identity and texts by value.
pub open spec fn same_protocol(p: Protocol, q: Protocol) -> bool
    decreases p,
{
    match p {
        Protocol::Send { from, to, message, continuation } => q matches Protocol::Send {
            from: f2,
            to: t2,
            message: m2,
            continuation: k2,
        } && from@ == f2@ && to@ == t2@ && same_message(message, m2) && same_protocol(*continuation, *k2),
        Protocol::Broadcast { from, to_all, message, continuation } => q matches Protocol::Broadcast {
            from: f2,
            to_all: t2,
            message: m2,
            continuation: k2,
        } && from@ == f2@ && same_roles(to_all@, t2@) && same_message(message, m2) && same_protocol(
            *continuation,
            *k2,
        ),
        Protocol::Choice { role, branches } => q matches Protocol::Choice { role: d2, branches: b2 } && role@
            == d2@ && branches.len() == b2.len() && forall|i: int|
            0 <= i < branches.len() ==> (#[trigger] branches@[i]).label@ == b2@[i].label@ && opt_text(
                branches@[i].guard,
            ) == opt_text(b2@[i].guard) && same_protocol(branches@[i].protocol, b2@[i].protocol),
        Protocol::Loop { condition, body } => q matches Protocol::Loop { condition: c2, body: x2 } && cond_view(
            condition,
        ) == cond_view(c2) && same_protocol(*body, *x2),
        Protocol::Parallel { protocols } => q matches Protocol::Parallel { protocols: p2 } && protocols.len()
            == p2.len() && forall|i: int|
            0 <= i < protocols.len() ==> same_protocol(#[trigger] protocols@[i], p2@[i]),
        Protocol::Rec { label, body } => q matches Protocol::Rec { label: l2, body: x2 } && label@ == l2@
            && same_protocol(*body, *x2),
        Protocol::Var(l) => q matches Protocol::Var(l2) && l@ == l2@,
        Protocol::End => q is End,
    }
}

proof fn lemma_send_chain_same(a: Seq<Role>, b: Seq<Role>, m: Seq<char>, k: LocalSpec)
    requires
        same_roles(a, b),
    ensures
        send_chain(a, m, k) == send_chain(b, m, k),
    decreases a.len(),
{
    if a.len() > 0 {
        let ta = a.subrange(1, a.len() as int);
        let tb = b.subrange(1, b.len() as int);
        assert forall|i: int| 0 <= i < ta.len() implies (#[trigger] ta[i])@ == tb[i]@ by {
            assert(ta[i] == a[i + 1]);
            assert(tb[i] == b[i + 1]);
        }
        assert(a[0]@ == b[0]@);
        lemma_send_chain_same(ta, tb, m, k);
    }
}

/// Projection is deterministic: structurally equal protocols and roles of
/// equal identity give structurally equal local types, or the same failure.
pub proof fn lemma_projection_deterministic(p: Protocol, q: Protocol, r: Role, s: Role)
    requires
        same_protocol(p, q),
        r@ == s@,
    ensures
        proj(p, r@) == proj(q, s@),
{
    lemma_proj_same(p, q, r@);
}

proof fn lemma_proj_same(p: Protocol, q: Protocol, r: RoleView)
    requires
        same_protocol(p, q),
    ensures
        proj(p, r) == proj(q, r),
    decreases p,
{
    match p {
        Protocol::Send { continuation, .. } => {
            lemma_proj_same(*continuation, *q->Send_continuation, r);
        },
        Protocol::Broadcast { to_all, message, continuation, .. } => {
            lemma_proj_same(*continuation, *q->Broadcast_continuation, r);
            let t2 = q->to_all@;
            if proj(*continuation, r) is Ok {
                lemma_send_chain_same(to_all@, t2, message.name@, proj(*continuation, r)->Ok_0);
            }
            if role_in(to_all@, r) {
                let i = choose|i: int| 0 <= i < to_all@.len() && #[trigger] to_all@[i]@ == r;
                assert(t2[i]@ == r);
            }
            if role_in(t2, r) {
                let i = choose|i: int| 0 <= i < t2.len() && #[trigger] t2[i]@ == r;
                assert(to_all@[i]@ == r);
            }
        },
        Protocol::Choice { role, branches } => {
            let b2 = q->branches@;
            lemma_proj_arms_same(branches@, b2, r, true);
            lemma_proj_arms_same(branches@, b2, r, false);
            assert(communicated(branches@, r) == communicated(b2, r)) by {
                if communicated(branches@, r) {
                    assert forall|i: int| 0 <= i < b2.len() implies ((#[trigger] b2[i]).protocol matches Protocol::Send { from, .. } && from@ == r) by {
                        assert(same_protocol(branches@[i].protocol, b2[i].protocol));
                    }
                }
                if communicated(b2, r) {
                    assert forall|i: int| 0 <= i < branches@.len() implies ((#[trigger] branches@[i]).protocol matches Protocol::Send { from, .. } && from@ == r) by {
                        assert(same_protocol(branches@[i].protocol, b2[i].protocol));
                    }
                }
            }
            if communicated(branches@, r) {
                assert(same_protocol(branches@[0].protocol, b2[0].protocol));
                assert(head_to(branches@[0].protocol) == head_to(b2[0].protocol));
                assert(same_recipient(branches@) == same_recipient(b2)) by {
                    assert forall|i: int| 0 <= i < branches@.len() implies head_to((#[trigger] branches@[i]).protocol) == head_to(b2[i].protocol) by {
                        assert(same_protocol(branches@[i].protocol, b2[i].protocol));
                    }
                    if same_recipient(branches@) {
                        assert forall|i: int| 0 <= i < b2.len() implies head_to((#[trigger] b2[i]).protocol) == head_to(b2[0].protocol) by {
                            assert(head_to(branches@[i].protocol) == head_to(b2[i].protocol));
                        }
                    }
                    if same_recipient(b2) {
                        assert forall|i: int| 0 <= i < branches@.len() implies head_to((#[trigger] branches@[i]).protocol) == head_to(branches@[0].protocol) by {
                            assert(head_to(branches@[i].protocol) == head_to(b2[i].protocol));
                        }
                    }
                }
            }
            assert(receives_choice(branches@, role@, r) == receives_choice(b2, role@, r)) by {
                if receives_choice(branches@, role@, r) {
                    let i = choose|i: int| 0 <= i < branches@.len() && ((#[trigger] branches@[i]).protocol matches Protocol::Send { from, to, .. } && from@ == role@ && to@ == r);
                    assert(same_protocol(branches@[i].protocol, b2[i].protocol));
                    assert(b2[i].protocol matches Protocol::Send { from, to, .. } && from@ == role@ && to@ == r);
                }
                if receives_choice(b2, role@, r) {
                    let i = choose|i: int| 0 <= i < b2.len() && ((#[trigger] b2[i]).protocol matches Protocol::Send { from, to, .. } && from@ == role@ && to@ == r);
                    assert(same_protocol(branches@[i].protocol, b2[i].protocol));
                    assert(branches@[i].protocol matches Protocol::Send { from, to, .. } && from@ == role@ && to@ == r);
                }
            }
        },
        Protocol::Loop { body, .. } => {
            lemma_proj_same(*body, *q->Loop_body, r);
        },
        Protocol::Parallel { protocols } => {
            lemma_proj_list_same(protocols@, q->protocols@, r);
        },
        Protocol::Rec { body, .. } => {
            lemma_proj_same(*body, *q->Rec_body, r);
        },
        _ => {},
    }
}

proof fn lemma_proj_arms_same(a: Seq<Branch>, b: Seq<Branch>, r: RoleView, strip: bool)
    requires
        a.len() == b.len(),
        forall|i: int|
            0 <= i < a.len() ==> (#[trigger] a[i]).label@ == b[i].label@ && same_protocol(a[i].protocol, b[i].protocol),
    ensures
        proj_arms(a, r, strip) == proj_arms(b, r, strip),
    decreases a,
{
    if a.len() > 0 {
        let ta = a.subrange(1, a.len() as int);
        let tb = b.subrange(1, b.len() as int);
        assert forall|i: int| 0 <= i < ta.len() implies (#[trigger] ta[i]).label@ == tb[i].label@ && same_protocol(
            ta[i].protocol,
            tb[i].protocol,
        ) by {
            assert(ta[i] == a[i + 1]);
            assert(tb[i] == b[i + 1]);
        }
        assert(a[0].label@ == b[0].label@ && same_protocol(a[0].protocol, b[0].protocol));
        let pa = a[0].protocol;
        let pb = b[0].protocol;
        if strip && pa is Send {
            assert(decreases_to!(a => *pa->Send_continuation)) by {
                assert(decreases_to!(a => a[0]));
                assert(decreases_to!(a[0] => pa));
                assert(decreases_to!(pa => *pa->Send_continuation));
            }
            lemma_proj_same(*pa->Send_continuation, *pb->Send_continuation, r);
        } else {
            assert(decreases_to!(a => pa)) by {
                assert(decreases_to!(a => a[0]));
            }
            lemma_proj_same(pa, pb, r);
        }
        lemma_proj_arms_same(ta, tb, r, strip);
    }
}

proof fn lemma_proj_list_same(a: Seq<Protocol>, b: Seq<Protocol>, r: RoleView)
    requires
        a.len() == b.len(),
        forall|i: int| 0 <= i < a.len() ==> same_protocol(#[trigger] a[i], b[i]),
    ensures
        proj_list(a, r) == proj_list(b, r),
    decreases a,
{
    if a.len() > 0 {
        let ta = a.subrange(1, a.len() as int);
        let tb = b.subrange(1, b.len() as int);
        assert forall|i: int| 0 <= i < ta.len() implies same_protocol(#[trigger] ta[i], tb[i]) by {
            assert(ta[i] == a[i + 1]);
            assert(tb[i] == b[i + 1]);
        }
        assert(same_protocol(a[0], b[0]));
        lemma_proj_same(a[0], b[0], r);
        lemma_proj_list_same(ta, tb, r);
    }
}

/// Projection of a single send: the sender sends `m` to the recipient, the
/// recipient receives `m` from the sender, and anyone else projects the
/// continuation.
pub proof fn lemma_send_projection(p: Protocol, x: RoleView)
    requires
        p is Send,
    ensures
        ({
            let f = p->Send_from@;
            let t = p->Send_to@;
            let m = p->Send_message.name@;
            let k = *p->Send_continuation;
            &&& proj(k, f) is Ok ==> proj(p, f) == Ok::<_, ProjectionError>(
                LocalSpec::Send { to: t, msg: m, cont: Box::new(proj(k, f)->Ok_0) },
            )
            &&& proj(k, t) is Ok && t != f ==> proj(p, t) == Ok::<_, ProjectionError>(
                LocalSpec::Receive { from: f, msg: m, cont: Box::new(proj(k, t)->Ok_0) },
            )
            &&& x != f && x != t ==> proj(p, x) == proj(k, x)
        }),
{
}

/// The protocol holds no recursion variable.
pub open spec fn var_free(p: Protocol) -> bool
    decreases p,
{
    match p {
        Protocol::Send { continuation, .. } => var_free(*continuation),
        Protocol::Broadcast { continuation, .. } => var_free(*continuation),
        Protocol::Choice { branches, .. } => forall|i: int|
            0 <= i < branches.len() ==> var_free(#[trigger] branches@[i].protocol),
        Protocol::Loop { body, .. } => var_free(*body),
        Protocol::Parallel { protocols } => forall|i: int|
            0 <= i < protocols.len() ==> var_free(#[trigger] protocols@[i]),
        Protocol::Rec { body, .. } => var_free(*body),
        Protocol::Var(_) => false,
        Protocol::End => true,
    }
}

proof fn lemma_survivors_of_ends(s: Seq<LocalSpec>)
    requires
        forall|i: int| 0 <= i < s.len() ==> s[i] == LocalSpec::End,
    ensures
        survivors(s).len() == 0,
    decreases s.len(),
{
    if s.len() > 0 {
        lemma_survivors_of_ends(s.subrange(0, s.len() - 1));
    }
}

/// A role that a variable-free protocol never mentions has nothing to do in it.
pub proof fn lemma_unmentioned_projects_to_end(p: Protocol, r: RoleView)
    requires
        !mentions(p, r),
        var_free(p),
    ensures
        proj(p, r) == Ok::<_, ProjectionError>(LocalSpec::End),
    decreases p,
{
    match p {
        Protocol::Send { continuation, .. } => lemma_unmentioned_projects_to_end(*continuation, r),
        Protocol::Broadcast { continuation, .. } => lemma_unmentioned_projects_to_end(*continuation, r),
        Protocol::Choice { role, branches } => {
            lemma_unmentioned_arms(branches@, r);
            let arms = proj_arms(branches@, r, false)->Ok_0;
            if receives_choice(branches@, role@, r) {
                let i = choose|i: int|
                    0 <= i < branches@.len() && ((#[trigger] branches@[i]).protocol matches Protocol::Send {
                        from,
                        to,
                        ..
                    } && from@ == role@ && to@ == r);
                assert(mentions(branches@[i].protocol, r));
            }
            if arms.len() > 0 {
                assert(forall|i: int| 0 <= i < arms.len() ==> (#[trigger] arms[i]).1 == arms[0].1);
            }
        },
        Protocol::Loop { body, .. } => lemma_unmentioned_projects_to_end(*body, r),
        Protocol::Parallel { protocols } => {
            lemma_unmentioned_list(protocols@, r);
            lemma_survivors_of_ends(proj_list(protocols@, r)->Ok_0);
        },
        Protocol::Rec { body, .. } => lemma_unmentioned_projects_to_end(*body, r),
        _ => {},
    }
}

proof fn lemma_unmentioned_arms(bs: Seq<Branch>, r: RoleView)
    requires
        forall|i: int| 0 <= i < bs.len() ==> !mentions(#[trigger] bs[i].protocol, r) && var_free(bs[i].protocol),
    ensures
        proj_arms(bs, r, false) is Ok,
        proj_arms(bs, r, false)->Ok_0.len() == bs.len(),
        forall|i: int|
            0 <= i < bs.len() ==> (#[trigger] proj_arms(bs, r, false)->Ok_0[i]).1 == LocalSpec::End,
    decreases bs,
{
    if bs.len() > 0 {
        let t = bs.subrange(1, bs.len() as int);
        assert(decreases_to!(bs => bs[0].protocol)) by {
            assert(decreases_to!(bs => bs[0]));
        }
        assert(!mentions(bs[0].protocol, r) && var_free(bs[0].protocol));
        lemma_unmentioned_projects_to_end(bs[0].protocol, r);
        assert forall|i: int| 0 <= i < t.len() implies !mentions(#[trigger] t[i].protocol, r) && var_free(
            t[i].protocol,
        ) by {
            assert(t[i] == bs[i + 1]);
        }
        lemma_unmentioned_arms(t, r);
        let rest = proj_arms(t, r, false)->Ok_0;
        let all = proj_arms(bs, r, false)->Ok_0;
        assert(all == seq![(bs[0].label@, LocalSpec::End)] + rest);
        assert forall|i: int| 0 <= i < bs.len() implies (#[trigger] all[i]).1 == LocalSpec::End by {
            if i > 0 {
                assert(all[i] == rest[i - 1]);
            }
        }
    }
}

proof fn lemma_unmentioned_list(ps: Seq<Protocol>, r: RoleView)
    requires
        forall|i: int| 0 <= i < ps.len() ==> !mentions(#[trigger] ps[i], r) && var_free(ps[i]),
    ensures
        proj_list(ps, r) is Ok,
        proj_list(ps, r)->Ok_0.len() == ps.len(),
        forall|i: int| 0 <= i < ps.len() ==> #[trigger] proj_list(ps, r)->Ok_0[i] == LocalSpec::End,
    decreases ps,
{
    if ps.len() > 0 {
        let t = ps.subrange(1, ps.len() as int);
        assert(!mentions(ps[0], r) && var_free(ps[0]));
        lemma_unmentioned_projects_to_end(ps[0], r);
        assert forall|i: int| 0 <= i < t.len() implies !mentions(#[trigger] t[i], r) && var_free(t[i]) by {
            assert(t[i] == ps[i + 1]);
        }
        lemma_unmentioned_list(t, r);
        let rest = proj_list(t, r)->Ok_0;
        let all = proj_list(ps, r)->Ok_0;
        assert(all == seq![LocalSpec::End] + rest);
        assert forall|i: int| 0 <= i < ps.len() implies #[trigger] all[i] == LocalSpec::End by {
            if i > 0 {
                assert(all[i] == rest[i - 1]);
            }
        }
    }
}

/// The first `n` sends of a local type, as (recipient, message) pairs, and
/// what follows them; fewer pairs where the chain of sends is shorter.
pub open spec fn peel_sends(l: LocalSpec, n: nat) -> (Seq<(RoleView, Seq<char>)>, LocalSpec)
    decreases n,
{
    if n == 0 {
        (Seq::empty(), l)
    } else {
        match l {
            LocalSpec::Send { to, msg, cont } => {
                let (s, rest) = peel_sends(*cont, (n - 1) as nat);
                (seq![(to, msg)] + s, rest)
            },
            _ => (Seq::empty(), l),
        }
    }
}

/// The (recipient, message) pairs of a broadcast of `m` to `ts`, in order.
pub open spec fn broadcast_pairs(ts: Seq<Role>, m: Seq<char>) -> Seq<(RoleView, Seq<char>)> {
    ts.map_values(|t: Role| (t@, m))
}

proof fn lemma_peel_chain(ts: Seq<Role>, m: Seq<char>, k: LocalSpec)
    ensures
        peel_sends(send_chain(ts, m, k), ts.len()) == (broadcast_pairs(ts, m), k),
    decreases ts.len(),
{
    if ts.len() > 0 {
        let t = ts.subrange(1, ts.len() as int);
        lemma_peel_chain(t, m, k);
        assert(broadcast_pairs(ts, m) =~= seq![(ts[0]@, m)] + broadcast_pairs(t, m));
    } else {
        assert(broadcast_pairs(ts, m) =~= Seq::empty());
    }
}

/// At its sender, a broadcast to n recipients projects to exactly n sends of
/// the message, to the recipients in their order, followed by the sender's
/// projection of the continuation.
pub proof fn lemma_broadcast_projection(p: Protocol)
    requires
        p is Broadcast,
        proj(*p->Broadcast_continuation, p->Broadcast_from@) is Ok,
    ensures
        proj(p, p->Broadcast_from@) is Ok,
        peel_sends(proj(p, p->Broadcast_from@)->Ok_0, p->to_all.len() as nat) == (
            broadcast_pairs(p->to_all@, p->Broadcast_message.name@),
            proj(*p->Broadcast_continuation, p->Broadcast_from@)->Ok_0,
        ),
{
    lemma_peel_chain(
        p->to_all@,
        p->Broadcast_message.name@,
        proj(*p->Broadcast_continuation, p->Broadcast_from@)->Ok_0,
    );
}

/// A chain of sends and receives ending in `End`.
pub open spec fn linear(l: LocalSpec) -> bool
    decreases l,
{
    match l {
        LocalSpec::Send { cont, .. } => linear(*cont),
        LocalSpec::Receive { cont, .. } => linear(*cont),
        LocalSpec::End => true,
        _ => false,
    }
}

/// The operations of a chain of sends and receives, in order: whether it is
/// a send, the peer, and the message.
pub open spec fn trace(l: LocalSpec) -> Seq<(bool, RoleView, Seq<char>)>
    decreases l,
{
    match l {
        LocalSpec::Send { to, msg, cont } => seq![(true, to, msg)] + trace(*cont),
        LocalSpec::Receive { from, msg, cont } => seq![(false, from, msg)] + trace(*cont),
        _ => Seq::empty(),
    }
}

/// The operations of each local type in turn.
pub open spec fn flat_trace(s: Seq<LocalSpec>) -> Seq<(bool, RoleView, Seq<char>)>
    decreases s.len(),
{
    if s.len() == 0 {
        Seq::empty()
    } else {
        trace(s[0]) + flat_trace(s.subrange(1, s.len() as int))
    }
}

proof fn lemma_append_trace(a: LocalSpec, b: LocalSpec)
    requires
        linear(a),
        linear(b),
    ensures
        linear(append(a, b)),
        trace(append(a, b)) == trace(a) + trace(b),
    decreases a,
{
    match a {
        LocalSpec::Send { to, msg, cont } => {
            lemma_append_trace(*cont, b);
            assert(seq![(true, to, msg)] + (trace(*cont) + trace(b)) =~= (seq![(true, to, msg)] + trace(*cont))
                + trace(b));
        },
        LocalSpec::Receive { from, msg, cont } => {
            lemma_append_trace(*cont, b);
            assert(seq![(false, from, msg)] + (trace(*cont) + trace(b)) =~= (seq![(false, from, msg)]
                + trace(*cont)) + trace(b));
        },
        _ => {
            assert(Seq::<(bool, RoleView, Seq<char>)>::empty() + trace(b) =~= trace(b));
        },
    }
}

proof fn lemma_interleave_trace(s: Seq<LocalSpec>)
    requires
        forall|i: int| 0 <= i < s.len() ==> linear(#[trigger] s[i]),
    ensures
        linear(interleave(s)),
        trace(interleave(s)) == flat_trace(s),
    decreases s.len(),
{
    if s.len() > 0 {
        let t = s.subrange(1, s.len() as int);
        assert forall|i: int| 0 <= i < t.len() implies linear(#[trigger] t[i]) by {
            assert(t[i] == s[i + 1]);
        }
        lemma_interleave_trace(t);
        let rest = interleave(t);
        assert(linear(s[0]));
        lemma_append_trace(s[0], rest);
        if s[0] == LocalSpec::End {
            assert(Seq::<(bool, RoleView, Seq<char>)>::empty() + trace(rest) =~= trace(rest));
        } else if rest == LocalSpec::End {
            assert(trace(s[0]) + Seq::<(bool, RoleView, Seq<char>)>::empty() =~= trace(s[0]));
        }
    } else {
        assert(flat_trace(s) =~= Seq::empty());
    }
}

/// When the surviving parallel projections are chains of sends and receives
/// and do not conflict, the merge succeeds and performs exactly their
/// operations: those of the first survivor, then those of the next, each in
/// its own order.
pub proof fn lemma_parallel_merge_keeps_operations(ps: Seq<LocalSpec>)
    requires
        forall|i: int| 0 <= i < survivors(ps).len() ==> linear(#[trigger] survivors(ps)[i]),
        !parallel_conflict(survivors(ps)),
    ensures
        combine_parallel(ps) is Ok,
        linear(combine_parallel(ps)->Ok_0),
        trace(combine_parallel(ps)->Ok_0) == flat_trace(survivors(ps)),
{
    let s = survivors(ps);
    if s.len() == 0 {
        assert(flat_trace(s) =~= Seq::empty());
    } else if s.len() == 1 {
        assert(linear(s[0]));
        assert(s.subrange(1, 1) =~= Seq::<LocalSpec>::empty());
        assert(flat_trace(s.subrange(1, 1)) =~= Seq::empty());
        assert(trace(s[0]) + Seq::<(bool, RoleView, Seq<char>)>::empty() =~= trace(s[0]));
    } else {
        lemma_interleave_trace(s);
    }
}

/// Every broadcast in the protocol has at least one recipient.
pub open spec fn broadcasts_nonempty(p: Protocol) -> bool
    decreases p,
{
    match p {
        Protocol::Send { continuation, .. } => broadcasts_nonempty(*continuation),
        Protocol::Broadcast { to_all, continuation, .. } => to_all.len() > 0 && broadcasts_nonempty(
            *continuation,
        ),
        Protocol::Choice { branches, .. } => forall|i: int|
            0 <= i < branches.len() ==> broadcasts_nonempty(#[trigger] branches@[i].protocol),
        Protocol::Loop { body, .. } => broadcasts_nonempty(*body),
        Protocol::Parallel { protocols } => forall|i: int|
            0 <= i < protocols.len() ==> broadcasts_nonempty(#[trigger] protocols@[i]),
        Protocol::Rec { body, .. } => broadcasts_nonempty(*body),
        _ => true,
    }
}

proof fn lemma_proj_arms_index(bs: Seq<Branch>, r: RoleView, strip: bool)
    requires
        proj_arms(bs, r, strip) is Ok,
    ensures
        proj_arms(bs, r, strip)->Ok_0.len() == bs.len(),
        forall|i: int|
            0 <= i < bs.len() ==> proj(arm_body(#[trigger] bs[i].protocol, strip), r) == Ok::<
                _,
                ProjectionError,
            >(proj_arms(bs, r, strip)->Ok_0[i].1),
    decreases bs.len(),
{
    if bs.len() > 0 {
        let t = bs.subrange(1, bs.len() as int);
        lemma_proj_arms_index(t, r, strip);
        let all = proj_arms(bs, r, strip)->Ok_0;
        let rest = proj_arms(t, r, strip)->Ok_0;
        assert forall|i: int| 0 <= i < bs.len() implies proj(arm_body(#[trigger] bs[i].protocol, strip), r)
            == Ok::<_, ProjectionError>(all[i].1) by {
            if i > 0 {
                assert(bs[i] == t[i - 1]);
                assert(all[i] == rest[i - 1]);
            }
        }
    }
}

proof fn lemma_proj_list_index(ps: Seq<Protocol>, r: RoleView)
    requires
        proj_list(ps, r) is Ok,
    ensures
        proj_list(ps, r)->Ok_0.len() == ps.len(),
        forall|i: int|
            0 <= i < ps.len() ==> proj(#[trigger] ps[i], r) == Ok::<_, ProjectionError>(
                proj_list(ps, r)->Ok_0[i],
            ),
    decreases ps.len(),
{
    if ps.len() > 0 {
        let t = ps.subrange(1, ps.len() as int);
        lemma_proj_list_index(t, r);
        let all = proj_list(ps, r)->Ok_0;
        let rest = proj_list(t, r)->Ok_0;
        assert forall|i: int| 0 <= i < ps.len() implies proj(#[trigger] ps[i], r) == Ok::<
            _,
            ProjectionError,
        >(all[i]) by {
            if i > 0 {
                assert(ps[i] == t[i - 1]);
                assert(all[i] == rest[i - 1]);
            }
        }
    }
}

proof fn lemma_survivors_non_end(s: Seq<LocalSpec>, k: int)
    requires
        0 <= k < s.len(),
        s[k] != LocalSpec::End,
    ensures
        survivors(s).len() > 0,
        forall|i: int| 0 <= i < survivors(s).len() ==> #[trigger] survivors(s)[i] != LocalSpec::End,
    decreases s.len(),
{
    lemma_survivors_all_non_end(s);
    let init = s.subrange(0, s.len() - 1);
    if k < s.len() - 1 {
        assert(init[k] == s[k]);
        lemma_survivors_non_end(init, k);
    }
}

proof fn lemma_survivors_all_non_end(s: Seq<LocalSpec>)
    ensures
        forall|i: int| 0 <= i < survivors(s).len() ==> #[trigger] survivors(s)[i] != LocalSpec::End,
    decreases s.len(),
{
    if s.len() > 0 {
        lemma_survivors_all_non_end(s.subrange(0, s.len() - 1));
    }
}

proof fn lemma_first_non_end(arms: Seq<(Seq<char>, LocalSpec)>, k: int)
    requires
        0 <= k < arms.len(),
        arms[k].1 != LocalSpec::End,
    ensures
        first_non_end(arms) != LocalSpec::End,
    decreases arms.len(),
{
    if arms[0].1 == LocalSpec::End {
        let t = arms.subrange(1, arms.len() as int);
        assert(t[k - 1] == arms[k]);
        lemma_first_non_end(t, k - 1);
    }
}

/// A role that a protocol mentions has something to do in it, where every
/// broadcast has a recipient.
pub proof fn lemma_mentioned_not_end(p: Protocol, r: RoleView)
    requires
        mentions(p, r),
        broadcasts_nonempty(p),
        proj(p, r) is Ok,
    ensures
        proj(p, r)->Ok_0 != LocalSpec::End,
    decreases p,
{
    match p {
        Protocol::Send { from, to, continuation, .. } => {
            if from@ != r && to@ != r {
                lemma_mentioned_not_end(*continuation, r);
            }
        },
        Protocol::Broadcast { from, to_all, continuation, .. } => {
            if from@ != r && !role_in(to_all@, r) {
                lemma_mentioned_not_end(*continuation, r);
            }
        },
        Protocol::Choice { role, branches } => {
            if role@ != r && !receives_choice(branches@, role@, r) {
                let i = choose|i: int| 0 <= i < branches.len() && mentions(#[trigger] branches@[i].protocol, r);
                lemma_proj_arms_index(branches@, r, false);
                let arms = proj_arms(branches@, r, false)->Ok_0;
                assert(broadcasts_nonempty(branches@[i].protocol));
                lemma_branch_decreases(p, i);
                lemma_mentioned_not_end(branches@[i].protocol, r);
                assert(arms[i].1 != LocalSpec::End);
                lemma_first_non_end(arms, i);
                if forall|j: int| 0 <= j < arms.len() ==> (#[trigger] arms[j]).1 == arms[0].1 {
                    assert(arms[i].1 == arms[0].1);
                }
            }
        },
        Protocol::Loop { body, .. } => lemma_mentioned_not_end(*body, r),
        Protocol::Parallel { protocols } => {
            let i = choose|i: int| 0 <= i < protocols.len() && mentions(#[trigger] protocols@[i], r);
            lemma_proj_list_index(protocols@, r);
            let ls = proj_list(protocols@, r)->Ok_0;
            assert(broadcasts_nonempty(protocols@[i]));
            lemma_child_decreases(p, i);
            lemma_mentioned_not_end(protocols@[i], r);
            lemma_survivors_non_end(ls, i);
            let sv = survivors(ls);
            assert(sv[0] != LocalSpec::End);
            if sv.len() > 1 {
                let rest = interleave(sv.subrange(1, sv.len() as int));
                if rest != LocalSpec::End {
                    assert(append(sv[0], rest) != LocalSpec::End);
                }
            }
        },
        Protocol::Rec { body, .. } => lemma_mentioned_not_end(*body, r),
        _ => {},
    }
}

/// A recursion scope whose body mentions the role survives projection with
/// its label (where every broadcast has a recipient and the projection
/// exists).
pub proof fn lemma_rec_projection(p: Protocol, r: RoleView)
    requires
        p is Rec,
        mentions(*p->Rec_body, r),
        broadcasts_nonempty(*p->Rec_body),
        proj(p, r) is Ok,
    ensures
        proj(p, r)->Ok_0 matches LocalSpec::Rec { label, .. } && label == p->Rec_label@,
{
    lemma_mentioned_not_end(*p->Rec_body, r);
}

/// A recursion variable projects to itself for every role.
pub proof fn lemma_var_projection(p: Protocol, r: RoleView)
    requires
        p is Var,
    ensures
        proj(p, r) == Ok::<_, ProjectionError>(LocalSpec::Var(p->Var_0@)),
{
}

/// The chain of sends and receives `ops`, in order, followed by `tail`.
pub open spec fn prepend_ops(ops: Seq<(bool, RoleView, Seq<char>)>, tail: LocalSpec) -> LocalSpec
    decreases ops.len(),
{
    if ops.len() == 0 {
        tail
    } else {
        let rest = prepend_ops(ops.subrange(1, ops.len() as int), tail);
        if ops[0].0 {
            LocalSpec::Send { to: ops[0].1, msg: ops[0].2, cont: Box::new(rest) }
        } else {
            LocalSpec::Receive { from: ops[0].1, msg: ops[0].2, cont: Box::new(rest) }
        }
    }
}

proof fn lemma_append_linear(a: LocalSpec, b: LocalSpec)
    requires
        linear(a),
    ensures
        append(a, b) == prepend_ops(trace(a), b),
    decreases a,
{
    match a {
        LocalSpec::Send { to, msg, cont } => {
            lemma_append_linear(*cont, b);
            let t = trace(a);
            assert(t.subrange(1, t.len() as int) =~= trace(*cont));
        },
        LocalSpec::Receive { from, msg, cont } => {
            lemma_append_linear(*cont, b);
            let t = trace(a);
            assert(t.subrange(1, t.len() as int) =~= trace(*cont));
        },
        _ => {},
    }
}

proof fn lemma_prepend_concat(x: Seq<(bool, RoleView, Seq<char>)>, y: Seq<(bool, RoleView, Seq<char>)>, t: LocalSpec)
    ensures
        prepend_ops(x + y, t) == prepend_ops(x, prepend_ops(y, t)),
    decreases x.len(),
{
    if x.len() == 0 {
        assert(x + y =~= y);
    } else {
        let xs = x.subrange(1, x.len() as int);
        lemma_prepend_concat(xs, y, t);
        assert((x + y).subrange(1, (x + y).len() as int) =~= xs + y);
        assert((x + y)[0] == x[0]);
    }
}

proof fn lemma_prepend_not_end(ops: Seq<(bool, RoleView, Seq<char>)>, t: LocalSpec)
    requires
        t != LocalSpec::End,
    ensures
        prepend_ops(ops, t) != LocalSpec::End,
{
}

proof fn lemma_interleave_prepends(s: Seq<LocalSpec>)
    requires
        s.len() >= 1,
        forall|i: int| 0 <= i < s.len() ==> #[trigger] s[i] != LocalSpec::End,
        forall|i: int| 0 <= i < s.len() - 1 ==> linear(#[trigger] s[i]),
    ensures
        interleave(s) == prepend_ops(flat_trace(s.subrange(0, s.len() - 1)), s[s.len() - 1]),
    decreases s.len(),
{
    let n = s.len() as int;
    if n == 1 {
        assert(s.subrange(1, 1).len() == 0);
        assert(interleave(s.subrange(1, 1)) == LocalSpec::End);
        assert(flat_trace(s.subrange(0, 0)) =~= Seq::empty());
    } else {
        let rest = s.subrange(1, n);
        assert forall|i: int| 0 <= i < rest.len() implies #[trigger] rest[i] != LocalSpec::End by {
            assert(rest[i] == s[i + 1]);
        }
        assert forall|i: int| 0 <= i < rest.len() - 1 implies linear(#[trigger] rest[i]) by {
            assert(rest[i] == s[i + 1]);
        }
        lemma_interleave_prepends(rest);
        assert(rest[rest.len() - 1] == s[n - 1]);
        let ops = flat_trace(rest.subrange(0, rest.len() - 1));
        let x = interleave(rest);
        lemma_prepend_not_end(ops, s[n - 1]);
        assert(linear(s[0]));
        lemma_append_linear(s[0], x);
        lemma_prepend_concat(trace(s[0]), ops, s[n - 1]);
        let init = s.subrange(0, n - 1);
        assert(init[0] == s[0]);
        assert(init.subrange(1, init.len() as int) =~= rest.subrange(0, rest.len() - 1));
    }
}

/// A conflict-free parallel merge performs every operation of its surviving
/// projections: the sends and receives of each survivor but the last, in
/// their order and survivor after survivor, and then the whole last survivor,
/// wherever every survivor but the last is a chain of sends and receives.
pub proof fn lemma_parallel_merge_chains_survivors(ps: Seq<LocalSpec>)
    requires
        forall|i: int| 0 <= i < survivors(ps).len() - 1 ==> linear(#[trigger] survivors(ps)[i]),
        !parallel_conflict(survivors(ps)),
    ensures
        combine_parallel(ps) is Ok,
        survivors(ps).len() == 0 ==> combine_parallel(ps)->Ok_0 == LocalSpec::End,
        survivors(ps).len() >= 1 ==> combine_parallel(ps)->Ok_0 == prepend_ops(
            flat_trace(survivors(ps).subrange(0, survivors(ps).len() - 1)),
            survivors(ps)[survivors(ps).len() - 1],
        ),
{
    let s = survivors(ps);
    lemma_survivors_all_non_end(ps);
    if s.len() == 1 {
        assert(flat_trace(s.subrange(0, 0)) =~= Seq::empty());
    } else if s.len() >= 2 {
        lemma_interleave_prepends(s);
    }
}

} // verus!
