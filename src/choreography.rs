//! Choreographies and their structural validation.

use vstd::prelude::*;
use crate::protocol::{Protocol, Condition, mentions, lemma_branch_decreases, lemma_child_decreases};
use crate::role::{Role, role_in, contains_role};

verus! {

/// A named global protocol over a declared set of roles.
#[derive(Debug)]
pub struct Choreography {
    pub name: String,
    pub roles: Vec<Role>,
    pub protocol: Protocol,
    pub attrs: std::collections::HashMap<String, String>,
}

/// The first violation that validation finds; each carries the offending
/// role or label name.
#[derive(Debug, PartialEq, Eq)]
pub enum ValidationError {
    UndefinedRole(String),
    UnboundVariable(String),
    InvalidChoice(String),
    Deadlock,
    UnusedRole(String),
}

/// Whether a `Rec` binding `l` encloses the current position.
pub open spec fn label_bound(scope: Seq<String>, l: String) -> bool {
    exists|i: int| 0 <= i < scope.len() && #[trigger] scope[i]@ == l@
}

/// The first role of `rs` that is not declared in `roles`, reported as an error.
pub open spec fn check_declared(rs: Seq<Role>, roles: Seq<Role>) -> Result<(), ValidationError>
    decreases rs.len(),
{
    if rs.len() == 0 {
        Ok(())
    } else if !role_in(roles, rs[0]@) {
        Err(ValidationError::UndefinedRole(rs[0].name))
    } else {
        check_declared(rs.subrange(1, rs.len() as int), roles)
    }
}

/// Whether a choice branch starts with a send from the decider `d`.
pub open spec fn headed_by(p: Protocol, d: Role) -> bool {
    p matches Protocol::Send { from, .. } && from@ == d@
}

/// The first branch that does not start with a send from `d`, reported as an error.
pub open spec fn check_heads(bs: Seq<crate::protocol::Branch>, d: Role) -> Result<(), ValidationError>
    decreases bs.len(),
{
    if bs.len() == 0 {
        Ok(())
    } else if !headed_by(bs[0].protocol, d) {
        Err(ValidationError::InvalidChoice(d.name))
    } else {
        check_heads(bs.subrange(1, bs.len() as int), d)
    }
}

/// Depth-first validation of a protocol against the declared roles: every
/// role is declared, every variable is bound by an enclosing `Rec` (labels in
/// `scope`), and every choice branch starts with a send from the decider.
/// The result is the first violation met.
pub open spec fn check(p: Protocol, roles: Seq<Role>, scope: Seq<String>) -> Result<(), ValidationError>
    decreases p,
{
    match p {
        Protocol::Send { from, to, continuation, .. } => {
            if !role_in(roles, from@) {
                Err(ValidationError::UndefinedRole(from.name))
            } else if !role_in(roles, to@) {
                Err(ValidationError::UndefinedRole(to.name))
            } else {
                check(*continuation, roles, scope)
            }
        },
        Protocol::Broadcast { from, to_all, continuation, .. } => {
            if !role_in(roles, from@) {
                Err(ValidationError::UndefinedRole(from.name))
            } else if check_declared(to_all@, roles) is Err {
                check_declared(to_all@, roles)
            } else {
                check(*continuation, roles, scope)
            }
        },
        Protocol::Choice { role, branches } => {
            if !role_in(roles, role@) {
                Err(ValidationError::UndefinedRole(role.name))
            } else if check_heads(branches@, role) is Err {
                check_heads(branches@, role)
            } else {
                check_branches(branches@, roles, scope)
            }
        },
        Protocol::Loop { condition, body } => {
            if condition matches Some(Condition::RoleDecides(r)) && !role_in(roles, r@) {
                Err(ValidationError::UndefinedRole(condition->Some_0->RoleDecides_0.name))
            } else {
                check(*body, roles, scope)
            }
        },
        Protocol::Parallel { protocols } => check_all(protocols@, roles, scope),
        Protocol::Rec { label, body } => check(*body, roles, scope.push(label)),
        Protocol::Var(l) => if label_bound(scope, l) {
            Ok(())
        } else {
            Err(ValidationError::UnboundVariable(l))
        },
        Protocol::End => Ok(()),
    }
}

/// `check` over a sequence of protocols, first violation first.
pub open spec fn check_all(ps: Seq<Protocol>, roles: Seq<Role>, scope: Seq<String>) -> Result<(), ValidationError>
    decreases ps,
{
    if ps.len() == 0 {
        Ok(())
    } else if check(ps[0], roles, scope) is Err {
        check(ps[0], roles, scope)
    } else {
        check_all(ps.subrange(1, ps.len() as int), roles, scope)
    }
}

/// `check` over the bodies of a sequence of branches, first violation first.
pub open spec fn check_branches(bs: Seq<crate::protocol::Branch>, roles: Seq<Role>, scope: Seq<String>) -> Result<(), ValidationError>
    decreases bs,
{
    if bs.len() == 0 {
        Ok(())
    } else if check(bs[0].protocol, roles, scope) is Err {
        check(bs[0].protocol, roles, scope)
    } else {
        check_branches(bs.subrange(1, bs.len() as int), roles, scope)
    }
}

/// Reports the first role of `rs` that `roles` does not declare.
pub fn check_declared_roles(rs: &[Role], roles: &[Role]) -> (r: Result<(), ValidationError>)
    ensures
        r == check_declared(rs@, roles@),
{
    proof {
        assert(rs@.subrange(0, rs@.len() as int) =~= rs@);
    }
    let mut i: usize = 0;
    while i < rs.len()
        invariant
            0 <= i <= rs.len(),
            check_declared(rs@, roles@) == check_declared(rs@.subrange(i as int, rs@.len() as int), roles@),
        decreases rs.len() - i,
    {
        proof {
            let rest = rs@.subrange(i as int, rs@.len() as int);
            assert(rest[0] == rs@[i as int]);
            assert(rest.subrange(1, rest.len() as int) =~= rs@.subrange(i + 1, rs@.len() as int));
        }
        if !contains_role(roles, &rs[i]) {
            return Err(ValidationError::UndefinedRole(rs[i].name.clone()));
        }
        i = i + 1;
    }
    proof {
        assert(rs@.subrange(i as int, rs@.len() as int).len() == 0);
    }
    Ok(())
}

/// Reports a choice whose branches do not all start with a send from `d`.
fn check_branch_heads(bs: &Vec<crate::protocol::Branch>, d: &Role) -> (r: Result<(), ValidationError>)
    ensures
        r == check_heads(bs@, *d),
{
    proof {
        assert(bs@.subrange(0, bs@.len() as int) =~= bs@);
    }
    let mut i: usize = 0;
    while i < bs.len()
        invariant
            0 <= i <= bs.len(),
            check_heads(bs@, *d) == check_heads(bs@.subrange(i as int, bs@.len() as int), *d),
        decreases bs.len() - i,
    {
        proof {
            let rest = bs@.subrange(i as int, bs@.len() as int);
            assert(rest[0] == bs@[i as int]);
            assert(rest.subrange(1, rest.len() as int) =~= bs@.subrange(i + 1, bs@.len() as int));
        }
        let headed = match &bs[i].protocol {
            Protocol::Send { from, .. } => from.same_as(d),
            _ => false,
        };
        if !headed {
            return Err(ValidationError::InvalidChoice(d.name.clone()));
        }
        i = i + 1;
    }
    proof {
        assert(bs@.subrange(i as int, bs@.len() as int).len() == 0);
    }
    Ok(())
}

/// Whether a label of `scope` has the text of `l`.
fn label_in_scope(scope: &Vec<String>, l: &String) -> (found: bool)
    ensures
        found == label_bound(scope@, *l),
{
    let mut i: usize = 0;
    while i < scope.len()
        invariant
            0 <= i <= scope.len(),
            forall|j: int| 0 <= j < i ==> (#[trigger] scope@[j])@ != l@,
        decreases scope.len() - i,
    {
        if scope[i] == *l {
            return true;
        }
        i = i + 1;
    }
    false
}

impl Protocol {
    /// Validates the protocol against the declared roles; see `check`.
    pub fn validate(&self, roles: &[Role]) -> (r: Result<(), ValidationError>)
        ensures
            r == check(*self, roles@, Seq::empty()),
    {
        let mut scope: Vec<String> = Vec::new();
        self.validate_in(roles, &mut scope)
    }

    /// Validates the protocol under the recursion labels of `scope`, which
    /// comes back unchanged.
    pub fn validate_in(&self, roles: &[Role], scope: &mut Vec<String>) -> (r: Result<(), ValidationError>)
        ensures
            r == check(*self, roles@, old(scope)@),
            final(scope)@ == old(scope)@,
        decreases self,
    {
        match self {
            Protocol::Send { from, to, continuation, .. } => {
                if !contains_role(roles, from) {
                    return Err(ValidationError::UndefinedRole(from.name.clone()));
                }
                if !contains_role(roles, to) {
                    return Err(ValidationError::UndefinedRole(to.name.clone()));
                }
                continuation.validate_in(roles, scope)
            },
            Protocol::Broadcast { from, to_all, continuation, .. } => {
                if !contains_role(roles, from) {
                    return Err(ValidationError::UndefinedRole(from.name.clone()));
                }
                let declared = check_declared_roles(to_all.as_slice(), roles);
                if declared.is_err() {
                    return declared;
                }
                continuation.validate_in(roles, scope)
            },
            Protocol::Choice { role, branches } => {
                if !contains_role(roles, role) {
                    return Err(ValidationError::UndefinedRole(role.name.clone()));
                }
                let heads = check_branch_heads(branches, role);
                if heads.is_err() {
                    return heads;
                }
                proof {
                    assert(branches@.subrange(0, branches@.len() as int) =~= branches@);
                }
                let mut i: usize = 0;
                while i < branches.len()
                    invariant
                        0 <= i <= branches.len(),
                        *self == (Protocol::Choice { role: *role, branches: *branches }),
                        check(*self, roles@, old(scope)@) == check_branches(branches@, roles@, old(scope)@),
                        scope@ == old(scope)@,
                        check_branches(branches@, roles@, old(scope)@) == check_branches(
                            branches@.subrange(i as int, branches@.len() as int),
                            roles@,
                            old(scope)@,
                        ),
                    decreases branches.len() - i,
                {
                    proof {
                        lemma_branch_decreases(*self, i as int);
                        let rest = branches@.subrange(i as int, branches@.len() as int);
                        assert(rest[0] == branches@[i as int]);
                        assert(rest.subrange(1, rest.len() as int) =~= branches@.subrange(
                            i + 1,
                            branches@.len() as int,
                        ));
                    }
                    let res = branches[i].protocol.validate_in(roles, scope);
                    if res.is_err() {
                        assert(check_branches(
                            branches@.subrange(i as int, branches@.len() as int),
                            roles@,
                            old(scope)@,
                        ) == res);
                        return res;
                    }
                    i = i + 1;
                }
                proof {
                    assert(branches@.subrange(i as int, branches@.len() as int).len() == 0);
                }
                Ok(())
            },
            Protocol::Loop { condition, body } => {
                if let Some(Condition::RoleDecides(r)) = condition {
                    if !contains_role(roles, r) {
                        return Err(ValidationError::UndefinedRole(r.name.clone()));
                    }
                }
                body.validate_in(roles, scope)
            },
            Protocol::Parallel { protocols } => {
                proof {
                    assert(protocols@.subrange(0, protocols@.len() as int) =~= protocols@);
                }
                let mut i: usize = 0;
                while i < protocols.len()
                    invariant
                        0 <= i <= protocols.len(),
                        *self == (Protocol::Parallel { protocols: *protocols }),
                        scope@ == old(scope)@,
                        check_all(protocols@, roles@, old(scope)@) == check_all(
                            protocols@.subrange(i as int, protocols@.len() as int),
                            roles@,
                            old(scope)@,
                        ),
                    decreases protocols.len() - i,
                {
                    proof {
                        lemma_child_decreases(*self, i as int);
                        let rest = protocols@.subrange(i as int, protocols@.len() as int);
                        assert(rest[0] == protocols@[i as int]);
                        assert(rest.subrange(1, rest.len() as int) =~= protocols@.subrange(
                            i + 1,
                            protocols@.len() as int,
                        ));
                    }
                    let res = protocols[i].validate_in(roles, scope);
                    if res.is_err() {
                        return res;
                    }
                    i = i + 1;
                }
                proof {
                    assert(protocols@.subrange(i as int, protocols@.len() as int).len() == 0);
                }
                Ok(())
            },
            Protocol::Rec { label, body } => {
                scope.push(label.clone());
                let res = body.validate_in(roles, scope);
                scope.pop();
                proof {
                    assert(scope@ =~= old(scope)@);
                }
                res
            },
            Protocol::Var(l) => {
                if label_in_scope(scope, l) {
                    Ok(())
                } else {
                    Err(ValidationError::UnboundVariable(l.clone()))
                }
            },
            Protocol::End => Ok(()),
        }
    }
}

/// The first declared role that the protocol never mentions, reported as an error.
pub open spec fn check_used(rs: Seq<Role>, p: Protocol) -> Result<(), ValidationError>
    decreases rs.len(),
{
    if rs.len() == 0 {
        Ok(())
    } else if !mentions(p, rs[0]@) {
        Err(ValidationError::UnusedRole(rs[0].name))
    } else {
        check_used(rs.subrange(1, rs.len() as int), p)
    }
}

/// Validation of a whole choreography: first every declared role must be
/// used, then the protocol is checked against the declared roles.
pub open spec fn valid_result(c: Choreography) -> Result<(), ValidationError> {
    if check_used(c.roles@, c.protocol) is Err {
        check_used(c.roles@, c.protocol)
    } else {
        check(c.protocol, c.roles@, Seq::empty())
    }
}

impl Choreography {
    /// Validates the choreography; see `valid_result`.
    pub fn validate(&self) -> (r: Result<(), ValidationError>)
        ensures
            r == valid_result(*self),
    {
        proof {
            assert(self.roles@.subrange(0, self.roles@.len() as int) =~= self.roles@);
        }
        let mut i: usize = 0;
        while i < self.roles.len()
            invariant
                0 <= i <= self.roles.len(),
                check_used(self.roles@, self.protocol) == check_used(
                    self.roles@.subrange(i as int, self.roles@.len() as int),
                    self.protocol,
                ),
            decreases self.roles.len() - i,
        {
            proof {
                let rest = self.roles@.subrange(i as int, self.roles@.len() as int);
                assert(rest[0] == self.roles@[i as int]);
                assert(rest.subrange(1, rest.len() as int) =~= self.roles@.subrange(
                    i + 1,
                    self.roles@.len() as int,
                ));
            }
            if !self.protocol.mentions_role(&self.roles[i]) {
                return Err(ValidationError::UnusedRole(self.roles[i].name.clone()));
            }
            i = i + 1;
        }
        proof {
            assert(self.roles@.subrange(i as int, self.roles@.len() as int).len() == 0);
        }
        self.protocol.validate(self.roles.as_slice())
    }
}

} // verus!
