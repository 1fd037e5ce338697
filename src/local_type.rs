//! Local types: the program that one role runs.

use vstd::prelude::*;
use crate::message::MessageType;
use crate::protocol::Condition;
use crate::role::{Role, RoleView};

verus! {

/// A role-local session type.
#[derive(Debug)]
pub enum LocalType {
    /// Send `message` to `to`, then `continuation`.
    Send { to: Role, message: MessageType, continuation: Box<LocalType> },
    /// Receive `message` from `from`, then `continuation`.
    Receive { from: Role, message: MessageType, continuation: Box<LocalType> },
    /// Choose a branch and tell `to` which one.
    Select { to: Role, branches: Vec<(String, LocalType)> },
    /// Learn from `from` which branch was chosen.
    Branch { from: Role, branches: Vec<(String, LocalType)> },
    /// Choose a branch without telling anyone.
    LocalChoice { branches: Vec<(String, LocalType)> },
    /// `body`, repeated as `condition` says.
    Loop { condition: Option<Condition>, body: Box<LocalType> },
    /// A recursion scope binding `label` within `body`.
    Rec { label: String, body: Box<LocalType> },
    /// A jump back to the enclosing `Rec` of that label.
    Var(String),
    /// Termination.
    End,
}

/// Mathematical value of a loop condition.
pub ghost enum CondView {
    RoleDecides(RoleView),
    Count(usize),
    Custom(Seq<char>),
}

pub open spec fn cond_view(c: Option<Condition>) -> Option<CondView> {
    match c {
        None => None,
        Some(Condition::RoleDecides(r)) => Some(CondView::RoleDecides(r@)),
        Some(Condition::Count(n)) => Some(CondView::Count(n)),
        Some(Condition::Custom(t)) => Some(CondView::Custom(t@)),
    }
}

/// Mathematical value of a local type: the constructor tree with roles as
/// their identity, messages as their name (payloads play no part), labels as
/// text and loop conditions as values. Two local types are structurally equal
/// exactly when their views are equal.
pub ghost enum LocalSpec {
    Send { to: RoleView, msg: Seq<char>, cont: Box<LocalSpec> },
    Receive { from: RoleView, msg: Seq<char>, cont: Box<LocalSpec> },
    Select { to: RoleView, arms: Seq<(Seq<char>, LocalSpec)> },
    Branch { from: RoleView, arms: Seq<(Seq<char>, LocalSpec)> },
    LocalChoice { arms: Seq<(Seq<char>, LocalSpec)> },
    Loop { cond: Option<CondView>, body: Box<LocalSpec> },
    Rec { label: Seq<char>, body: Box<LocalSpec> },
    Var(Seq<char>),
    End,
}

/// The view of a local type.
pub open spec fn local_view(l: LocalType) -> LocalSpec
    decreases l,
{
    match l {
        LocalType::Send { to, message, continuation } => LocalSpec::Send {
            to: to@,
            msg: message.name@,
            cont: Box::new(local_view(*continuation)),
        },
        LocalType::Receive { from, message, continuation } => LocalSpec::Receive {
            from: from@,
            msg: message.name@,
            cont: Box::new(local_view(*continuation)),
        },
        LocalType::Select { to, branches } => LocalSpec::Select { to: to@, arms: arms_view(branches@) },
        LocalType::Branch { from, branches } => LocalSpec::Branch {
            from: from@,
            arms: arms_view(branches@),
        },
        LocalType::LocalChoice { branches } => LocalSpec::LocalChoice { arms: arms_view(branches@) },
        LocalType::Loop { condition, body } => LocalSpec::Loop {
            cond: cond_view(condition),
            body: Box::new(local_view(*body)),
        },
        LocalType::Rec { label, body } => LocalSpec::Rec {
            label: label@,
            body: Box::new(local_view(*body)),
        },
        LocalType::Var(l) => LocalSpec::Var(l@),
        LocalType::End => LocalSpec::End,
    }
}

/// The views of labelled alternatives, in order.
pub open spec fn arms_view(s: Seq<(String, LocalType)>) -> Seq<(Seq<char>, LocalSpec)>
    decreases s,
{
    if s.len() == 0 {
        Seq::empty()
    } else {
        arms_view(s.subrange(0, s.len() - 1)).push(
            (s[s.len() - 1].0@, local_view(s[s.len() - 1].1)),
        )
    }
}

pub proof fn lemma_arms_view(s: Seq<(String, LocalType)>)
    ensures
        arms_view(s).len() == s.len(),
        forall|i: int|
            0 <= i < s.len() ==> #[trigger] arms_view(s)[i] == (s[i].0@, local_view(s[i].1)),
    decreases s.len(),
{
    if s.len() > 0 {
        let init = s.subrange(0, s.len() - 1);
        lemma_arms_view(init);
        assert forall|i: int| 0 <= i < s.len() implies #[trigger] arms_view(s)[i] == (
            s[i].0@,
            local_view(s[i].1),
        ) by {
            if i < s.len() - 1 {
                assert(init[i] == s[i]);
            }
        }
    }
}

impl View for LocalType {
    type V = LocalSpec;

    open spec fn view(&self) -> LocalSpec {
        local_view(*self)
    }
}

/// The labelled alternatives of a `Select`, `Branch` or `LocalChoice`.
pub open spec fn choice_arms(l: LocalType) -> Vec<(String, LocalType)>
    recommends
        l is Select || l is Branch || l is LocalChoice,
{
    match l {
        LocalType::Select { branches, .. } => branches,
        LocalType::Branch { branches, .. } => branches,
        LocalType::LocalChoice { branches } => branches,
        _ => arbitrary(),
    }
}

/// An alternative of a choice is smaller than the choice.
pub proof fn lemma_arm_decreases(l: LocalType, i: int)
    requires
        l is Select || l is Branch || l is LocalChoice,
        0 <= i < choice_arms(l).len(),
    ensures
        decreases_to!(l => choice_arms(l)@[i].1),
{
    let bs = choice_arms(l);
    assert(decreases_to!(l => bs));
    assert(decreases_to!(bs => bs@));
    assert(decreases_to!(bs@ => bs@[i]));
    assert(decreases_to!(bs@[i] => bs@[i].1));
}


/// Loop conditions compared by value.
pub fn condition_eq(a: &Option<Condition>, b: &Option<Condition>) -> (r: bool)
    ensures
        r == (cond_view(*a) == cond_view(*b)),
{
    match (a, b) {
        (None, None) => true,
        (Some(Condition::Count(n)), Some(Condition::Count(m))) => *n == *m,
        (Some(Condition::RoleDecides(x)), Some(Condition::RoleDecides(y))) => x.same_as(y),
        (Some(Condition::Custom(x)), Some(Condition::Custom(y))) => *x == *y,
        _ => false,
    }
}

/// Compares the alternatives `x` of the choice `a` with the alternatives `y`,
/// arm by arm.
fn arms_eq(a: &LocalType, x: &Vec<(String, LocalType)>, y: &Vec<(String, LocalType)>) -> (r: bool)
    requires
        a is Select || a is Branch || a is LocalChoice,
        *x == choice_arms(*a),
    ensures
        r == (arms_view(x@) == arms_view(y@)),
    decreases a, 0nat,
{
    proof {
        lemma_arms_view(x@);
        lemma_arms_view(y@);
    }
    if x.len() != y.len() {
        return false;
    }
    let mut i: usize = 0;
    while i < x.len()
        invariant
            0 <= i <= x.len(),
            x.len() == y.len(),
            a is Select || a is Branch || a is LocalChoice,
            *x == choice_arms(*a),
            arms_view(x@).len() == x.len(),
            arms_view(y@).len() == y.len(),
            forall|j: int| 0 <= j < x.len() ==> #[trigger] arms_view(x@)[j] == (x@[j].0@, local_view(x@[j].1)),
            forall|j: int| 0 <= j < y.len() ==> #[trigger] arms_view(y@)[j] == (y@[j].0@, local_view(y@[j].1)),
            forall|j: int| 0 <= j < i ==> #[trigger] arms_view(x@)[j] == arms_view(y@)[j],
        decreases x.len() - i,
    {
        proof {
            lemma_arm_decreases(*a, i as int);
        }
        let same_label = x[i].0 == y[i].0;
        if !same_label {
            assert(arms_view(x@)[i as int] != arms_view(y@)[i as int]);
            return false;
        }
        let same_arm = local_type_eq(&x[i].1, &y[i].1);
        if !same_arm {
            assert(arms_view(x@)[i as int] != arms_view(y@)[i as int]);
            return false;
        }
        i = i + 1;
    }
    assert(arms_view(x@) =~= arms_view(y@));
    true
}

/// Structural equality of local types: equality of their views.
pub fn local_type_eq(a: &LocalType, b: &LocalType) -> (r: bool)
    ensures
        r == (a@ == b@),
    decreases a, 1nat,
{
    match (a, b) {
        (LocalType::End, LocalType::End) => true,
        (LocalType::Var(x), LocalType::Var(y)) => *x == *y,
        (
            LocalType::Send { to: t1, message: m1, continuation: k1 },
            LocalType::Send { to: t2, message: m2, continuation: k2 },
        ) => t1.same_as(t2) && m1.name == m2.name && local_type_eq(k1, k2),
        (
            LocalType::Receive { from: f1, message: m1, continuation: k1 },
            LocalType::Receive { from: f2, message: m2, continuation: k2 },
        ) => f1.same_as(f2) && m1.name == m2.name && local_type_eq(k1, k2),
        (LocalType::Select { to: t1, branches: b1 }, LocalType::Select { to: t2, branches: b2 }) => {
            t1.same_as(t2) && arms_eq(a, b1, b2)
        },
        (
            LocalType::Branch { from: f1, branches: b1 },
            LocalType::Branch { from: f2, branches: b2 },
        ) => f1.same_as(f2) && arms_eq(a, b1, b2),
        (LocalType::LocalChoice { branches: b1 }, LocalType::LocalChoice { branches: b2 }) => {
            arms_eq(a, b1, b2)
        },
        (
            LocalType::Loop { condition: c1, body: x1 },
            LocalType::Loop { condition: c2, body: x2 },
        ) => condition_eq(c1, c2) && local_type_eq(x1, x2),
        (LocalType::Rec { label: l1, body: x1 }, LocalType::Rec { label: l2, body: x2 }) => {
            *l1 == *l2 && local_type_eq(x1, x2)
        },
        _ => false,
    }
}

/// Every variable of `l` is bound by an enclosing `Rec`, the labels of `scope`
/// counting as bound.
pub open spec fn well_formed(l: LocalType, scope: Seq<String>) -> bool
    decreases l,
{
    match l {
        LocalType::Send { continuation, .. } => well_formed(*continuation, scope),
        LocalType::Receive { continuation, .. } => well_formed(*continuation, scope),
        LocalType::Select { branches, .. } => forall|i: int|
            0 <= i < branches.len() ==> well_formed((#[trigger] branches@[i]).1, scope),
        LocalType::Branch { branches, .. } => forall|i: int|
            0 <= i < branches.len() ==> well_formed((#[trigger] branches@[i]).1, scope),
        LocalType::LocalChoice { branches } => forall|i: int|
            0 <= i < branches.len() ==> well_formed((#[trigger] branches@[i]).1, scope),
        LocalType::Loop { body, .. } => well_formed(*body, scope),
        LocalType::Rec { label, body } => well_formed(*body, scope.push(label)),
        LocalType::Var(x) => exists|i: int| 0 <= i < scope.len() && (#[trigger] scope[i])@ == x@,
        LocalType::End => true,
    }
}

impl LocalType {
    /// Whether every variable is bound by an enclosing `Rec`.
    pub fn is_well_formed(&self) -> (b: bool)
        ensures
            b == well_formed(*self, Seq::empty()),
    {
        let mut rec_vars: Vec<String> = Vec::new();
        self.check_well_formed(&mut rec_vars)
    }

    /// Whether every variable is bound by an enclosing `Rec` or by a label of
    /// `rec_vars`, which comes back unchanged.
    pub fn check_well_formed(&self, rec_vars: &mut Vec<String>) -> (b: bool)
        ensures
            b == well_formed(*self, old(rec_vars)@),
            final(rec_vars)@ == old(rec_vars)@,
        decreases self,
    {
        match self {
            LocalType::Send { continuation, .. } => continuation.check_well_formed(rec_vars),
            LocalType::Receive { continuation, .. } => continuation.check_well_formed(rec_vars),
            LocalType::Select { branches, .. } => self.arms_well_formed(branches, rec_vars),
            LocalType::Branch { branches, .. } => self.arms_well_formed(branches, rec_vars),
            LocalType::LocalChoice { branches } => self.arms_well_formed(branches, rec_vars),
            LocalType::Loop { body, .. } => body.check_well_formed(rec_vars),
            LocalType::Rec { label, body } => {
                rec_vars.push(label.clone());
                let res = body.check_well_formed(rec_vars);
                rec_vars.pop();
                proof {
                    assert(rec_vars@ =~= old(rec_vars)@);
                }
                res
            },
            LocalType::Var(x) => {
                let mut i: usize = 0;
                while i < rec_vars.len()
                    invariant
                        0 <= i <= rec_vars.len(),
                        rec_vars@ == old(rec_vars)@,
                        *self == LocalType::Var(*x),
                        forall|j: int| 0 <= j < i ==> (#[trigger] rec_vars@[j])@ != x@,
                    decreases rec_vars.len() - i,
                {
                    if rec_vars[i] == *x {
                        assert(rec_vars@[i as int]@ == x@);
                        return true;
                    }
                    i = i + 1;
                }
                false
            },
            LocalType::End => true,
        }
    }

    fn arms_well_formed(&self, arms: &Vec<(String, LocalType)>, rec_vars: &mut Vec<String>) -> (b: bool)
        requires
            self is Select || self is Branch || self is LocalChoice,
            *arms == choice_arms(*self),
        ensures
            b == (forall|i: int| 0 <= i < arms.len() ==> well_formed((#[trigger] arms@[i]).1, old(rec_vars)@)),
            final(rec_vars)@ == old(rec_vars)@,
        decreases self, 0nat,
    {
        let mut i: usize = 0;
        while i < arms.len()
            invariant
                0 <= i <= arms.len(),
                self is Select || self is Branch || self is LocalChoice,
                *arms == choice_arms(*self),
                rec_vars@ == old(rec_vars)@,
                forall|j: int| 0 <= j < i ==> well_formed((#[trigger] arms@[j]).1, old(rec_vars)@),
            decreases arms.len() - i,
        {
            proof {
                lemma_arm_decreases(*self, i as int);
            }
            if !arms[i].1.check_well_formed(rec_vars) {
                return false;
            }
            i = i + 1;
        }
        true
    }
}

impl PartialEq for LocalType {
    fn eq(&self, other: &LocalType) -> (r: bool) {
        local_type_eq(self, other)
    }
}

impl vstd::std_specs::cmp::PartialEqSpecImpl for LocalType {
    open spec fn obeys_eq_spec() -> bool {
        true
    }

    open spec fn eq_spec(&self, other: &LocalType) -> bool {
        self@ == other@
    }
}

impl Eq for LocalType {}

} // verus!
