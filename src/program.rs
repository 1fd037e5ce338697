//! A role's execution as data: a sequence of effects that any handler can
//! interpret, and that can be inspected before it runs.

use vstd::prelude::*;
use crate::handler::Label;

verus! {

/// One effect of a program. Durations are in milliseconds.
#[verifier::reject_recursive_types(R)]
#[verifier::reject_recursive_types(M)]
#[derive(Debug)]
pub enum Effect<R, M> {
    Send { to: R, msg: M },
    Recv { from: R },
    Choose { at: R, label: Label },
    Offer { from: R },
    Parallel { programs: Vec<Program<R, M>> },
    WithTimeout { at: R, duration_ms: u64, body: Box<Program<R, M>> },
    End,
}

/// A sequence of effects, built front to back.
#[verifier::reject_recursive_types(R)]
#[verifier::reject_recursive_types(M)]
#[derive(Debug)]
pub struct Program<R, M> {
    effects: Vec<Effect<R, M>>,
}

/// The number of sends in `s`.
pub open spec fn sends_in<R, M>(s: Seq<Effect<R, M>>) -> nat
    decreases s.len(),
{
    if s.len() == 0 {
        0
    } else {
        sends_in(s.subrange(0, s.len() - 1)) + if s[s.len() - 1] is Send {
            1nat
        } else {
            0nat
        }
    }
}

/// The number of receives in `s`.
pub open spec fn recvs_in<R, M>(s: Seq<Effect<R, M>>) -> nat
    decreases s.len(),
{
    if s.len() == 0 {
        0
    } else {
        recvs_in(s.subrange(0, s.len() - 1)) + if s[s.len() - 1] is Recv {
            1nat
        } else {
            0nat
        }
    }
}

impl<R, M> Program<R, M> {
    pub closed spec fn effect_seq(&self) -> Seq<Effect<R, M>> {
        self.effects@
    }

    pub fn new() -> (p: Program<R, M>)
        ensures
            p.effect_seq() == Seq::<Effect<R, M>>::empty(),
    {
        Program { effects: Vec::new() }
    }

    fn followed_by(self, e: Effect<R, M>) -> (p: Program<R, M>)
        ensures
            p.effect_seq() == self.effect_seq().push(e),
    {
        let mut effects = self.effects;
        effects.push(e);
        Program { effects }
    }

    pub fn send(self, to: R, msg: M) -> (p: Program<R, M>)
        ensures
            p.effect_seq() == self.effect_seq().push(Effect::Send { to, msg }),
    {
        self.followed_by(Effect::Send { to, msg })
    }

    /// Receives a message of type `T` from `from`.
    pub fn recv<T>(self, from: R) -> (p: Program<R, M>)
        ensures
            p.effect_seq() == self.effect_seq().push(Effect::Recv { from }),
    {
        self.followed_by(Effect::Recv { from })
    }

    pub fn choose_branch(self, at: R, label: Label) -> (p: Program<R, M>)
        ensures
            p.effect_seq() == self.effect_seq().push(Effect::Choose { at, label }),
    {
        self.followed_by(Effect::Choose { at, label })
    }

    pub fn offer(self, from: R) -> (p: Program<R, M>)
        ensures
            p.effect_seq() == self.effect_seq().push(Effect::Offer { from }),
    {
        self.followed_by(Effect::Offer { from })
    }

    pub fn with_timeout(self, at: R, duration_ms: u64, body: Program<R, M>) -> (p: Program<R, M>)
        ensures
            p.effect_seq() == self.effect_seq().push(
                Effect::WithTimeout { at, duration_ms, body: Box::new(body) },
            ),
    {
        self.followed_by(Effect::WithTimeout { at, duration_ms, body: Box::new(body) })
    }

    pub fn parallel(self, programs: Vec<Program<R, M>>) -> (p: Program<R, M>)
        ensures
            p.effect_seq() == self.effect_seq().push(Effect::Parallel { programs }),
    {
        self.followed_by(Effect::Parallel { programs })
    }

    pub fn end(self) -> (p: Program<R, M>)
        ensures
            p.effect_seq() == self.effect_seq().push(Effect::End),
    {
        self.followed_by(Effect::End)
    }

    pub fn effects(&self) -> (r: &Vec<Effect<R, M>>)
        ensures
            r@ == self.effect_seq(),
    {
        &self.effects
    }

    /// The number of sends among the program's own effects.
    pub fn send_count(&self) -> (n: usize)
        ensures
            n == sends_in(self.effect_seq()),
    {
        let mut n: usize = 0;
        let mut i: usize = 0;
        while i < self.effects.len()
            invariant
                0 <= i <= self.effects.len(),
                n <= i,
                n == sends_in(self.effects@.subrange(0, i as int)),
            decreases self.effects.len() - i,
        {
            proof {
                assert(self.effects@.subrange(0, i + 1).subrange(0, i as int) =~= self.effects@.subrange(0, i as int));
            }
            if let Effect::Send { .. } = &self.effects[i] {
                n = n + 1;
            }
            i = i + 1;
        }
        proof {
            assert(self.effects@.subrange(0, i as int) =~= self.effects@);
        }
        n
    }

    /// The number of receives among the program's own effects.
    pub fn recv_count(&self) -> (n: usize)
        ensures
            n == recvs_in(self.effect_seq()),
    {
        let mut n: usize = 0;
        let mut i: usize = 0;
        while i < self.effects.len()
            invariant
                0 <= i <= self.effects.len(),
                n <= i,
                n == recvs_in(self.effects@.subrange(0, i as int)),
            decreases self.effects.len() - i,
        {
            proof {
                assert(self.effects@.subrange(0, i + 1).subrange(0, i as int) =~= self.effects@.subrange(0, i as int));
            }
            if let Effect::Recv { .. } = &self.effects[i] {
                n = n + 1;
            }
            i = i + 1;
        }
        proof {
            assert(self.effects@.subrange(0, i as int) =~= self.effects@);
        }
        n
    }

    /// Whether one of the program's own effects is a timeout scope.
    pub fn has_timeouts(&self) -> (b: bool)
        ensures
            b == exists|i: int| 0 <= i < self.effect_seq().len() && #[trigger] self.effect_seq()[i] is WithTimeout,
    {
        let mut i: usize = 0;
        while i < self.effects.len()
            invariant
                0 <= i <= self.effects.len(),
                forall|j: int| 0 <= j < i ==> !(#[trigger] self.effects@[j] is WithTimeout),
            decreases self.effects.len() - i,
        {
            if let Effect::WithTimeout { .. } = &self.effects[i] {
                assert(self.effect_seq()[i as int] is WithTimeout);
                return true;
            }
            i = i + 1;
        }
        false
    }

    /// Whether one of the program's own effects is a parallel composition.
    pub fn has_parallel(&self) -> (b: bool)
        ensures
            b == exists|i: int| 0 <= i < self.effect_seq().len() && #[trigger] self.effect_seq()[i] is Parallel,
    {
        let mut i: usize = 0;
        while i < self.effects.len()
            invariant
                0 <= i <= self.effects.len(),
                forall|j: int| 0 <= j < i ==> !(#[trigger] self.effects@[j] is Parallel),
            decreases self.effects.len() - i,
        {
            if let Effect::Parallel { .. } = &self.effects[i] {
                assert(self.effect_seq()[i as int] is Parallel);
                return true;
            }
            i = i + 1;
        }
        false
    }
}

} // verus!
