//! A handler that performs nothing and records every operation it is asked
//! for, so that tests can check what a role would do.

use vstd::prelude::*;
use crate::handler::{ChoreographyError, Label};

verus! {

/// One recorded operation.
#[derive(Debug)]
pub enum RecordedEvent<R> {
    Send { from: R, to: R, msg_type: String },
    Recv { from: R, to: R, msg_type: String },
    Choose { at: R, label: Label },
    Offer { from: R, to: R },
}

impl<R: Copy> RecordedEvent<R> {
    /// A copy with every field kept.
    pub fn copy(&self) -> (r: RecordedEvent<R>)
        ensures
            r == *self,
    {
        match self {
            RecordedEvent::Send { from, to, msg_type } => RecordedEvent::Send {
                from: *from,
                to: *to,
                msg_type: msg_type.clone(),
            },
            RecordedEvent::Recv { from, to, msg_type } => RecordedEvent::Recv {
                from: *from,
                to: *to,
                msg_type: msg_type.clone(),
            },
            RecordedEvent::Choose { at, label } => RecordedEvent::Choose { at: *at, label: *label },
            RecordedEvent::Offer { from, to } => RecordedEvent::Offer { from: *from, to: *to },
        }
    }
}

/// Records the operations of role `role`; receiving and offering cannot
/// produce values and fail after being recorded.
pub struct RecordingHandler<R> {
    events: Vec<RecordedEvent<R>>,
    role: R,
}

impl<R: Copy> RecordingHandler<R> {
    /// The operations recorded so far, oldest first.
    pub closed spec fn log(&self) -> Seq<RecordedEvent<R>> {
        self.events@
    }

    pub closed spec fn role_of(&self) -> R {
        self.role
    }

    pub fn new(role: R) -> (h: RecordingHandler<R>)
        ensures
            h.log() == Seq::<RecordedEvent<R>>::empty(),
            h.role_of() == role,
    {
        RecordingHandler { events: Vec::new(), role }
    }

    /// A copy of the recorded operations, oldest first.
    pub fn events(&self) -> (r: Vec<RecordedEvent<R>>)
        ensures
            r@ == self.log(),
    {
        let mut out: Vec<RecordedEvent<R>> = Vec::new();
        let mut i: usize = 0;
        while i < self.events.len()
            invariant
                0 <= i <= self.events.len(),
                out@ == self.events@.subrange(0, i as int),
            decreases self.events.len() - i,
        {
            out.push(self.events[i].copy());
            i = i + 1;
            assert(out@ =~= self.events@.subrange(0, i as int));
        }
        assert(self.events@.subrange(0, i as int) =~= self.events@);
        out
    }

    /// Forgets every recorded operation.
    pub fn clear(&mut self)
        ensures
            final(self).log() == Seq::<RecordedEvent<R>>::empty(),
            final(self).role_of() == old(self).role_of(),
    {
        self.events = Vec::new();
    }

    /// Records a send of a message of type `msg_type` to `to`.
    pub fn send(&mut self, to: R, msg_type: String) -> (r: Result<(), ChoreographyError>)
        ensures
            final(self).log() == old(self).log().push(
                RecordedEvent::Send { from: old(self).role_of(), to, msg_type },
            ),
            final(self).role_of() == old(self).role_of(),
            r is Ok,
    {
        let from = self.role;
        self.events.push(RecordedEvent::Send { from, to, msg_type });
        Ok(())
    }

    /// Records a receive of a message of type `msg_type` from `from`, then
    /// fails: no value can be produced.
    pub fn recv(&mut self, from: R, msg_type: String) -> (r: Result<(), ChoreographyError>)
        ensures
            final(self).log() == old(self).log().push(
                RecordedEvent::Recv { from, to: old(self).role_of(), msg_type },
            ),
            final(self).role_of() == old(self).role_of(),
            r matches Err(ChoreographyError::Transport(m)) && m@ == "RecordingHandler cannot produce values"@,
    {
        let to = self.role;
        self.events.push(RecordedEvent::Recv { from, to, msg_type });
        proof {
            reveal_strlit("RecordingHandler cannot produce values");
        }
        Err(ChoreographyError::Transport("RecordingHandler cannot produce values".to_owned()))
    }

    /// Records the choice of `label` at `at`.
    pub fn choose_branch(&mut self, at: R, label: Label) -> (r: Result<(), ChoreographyError>)
        ensures
            final(self).log() == old(self).log().push(RecordedEvent::Choose { at, label }),
            final(self).role_of() == old(self).role_of(),
            r is Ok,
    {
        self.events.push(RecordedEvent::Choose { at, label });
        Ok(())
    }

    /// Records waiting for a label from `from`, then fails: no label can be
    /// produced.
    pub fn offer(&mut self, from: R) -> (r: Result<Label, ChoreographyError>)
        ensures
            final(self).log() == old(self).log().push(RecordedEvent::Offer { from, to: old(self).role_of() }),
            final(self).role_of() == old(self).role_of(),
            r matches Err(ChoreographyError::Transport(m)) && m@ == "RecordingHandler cannot produce labels"@,
    {
        let to = self.role;
        self.events.push(RecordedEvent::Offer { from, to });
        proof {
            reveal_strlit("RecordingHandler cannot produce labels");
        }
        Err(ChoreographyError::Transport("RecordingHandler cannot produce labels".to_owned()))
    }
}

} // verus!
