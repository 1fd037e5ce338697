//! Per-peer channels and session metadata of a role's endpoint, under the
//! channel-take discipline: an operation takes a peer's channel out, acts on
//! it and puts it back, so at most one operation uses a channel at a time.

use vstd::prelude::*;
use crate::role::{Role, RoleView};
use crate::role_map::RoleMap;

verus! {

/// What is known of the session with one peer.
#[derive(Debug)]
pub struct SessionMetadata {
    /// The last operation performed, or the state the session is in.
    pub state_description: String,
    pub is_complete: bool,
    /// The number of operations performed on the session.
    pub operation_count: usize,
}

/// The metadata of a fresh session.
pub open spec fn initial_metadata(m: SessionMetadata) -> bool {
    &&& m.state_description@ == "Initial"@
    &&& !m.is_complete
    &&& m.operation_count == 0
}

/// `n` is `m` marked broken: its channel was lost in a cancelled operation.
pub open spec fn broken_from(m: SessionMetadata, n: SessionMetadata) -> bool {
    &&& n.state_description@ == "Broken"@
    &&& n.operation_count == m.operation_count
    &&& n.is_complete == m.is_complete
}

impl SessionMetadata {
    pub fn initial() -> (m: SessionMetadata)
        ensures
            initial_metadata(m),
    {
        proof {
            reveal_strlit("Initial");
        }
        SessionMetadata { state_description: "Initial".to_owned(), is_complete: false, operation_count: 0 }
    }

    /// A copy with every field kept.
    pub fn copy(&self) -> (r: SessionMetadata)
        ensures
            r == *self,
    {
        SessionMetadata {
            state_description: self.state_description.clone(),
            is_complete: self.is_complete,
            operation_count: self.operation_count,
        }
    }

    /// Records one more operation, described by `description`.
    pub fn mark_operation(&mut self, description: &str)
        requires
            old(self).operation_count < usize::MAX,
        ensures
            final(self).operation_count == old(self).operation_count + 1,
            final(self).state_description@ == description@,
            final(self).is_complete == old(self).is_complete,
    {
        self.operation_count = self.operation_count + 1;
        self.state_description = description.to_owned();
    }

    /// Marks the session complete.
    pub fn mark_complete(&mut self)
        ensures
            final(self).is_complete,
            final(self).state_description@ == "Complete"@,
            final(self).operation_count == old(self).operation_count,
    {
        proof {
            reveal_strlit("Complete");
        }
        self.is_complete = true;
        self.state_description = "Complete".to_owned();
    }

    /// Marks the session broken: its channel was lost in a cancelled operation.
    pub fn mark_broken(&mut self)
        ensures
            broken_from(*old(self), *final(self)),
    {
        proof {
            reveal_strlit("Broken");
        }
        self.state_description = "Broken".to_owned();
    }
}

impl Default for SessionMetadata {
    fn default() -> (m: SessionMetadata)
        ensures
            initial_metadata(m),
    {
        SessionMetadata::initial()
    }
}

/// A peer's channel together with the metadata of its session.
pub struct SessionState<C> {
    channel: C,
    metadata: SessionMetadata,
}

impl<C> SessionState<C> {
    pub closed spec fn channel_value(&self) -> C {
        self.channel
    }

    pub closed spec fn metadata_value(&self) -> SessionMetadata {
        self.metadata
    }

    /// A fresh session over `channel`.
    pub fn new(channel: C) -> (s: SessionState<C>)
        ensures
            s.channel_value() == channel,
            initial_metadata(s.metadata_value()),
    {
        SessionState { channel, metadata: SessionMetadata::initial() }
    }

    pub fn with_metadata(channel: C, metadata: SessionMetadata) -> (s: SessionState<C>)
        ensures
            s.channel_value() == channel,
            s.metadata_value() == metadata,
    {
        SessionState { channel, metadata }
    }

    pub fn metadata(&self) -> (m: &SessionMetadata)
        ensures
            *m == self.metadata_value(),
    {
        &self.metadata
    }

    pub fn channel(&self) -> (c: &C)
        ensures
            *c == self.channel_value(),
    {
        &self.channel
    }

    /// Hands the channel back, ending the session state.
    pub fn into_channel(self) -> (c: C)
        ensures
            c == self.channel_value(),
    {
        self.channel
    }

    /// Replaces the metadata by what `f` makes of it.
    pub fn update_metadata<F: FnOnce(SessionMetadata) -> SessionMetadata>(&mut self, f: F)
        requires
            f.requires((old(self).metadata_value(),)),
        ensures
            f.ensures((old(self).metadata_value(),), final(self).metadata_value()),
            final(self).channel_value() == old(self).channel_value(),
    {
        let mut m = SessionMetadata::initial();
        std::mem::swap(&mut m, &mut self.metadata);
        self.metadata = f(m);
    }

    /// Records one more operation, described by `description`.
    pub fn mark_operation(&mut self, description: &str)
        requires
            old(self).metadata_value().operation_count < usize::MAX,
        ensures
            final(self).metadata_value().operation_count == old(self).metadata_value().operation_count + 1,
            final(self).metadata_value().state_description@ == description@,
            final(self).metadata_value().is_complete == old(self).metadata_value().is_complete,
            final(self).channel_value() == old(self).channel_value(),
    {
        self.metadata.mark_operation(description);
    }

    pub fn mark_complete(&mut self)
        ensures
            final(self).metadata_value().is_complete,
            final(self).metadata_value().state_description@ == "Complete"@,
            final(self).metadata_value().operation_count == old(self).metadata_value().operation_count,
            final(self).channel_value() == old(self).channel_value(),
    {
        self.metadata.mark_complete();
    }
}

/// The metadata `m` after one more operation described by `d`.
pub open spec fn after_operation(m: SessionMetadata, n: SessionMetadata, d: Seq<char>) -> bool {
    &&& n.operation_count == m.operation_count + 1
    &&& n.state_description@ == d
    &&& n.is_complete == m.is_complete
}

/// Channels and session metadata of each peer, keyed by role.
pub struct SessionChannelBundle<C> {
    channels: RoleMap<C>,
    session_metadata: RoleMap<SessionMetadata>,
}

impl<C> SessionChannelBundle<C> {
    pub closed spec fn wf(&self) -> bool {
        self.channels.wf() && self.session_metadata.wf()
    }

    /// The registered channels, by peer.
    pub closed spec fn channel_view(&self) -> Map<RoleView, C> {
        self.channels.view()
    }

    /// The session metadata, by peer.
    pub closed spec fn meta_view(&self) -> Map<RoleView, SessionMetadata> {
        self.session_metadata.view()
    }

    /// The number of sessions with metadata.
    pub closed spec fn meta_count(&self) -> nat {
        self.session_metadata.size()
    }

    pub fn new() -> (b: SessionChannelBundle<C>)
        ensures
            b.wf(),
            b.channel_view() == Map::<RoleView, C>::empty(),
            b.meta_view() == Map::<RoleView, SessionMetadata>::empty(),
            b.meta_count() == 0,
    {
        SessionChannelBundle { channels: RoleMap::new(), session_metadata: RoleMap::new() }
    }

    /// Registers `channel` for `role`, with fresh session metadata.
    pub fn register(&mut self, role: Role, channel: C)
        requires
            old(self).wf(),
        ensures
            final(self).wf(),
            final(self).channel_view() == old(self).channel_view().insert(role@, channel),
            final(self).meta_view().dom() == old(self).meta_view().dom().insert(role@),
            initial_metadata(final(self).meta_view()[role@]),
            forall|k: RoleView| k != role@ ==> #[trigger] final(self).meta_view().contains_key(k) ==> final(self).meta_view()[k] == old(self).meta_view()[k],
    {
        let key = role.copy();
        self.channels.insert(role, channel);
        let m = SessionMetadata::initial();
        let ghost mv = m;
        self.session_metadata.insert(key, m);
        proof {
            assert(self.meta_view()[role@] == mv);
        }
    }

    /// Registers `channel` for `role`, with the given session metadata.
    pub fn register_with_metadata(&mut self, role: Role, channel: C, metadata: SessionMetadata)
        requires
            old(self).wf(),
        ensures
            final(self).wf(),
            final(self).channel_view() == old(self).channel_view().insert(role@, channel),
            final(self).meta_view() == old(self).meta_view().insert(role@, metadata),
    {
        let key = role.copy();
        self.channels.insert(role, channel);
        self.session_metadata.insert(key, metadata);
    }

    /// Takes the channel of `role` out of the bundle.
    pub fn take_channel(&mut self, role: &Role) -> (c: Option<C>)
        requires
            old(self).wf(),
        ensures
            final(self).wf(),
            c == (if old(self).channel_view().contains_key(role@) {
                Some(old(self).channel_view()[role@])
            } else {
                None::<C>
            }),
            final(self).channel_view() == old(self).channel_view().remove(role@),
            final(self).meta_view() == old(self).meta_view(),
            final(self).meta_count() == old(self).meta_count(),
    {
        self.channels.remove(role)
    }

    /// Puts a channel back for `role`.
    pub fn put_channel(&mut self, role: Role, channel: C)
        requires
            old(self).wf(),
        ensures
            final(self).wf(),
            final(self).channel_view() == old(self).channel_view().insert(role@, channel),
            final(self).meta_view() == old(self).meta_view(),
            final(self).meta_count() == old(self).meta_count(),
    {
        self.channels.insert(role, channel);
    }

    pub fn get_metadata(&self, role: &Role) -> (m: Option<&SessionMetadata>)
        requires
            self.wf(),
        ensures
            match m {
                Some(x) => self.meta_view().contains_key(role@) && *x == self.meta_view()[role@],
                None => !self.meta_view().contains_key(role@),
            },
    {
        self.session_metadata.get(role)
    }

    /// Replaces the metadata of `role`, if it has any, by what `f` makes of it.
    pub fn update_metadata<F: FnOnce(SessionMetadata) -> SessionMetadata>(&mut self, role: &Role, f: F)
        requires
            old(self).wf(),
            old(self).meta_view().contains_key(role@) ==> f.requires((old(self).meta_view()[role@],)),
        ensures
            final(self).wf(),
            final(self).channel_view() == old(self).channel_view(),
            final(self).meta_view().dom() == old(self).meta_view().dom(),
            old(self).meta_view().contains_key(role@) ==> f.ensures(
                (old(self).meta_view()[role@],),
                final(self).meta_view()[role@],
            ),
            forall|k: RoleView| k != role@ ==> #[trigger] final(self).meta_view().contains_key(k) ==> final(self).meta_view()[k] == old(self).meta_view()[k],
    {
        match self.session_metadata.remove(role) {
            Some(m) => {
                let n = f(m);
                self.session_metadata.insert(role.copy(), n);
                proof {
                    assert(self.meta_view().dom() =~= old(self).meta_view().dom());
                }
            },
            None => {},
        }
    }

    /// Records one more operation on the session with `role`, if it has metadata.
    pub fn mark_operation(&mut self, role: &Role, description: &str)
        requires
            old(self).wf(),
            old(self).meta_view().contains_key(role@) ==> old(self).meta_view()[role@].operation_count < usize::MAX,
        ensures
            final(self).wf(),
            final(self).channel_view() == old(self).channel_view(),
            final(self).meta_view().dom() == old(self).meta_view().dom(),
            final(self).meta_count() == old(self).meta_count(),
            old(self).meta_view().contains_key(role@) ==> after_operation(
                old(self).meta_view()[role@],
                final(self).meta_view()[role@],
                description@,
            ),
            forall|k: RoleView| k != role@ ==> #[trigger] final(self).meta_view().contains_key(k) ==> final(self).meta_view()[k] == old(self).meta_view()[k],
            !old(self).meta_view().contains_key(role@) ==> final(self).meta_view() == old(self).meta_view(),
    {
        match self.session_metadata.remove(role) {
            Some(m) => {
                let mut m = m;
                m.mark_operation(description);
                self.session_metadata.insert(role.copy(), m);
                proof {
                    assert(self.meta_view().dom() =~= old(self).meta_view().dom());
                }
            },
            None => {},
        }
    }

    /// Marks the session with `role` broken, if it has metadata.
    pub fn mark_broken(&mut self, role: &Role)
        requires
            old(self).wf(),
        ensures
            final(self).wf(),
            final(self).channel_view() == old(self).channel_view(),
            final(self).meta_view().dom() == old(self).meta_view().dom(),
            final(self).meta_count() == old(self).meta_count(),
            old(self).meta_view().contains_key(role@) ==> broken_from(
                old(self).meta_view()[role@],
                final(self).meta_view()[role@],
            ),
            forall|k: RoleView| k != role@ ==> #[trigger] final(self).meta_view().contains_key(k) ==> final(self).meta_view()[k] == old(self).meta_view()[k],
    {
        match self.session_metadata.remove(role) {
            Some(m) => {
                let mut m = m;
                m.mark_broken();
                self.session_metadata.insert(role.copy(), m);
                proof {
                    assert(self.meta_view().dom() =~= old(self).meta_view().dom());
                }
            },
            None => {
                proof {
                    assert(self.meta_view() =~= old(self).meta_view());
                }
            },
        }
    }

    pub fn has_channel(&self, role: &Role) -> (b: bool)
        requires
            self.wf(),
        ensures
            b == self.channel_view().contains_key(role@),
    {
        self.channels.contains(role)
    }

    /// Removes the channel and the metadata of `role`; whether it had a channel.
    pub fn remove(&mut self, role: &Role) -> (b: bool)
        requires
            old(self).wf(),
        ensures
            final(self).wf(),
            b == old(self).channel_view().contains_key(role@),
            final(self).channel_view() == old(self).channel_view().remove(role@),
            final(self).meta_view() == old(self).meta_view().remove(role@),
    {
        let _ = self.session_metadata.remove(role);
        let c = self.channels.remove(role);
        c.is_some()
    }

    /// A copy of every session's metadata, with its peer.
    pub fn all_metadata(&self) -> (r: Vec<(Role, SessionMetadata)>)
        requires
            self.wf(),
        ensures
            r.len() == self.meta_count(),
            forall|i: int|
                0 <= i < r.len() ==> self.meta_view().contains_key((#[trigger] r@[i]).0@)
                    && self.meta_view()[r@[i].0@] == r@[i].1,
            forall|k: RoleView|
                #[trigger] self.meta_view().contains_key(k) ==> exists|i: int| 0 <= i < r.len() && r@[i].0@ == k,
            forall|i: int, j: int|
                0 <= i < j < r.len() ==> (#[trigger] r@[i]).0@ != (#[trigger] r@[j]).0@,
    {
        let entries = self.session_metadata.entries();
        let mut out: Vec<(Role, SessionMetadata)> = Vec::new();
        let mut i: usize = 0;
        while i < entries.len()
            invariant
                0 <= i <= entries.len(),
                entries@ == self.session_metadata.entry_seq(),
                self.wf(),
                out.len() == i,
                forall|j: int| 0 <= j < i ==> #[trigger] out@[j] == entries@[j],
            decreases entries.len() - i,
        {
            out.push((entries[i].0.copy(), entries[i].1.copy()));
            i = i + 1;
        }
        proof {
            assert forall|j: int| 0 <= j < out.len() implies self.meta_view().contains_key((#[trigger] out@[j]).0@)
                && self.meta_view()[out@[j].0@] == out@[j].1 by {
                self.session_metadata.lemma_entry(j);
            }
            self.session_metadata.lemma_keys_distinct();
            assert forall|a: int, b: int| 0 <= a < b < out.len() implies (#[trigger] out@[a]).0@ != (#[trigger] out@[b]).0@ by {
                assert(out@[a] == entries@[a]);
                assert(out@[b] == entries@[b]);
            }
            assert forall|k: RoleView| #[trigger] self.meta_view().contains_key(k) implies exists|i: int|
                0 <= i < out.len() && out@[i].0@ == k by {
                let i = choose|i: int| 0 <= i < self.session_metadata.entry_seq().len() && (#[trigger] self.session_metadata.entry_seq()[i]).0@ == k;
                assert(out@[i] == entries@[i]);
            }
        }
        out
    }

    /// The number of sessions with metadata.
    pub fn session_count(&self) -> (n: usize)
        ensures
            n == self.meta_count(),
    {
        self.session_metadata.entries().len()
    }

    /// Closes every channel and forgets every session; the number of sessions
    /// there were.
    pub fn clear(&mut self) -> (n: usize)
        ensures
            final(self).wf(),
            n == old(self).meta_count(),
            final(self).channel_view() == Map::<RoleView, C>::empty(),
            final(self).meta_view() == Map::<RoleView, SessionMetadata>::empty(),
            final(self).meta_count() == 0,
    {
        let n = self.session_count();
        self.channels = RoleMap::new();
        self.session_metadata = RoleMap::new();
        n
    }
}

impl<C> Default for SessionChannelBundle<C> {
    fn default() -> (b: SessionChannelBundle<C>)
        ensures
            b.wf(),
            b.channel_view() == Map::<RoleView, C>::empty(),
            b.meta_view() == Map::<RoleView, SessionMetadata>::empty(),
    {
        Self::new()
    }
}

} // verus!
