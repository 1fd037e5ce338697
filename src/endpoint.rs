//! A role's endpoint: its peers' channels and session metadata, and the
//! channel-take discipline that handler operations follow.

use vstd::prelude::*;
use vstd::string::StringExecFns;
use crate::handler::ChoreographyError;
use crate::role::{Role, RoleView};
use crate::session::{SessionChannelBundle, SessionMetadata, after_operation, initial_metadata, broken_from};

verus! {

/// The runtime handle of one role, owning a channel per peer.
pub struct RumpsteakEndpoint<C> {
    channels: SessionChannelBundle<C>,
    local_role: Role,
}

impl<C> RumpsteakEndpoint<C> {
    pub closed spec fn wf(&self) -> bool {
        self.channels.wf()
    }

    /// The registered channels, by peer.
    pub closed spec fn channel_view(&self) -> Map<RoleView, C> {
        self.channels.channel_view()
    }

    /// The session metadata, by peer.
    pub closed spec fn meta_view(&self) -> Map<RoleView, SessionMetadata> {
        self.channels.meta_view()
    }

    /// The number of open sessions.
    pub closed spec fn session_count(&self) -> nat {
        self.channels.meta_count()
    }

    pub closed spec fn role(&self) -> Role {
        self.local_role
    }

    /// An endpoint for `local_role` with no channel yet.
    pub fn new(local_role: Role) -> (e: RumpsteakEndpoint<C>)
        ensures
            e.wf(),
            e.role() == local_role,
            e.channel_view() == Map::<RoleView, C>::empty(),
            e.meta_view() == Map::<RoleView, SessionMetadata>::empty(),
            e.session_count() == 0,
    {
        RumpsteakEndpoint { channels: SessionChannelBundle::new(), local_role }
    }

    /// Registers the channel to `peer`, opening a fresh session.
    pub fn register_channel(&mut self, peer: Role, channel: C)
        requires
            old(self).wf(),
        ensures
            final(self).wf(),
            final(self).role() == old(self).role(),
            final(self).channel_view() == old(self).channel_view().insert(peer@, channel),
            final(self).meta_view().dom() == old(self).meta_view().dom().insert(peer@),
            initial_metadata(final(self).meta_view()[peer@]),
            forall|k: RoleView| k != peer@ ==> #[trigger] final(self).meta_view().contains_key(k) ==> final(self).meta_view()[k] == old(self).meta_view()[k],
    {
        self.channels.register(peer, channel);
    }

    /// Takes the channel to `peer` out for an operation.
    pub fn take_channel(&mut self, peer: &Role) -> (c: Option<C>)
        requires
            old(self).wf(),
        ensures
            final(self).wf(),
            final(self).role() == old(self).role(),
            c == (if old(self).channel_view().contains_key(peer@) {
                Some(old(self).channel_view()[peer@])
            } else {
                None::<C>
            }),
            final(self).channel_view() == old(self).channel_view().remove(peer@),
            final(self).meta_view() == old(self).meta_view(),
            final(self).session_count() == old(self).session_count(),
    {
        self.channels.take_channel(peer)
    }

    /// Puts the channel to `peer` back after an operation.
    pub fn put_channel(&mut self, peer: Role, channel: C)
        requires
            old(self).wf(),
        ensures
            final(self).wf(),
            final(self).role() == old(self).role(),
            final(self).channel_view() == old(self).channel_view().insert(peer@, channel),
            final(self).meta_view() == old(self).meta_view(),
            final(self).session_count() == old(self).session_count(),
    {
        self.channels.put_channel(peer, channel);
    }

    pub fn has_channel(&self, peer: &Role) -> (b: bool)
        requires
            self.wf(),
        ensures
            b == self.channel_view().contains_key(peer@),
    {
        self.channels.has_channel(peer)
    }

    /// Closes the channel to `peer` and ends its session; whether there was a channel.
    pub fn close_channel(&mut self, peer: &Role) -> (b: bool)
        requires
            old(self).wf(),
        ensures
            final(self).wf(),
            final(self).role() == old(self).role(),
            b == old(self).channel_view().contains_key(peer@),
            final(self).channel_view() == old(self).channel_view().remove(peer@),
            final(self).meta_view() == old(self).meta_view().remove(peer@),
    {
        self.channels.remove(peer)
    }

    /// Closes every channel and ends every session; the number of sessions closed.
    pub fn close_all_channels(&mut self) -> (n: usize)
        requires
            old(self).wf(),
        ensures
            final(self).wf(),
            final(self).role() == old(self).role(),
            n == old(self).session_count(),
            final(self).channel_view() == Map::<RoleView, C>::empty(),
            final(self).meta_view() == Map::<RoleView, SessionMetadata>::empty(),
            final(self).session_count() == 0,
    {
        self.channels.clear()
    }

    pub fn is_all_closed(&self) -> (b: bool)
        ensures
            b == (self.session_count() == 0),
    {
        self.channels.session_count() == 0
    }

    pub fn active_channel_count(&self) -> (n: usize)
        ensures
            n == self.session_count(),
    {
        self.channels.session_count()
    }

    pub fn local_role(&self) -> (r: &Role)
        ensures
            *r == self.role(),
    {
        &self.local_role
    }

    /// Records an operation on the session with `peer`, if there is one.
    pub fn mark_operation(&mut self, peer: &Role, operation: &str)
        requires
            old(self).wf(),
            old(self).meta_view().contains_key(peer@) ==> old(self).meta_view()[peer@].operation_count < usize::MAX,
        ensures
            final(self).wf(),
            final(self).role() == old(self).role(),
            final(self).channel_view() == old(self).channel_view(),
            final(self).meta_view().dom() == old(self).meta_view().dom(),
            final(self).session_count() == old(self).session_count(),
            old(self).meta_view().contains_key(peer@) ==> after_operation(
                old(self).meta_view()[peer@],
                final(self).meta_view()[peer@],
                operation@,
            ),
            forall|k: RoleView| k != peer@ ==> #[trigger] final(self).meta_view().contains_key(k) ==> final(self).meta_view()[k] == old(self).meta_view()[k],
            !old(self).meta_view().contains_key(peer@) ==> final(self).meta_view() == old(self).meta_view(),
    {
        self.channels.mark_operation(peer, operation);
    }

    pub fn get_metadata(&self, peer: &Role) -> (m: Option<&SessionMetadata>)
        requires
            self.wf(),
        ensures
            match m {
                Some(x) => self.meta_view().contains_key(peer@) && *x == self.meta_view()[peer@],
                None => !self.meta_view().contains_key(peer@),
            },
    {
        self.channels.get_metadata(peer)
    }

    /// A copy of every session's metadata, with its peer.
    pub fn all_metadata(&self) -> (r: Vec<(Role, SessionMetadata)>)
        requires
            self.wf(),
        ensures
            r.len() == self.session_count(),
            forall|i: int|
                0 <= i < r.len() ==> self.meta_view().contains_key((#[trigger] r@[i]).0@)
                    && self.meta_view()[r@[i].0@] == r@[i].1,
            forall|k: RoleView|
                #[trigger] self.meta_view().contains_key(k) ==> exists|i: int| 0 <= i < r.len() && r@[i].0@ == k,
            forall|i: int, j: int|
                0 <= i < j < r.len() ==> (#[trigger] r@[i]).0@ != (#[trigger] r@[j]).0@,
    {
        self.channels.all_metadata()
    }

    /// After a cancelled operation: every session whose channel is checked
    /// out, and so lost, is marked broken; the others are left as they are.
    pub fn mark_lost_sessions(&mut self)
        requires
            old(self).wf(),
        ensures
            final(self).wf(),
            final(self).role() == old(self).role(),
            final(self).channel_view() == old(self).channel_view(),
            final(self).meta_view().dom() == old(self).meta_view().dom(),
            forall|k: RoleView|
                #[trigger] old(self).meta_view().contains_key(k) ==> if old(self).channel_view().contains_key(k) {
                    final(self).meta_view()[k] == old(self).meta_view()[k]
                } else {
                    broken_from(old(self).meta_view()[k], final(self).meta_view()[k])
                },
    {
        let peers = self.all_metadata();
        let ghost orig = old(self).meta_view();
        let ghost chans = old(self).channel_view();
        let mut i: usize = 0;
        while i < peers.len()
            invariant
                0 <= i <= peers.len(),
                self.wf(),
                self.role() == old(self).role(),
                self.channel_view() == chans,
                self.meta_view().dom() == orig.dom(),
                forall|j: int| 0 <= j < peers.len() ==> orig.contains_key((#[trigger] peers@[j]).0@),
                forall|k: RoleView| #[trigger] orig.contains_key(k) ==> exists|j: int| 0 <= j < peers.len() && peers@[j].0@ == k,
                forall|k: RoleView|
                    #[trigger] orig.contains_key(k) ==> if !chans.contains_key(k) && exists|j: int| 0 <= j < i && peers@[j].0@ == k {
                        broken_from(orig[k], self.meta_view()[k])
                    } else {
                        self.meta_view()[k] == orig[k]
                    },
            decreases peers.len() - i,
        {
            let peer = &peers[i].0;
            if !self.has_channel(peer) {
                let ghost before = self.meta_view();
                self.channels.mark_broken(peer);
                proof {
                    assert forall|k: RoleView| #[trigger] orig.contains_key(k) implies (if !chans.contains_key(k) && exists|j: int| 0 <= j < i + 1 && peers@[j].0@ == k {
                        broken_from(orig[k], self.meta_view()[k])
                    } else {
                        self.meta_view()[k] == orig[k]
                    }) by {
                        if k == peer@ {
                            assert(peers@[i as int].0@ == k);
                        } else {
                            if exists|j: int| 0 <= j < i + 1 && peers@[j].0@ == k {
                                let j = choose|j: int| 0 <= j < i + 1 && peers@[j].0@ == k;
                                assert(j < i);
                            }
                        }
                    }
                }
            } else {
                proof {
                    assert forall|k: RoleView| #[trigger] orig.contains_key(k) implies (if !chans.contains_key(k) && exists|j: int| 0 <= j < i + 1 && peers@[j].0@ == k {
                        broken_from(orig[k], self.meta_view()[k])
                    } else {
                        self.meta_view()[k] == orig[k]
                    }) by {
                        if !chans.contains_key(k) && exists|j: int| 0 <= j < i + 1 && peers@[j].0@ == k {
                            let j = choose|j: int| 0 <= j < i + 1 && peers@[j].0@ == k;
                            if j == i {
                                assert(k == peer@);
                            }
                        }
                    }
                }
            }
            i = i + 1;
        }
    }

    /// Starts an operation with `peer`: takes its channel out, or fails with a
    /// transport error where none is registered.
    pub fn begin_operation(&mut self, peer: &Role) -> (r: Result<C, ChoreographyError>)
        requires
            old(self).wf(),
        ensures
            final(self).wf(),
            final(self).role() == old(self).role(),
            final(self).channel_view() == old(self).channel_view().remove(peer@),
            final(self).meta_view() == old(self).meta_view(),
            final(self).session_count() == old(self).session_count(),
            old(self).channel_view().contains_key(peer@) ==> r == Ok::<C, ChoreographyError>(
                old(self).channel_view()[peer@],
            ),
            !old(self).channel_view().contains_key(peer@) ==> (r matches Err(ChoreographyError::Transport(m))
                && m@ == "No channel registered for role: "@ + peer.name@),
    {
        match self.take_channel(peer) {
            Some(c) => Ok(c),
            None => {
                proof {
                    reveal_strlit("No channel registered for role: ");
                }
                let msg = String::from_str("No channel registered for role: ").concat(peer.name.as_str());
                Err(ChoreographyError::Transport(msg))
            },
        }
    }

    /// Ends an operation with `peer`: puts its channel back and records the
    /// operation as `operation`.
    pub fn finish_operation(&mut self, peer: Role, channel: C, operation: &str)
        requires
            old(self).wf(),
            old(self).meta_view().contains_key(peer@) ==> old(self).meta_view()[peer@].operation_count < usize::MAX,
        ensures
            final(self).wf(),
            final(self).role() == old(self).role(),
            final(self).channel_view() == old(self).channel_view().insert(peer@, channel),
            final(self).meta_view().dom() == old(self).meta_view().dom(),
            old(self).meta_view().contains_key(peer@) ==> after_operation(
                old(self).meta_view()[peer@],
                final(self).meta_view()[peer@],
                operation@,
            ),
            forall|k: RoleView| k != peer@ ==> #[trigger] final(self).meta_view().contains_key(k) ==> final(self).meta_view()[k] == old(self).meta_view()[k],
    {
        let key = peer.copy();
        self.put_channel(peer, channel);
        self.mark_operation(&key, operation);
    }
}

/// Channel-take discipline: taking the channel of `r` and putting a channel
/// back leaves `r` with a channel; recording the operation then counts it
/// once more on the session with `r`, and no other session changes.
pub proof fn lemma_take_put_discipline<C>(
    e0: RumpsteakEndpoint<C>,
    e1: RumpsteakEndpoint<C>,
    e2: RumpsteakEndpoint<C>,
    e3: RumpsteakEndpoint<C>,
    r: Role,
    ch: C,
    d: Seq<char>,
)
    requires
        e1.channel_view() == e0.channel_view().remove(r@),
        e1.meta_view() == e0.meta_view(),
        e2.channel_view() == e1.channel_view().insert(r@, ch),
        e2.meta_view() == e1.meta_view(),
        e3.channel_view() == e2.channel_view(),
        e3.meta_view().dom() == e2.meta_view().dom(),
        e2.meta_view().contains_key(r@) ==> after_operation(e2.meta_view()[r@], e3.meta_view()[r@], d),
        forall|k: RoleView| k != r@ ==> #[trigger] e3.meta_view().contains_key(k) ==> e3.meta_view()[k] == e2.meta_view()[k],
    ensures
        e2.channel_view().contains_key(r@),
        e3.channel_view().contains_key(r@),
        e3.channel_view()[r@] == ch,
        e0.meta_view().contains_key(r@) ==> e3.meta_view()[r@].operation_count == e0.meta_view()[r@].operation_count + 1,
        forall|k: RoleView| k != r@ ==> #[trigger] e3.meta_view().contains_key(k) ==> e3.meta_view()[k] == e0.meta_view()[k],
{
}

} // verus!
