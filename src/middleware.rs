//! The state and decisions of handler middleware: tracing, operation
//! counters, and the retry policy for sends.

use vstd::prelude::*;
use crate::handler::ChoreographyError;

verus! {

/// Tracing wrapper around a handler; events are tagged with `prefix`.
pub struct Trace<H> {
    inner: H,
    prefix: String,
}

impl<H> Trace<H> {
    pub closed spec fn inner_value(&self) -> H {
        self.inner
    }

    pub closed spec fn prefix_text(&self) -> Seq<char> {
        self.prefix@
    }

    /// Wraps `inner` with the prefix `choreo`.
    pub fn new(inner: H) -> (t: Trace<H>)
        ensures
            t.inner_value() == inner,
            t.prefix_text() == "choreo"@,
    {
        proof {
            reveal_strlit("choreo");
        }
        Self::with_prefix(inner, "choreo".to_owned())
    }

    pub fn with_prefix(inner: H, prefix: String) -> (t: Trace<H>)
        ensures
            t.inner_value() == inner,
            t.prefix_text() == prefix@,
    {
        Trace { inner, prefix }
    }

    pub fn prefix(&self) -> (p: &String)
        ensures
            p@ == self.prefix_text(),
    {
        &self.prefix
    }

    pub fn inner_mut(&mut self) -> (h: &mut H)
        ensures
            *h == old(self).inner_value(),
            final(self).inner_value() == *final(h),
            final(self).prefix_text() == old(self).prefix_text(),
    {
        &mut self.inner
    }
}

/// Counters of successful sends and receives and of failed ones. Like the
/// atomic counters they stand for, they wrap around past `u64::MAX`.
pub struct Metrics<H> {
    inner: H,
    send_count: u64,
    recv_count: u64,
    error_count: u64,
}

/// `n + 1` on a counter that wraps around.
pub open spec fn bumped(n: u64) -> u64 {
    if n == u64::MAX {
        0
    } else {
        (n + 1) as u64
    }
}

impl<H> Metrics<H> {
    pub closed spec fn inner_value(&self) -> H {
        self.inner
    }

    pub closed spec fn sends(&self) -> u64 {
        self.send_count
    }

    pub closed spec fn recvs(&self) -> u64 {
        self.recv_count
    }

    pub closed spec fn errors(&self) -> u64 {
        self.error_count
    }

    pub fn new(inner: H) -> (m: Metrics<H>)
        ensures
            m.inner_value() == inner,
            m.sends() == 0 && m.recvs() == 0 && m.errors() == 0,
    {
        Metrics { inner, send_count: 0, recv_count: 0, error_count: 0 }
    }

    pub fn send_count(&self) -> (n: u64)
        ensures
            n == self.sends(),
    {
        self.send_count
    }

    pub fn recv_count(&self) -> (n: u64)
        ensures
            n == self.recvs(),
    {
        self.recv_count
    }

    pub fn error_count(&self) -> (n: u64)
        ensures
            n == self.errors(),
    {
        self.error_count
    }

    /// Counts the outcome of a send: a success, or else an error.
    pub fn record_send(&mut self, succeeded: bool)
        ensures
            final(self).inner_value() == old(self).inner_value(),
            final(self).recvs() == old(self).recvs(),
            succeeded ==> final(self).sends() == bumped(old(self).sends()) && final(self).errors()
                == old(self).errors(),
            !succeeded ==> final(self).errors() == bumped(old(self).errors()) && final(self).sends()
                == old(self).sends(),
    {
        if succeeded {
            self.send_count = self.send_count.wrapping_add(1);
        } else {
            self.error_count = self.error_count.wrapping_add(1);
        }
    }

    /// Counts the outcome of a receive: a success, or else an error.
    pub fn record_recv(&mut self, succeeded: bool)
        ensures
            final(self).inner_value() == old(self).inner_value(),
            final(self).sends() == old(self).sends(),
            succeeded ==> final(self).recvs() == bumped(old(self).recvs()) && final(self).errors()
                == old(self).errors(),
            !succeeded ==> final(self).errors() == bumped(old(self).errors()) && final(self).recvs()
                == old(self).recvs(),
    {
        if succeeded {
            self.recv_count = self.recv_count.wrapping_add(1);
        } else {
            self.error_count = self.error_count.wrapping_add(1);
        }
    }

    pub fn inner_mut(&mut self) -> (h: &mut H)
        ensures
            *h == old(self).inner_value(),
            final(self).inner_value() == *final(h),
            final(self).sends() == old(self).sends(),
            final(self).recvs() == old(self).recvs(),
            final(self).errors() == old(self).errors(),
    {
        &mut self.inner
    }
}

/// What to do after a send failed.
#[derive(Debug, PartialEq, Eq, Structural)]
pub enum RetryDecision {
    /// Wait this many milliseconds, then send again.
    RetryAfter(u64),
    /// Report the failure.
    GiveUp,
}

pub open spec fn pow2(n: nat) -> nat
    decreases n,
{
    if n == 0 {
        1
    } else {
        2 * pow2((n - 1) as nat)
    }
}

/// The delay before retry number `k + 1`: `base * 2^k` milliseconds, or
/// `u64::MAX` where that is larger.
pub open spec fn backoff_ms(base: u64, k: nat) -> u64 {
    if base * pow2(k) > u64::MAX {
        u64::MAX
    } else {
        (base * pow2(k)) as u64
    }
}

/// Retries sends that failed in transport, with exponential backoff;
/// receives, choices and offers advance the protocol and are never retried.
pub struct Retry<H> {
    inner: H,
    max_retries: usize,
    base_delay_ms: u64,
}

impl<H> Retry<H> {
    pub closed spec fn inner_value(&self) -> H {
        self.inner
    }

    pub closed spec fn retries_allowed(&self) -> usize {
        self.max_retries
    }

    pub closed spec fn base_ms(&self) -> u64 {
        self.base_delay_ms
    }

    /// Three retries, the first after 100 ms.
    pub fn new(inner: H) -> (r: Retry<H>)
        ensures
            r.inner_value() == inner,
            r.retries_allowed() == 3,
            r.base_ms() == 100,
    {
        Retry { inner, max_retries: 3, base_delay_ms: 100 }
    }

    pub fn with_config(inner: H, max_retries: usize, base_delay_ms: u64) -> (r: Retry<H>)
        ensures
            r.inner_value() == inner,
            r.retries_allowed() == max_retries,
            r.base_ms() == base_delay_ms,
    {
        Retry { inner, max_retries, base_delay_ms }
    }

    /// The decision after a send failed with `error`, `retries` retries
    /// having been made already: a transport error is retried after
    /// `base * 2^retries` ms while retries remain; anything else is reported.
    pub fn after_failure(&self, retries: usize, error: &ChoreographyError) -> (d: RetryDecision)
        ensures
            error is Transport && retries < self.retries_allowed() ==> d == RetryDecision::RetryAfter(
                backoff_ms(self.base_ms(), retries as nat),
            ),
            !(error is Transport) || retries >= self.retries_allowed() ==> d == RetryDecision::GiveUp,
    {
        let transport = match error {
            ChoreographyError::Transport(_) => true,
            _ => false,
        };
        if !transport || retries >= self.max_retries {
            return RetryDecision::GiveUp;
        }
        let mut delay: u64 = self.base_delay_ms;
        let mut k: usize = 0;
        proof {
            assert(pow2(0) == 1);
            assert(self.base_delay_ms as nat * 1 == self.base_delay_ms as nat);
        }
        while k < retries
            invariant
                0 <= k <= retries,
                delay == backoff_ms(self.base_delay_ms, k as nat),
            decreases retries - k,
        {
            proof {
                let b = self.base_delay_ms as nat;
                assert(b * pow2((k + 1) as nat) == 2 * (b * pow2(k as nat))) by (nonlinear_arith)
                    requires
                        pow2((k + 1) as nat) == 2 * pow2(k as nat),
                ;
            }
            delay = delay.saturating_add(delay);
            k = k + 1;
        }
        RetryDecision::RetryAfter(delay)
    }

    pub fn inner_mut(&mut self) -> (h: &mut H)
        ensures
            *h == old(self).inner_value(),
            final(self).inner_value() == *final(h),
            final(self).retries_allowed() == old(self).retries_allowed(),
            final(self).base_ms() == old(self).base_ms(),
    {
        &mut self.inner
    }
}

} // verus!
