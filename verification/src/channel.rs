//! The bounded, never-blocking queue that carries values between the
//! simulation tick and one decision worker.
//!
//! A queue holds at most `cap` items. Pushing into a full queue fails
//! immediately with `ChannelFull` and leaves the queue unchanged, so the
//! simulation tick is never stalled by a slow consumer. Once a queue is
//! closed, every further push reports `Disconnected`. Draining keeps only
//! the most recently pushed item: older, unconsumed items are discarded
//! (freshest wins).

use vstd::prelude::*;

verus! {

/// Why a bridge operation did not take full effect.
#[derive(Debug, Clone, Copy, PartialEq, Eq, Structural)]
pub enum BridgeError {
    /// The bounded queue is at capacity; the item was dropped, not queued.
    ChannelFull,
    /// The other side has shut down; further traffic is a no-op.
    Disconnected,
    /// A wire line did not parse; the item is skipped, the link lives on.
    ParseError,
    /// The worker process ended or closed a stream; it counts as gone.
    ProcessExited,
    /// No answer arrived in time; callers fall back to the safe answer.
    Timeout,
}

/// A bounded queue with non-blocking push and freshest-wins drain.
pub struct BoundedQueue<T> {
    items: Vec<T>,
    cap: usize,
    closed: bool,
}

impl<T> BoundedQueue<T> {
    /// The items currently queued, oldest first.
    pub closed spec fn view(&self) -> Seq<T> {
        self.items@
    }

    /// The capacity the queue was created with.
    pub closed spec fn cap(&self) -> nat {
        self.cap as nat
    }

    /// Whether the queue has been closed.
    pub closed spec fn is_closed(&self) -> bool {
        self.closed
    }

    /// A queue is well formed when it never exceeds its capacity.
    pub open spec fn wf(&self) -> bool {
        self@.len() <= self.cap()
    }

    /// A new open queue of capacity `cap`.
    pub fn new(cap: usize) -> (q: BoundedQueue<T>)
        ensures
            q.wf(),
            q@ == Seq::<T>::empty(),
            q.cap() == cap as nat,
            !q.is_closed(),
    {
        BoundedQueue { items: Vec::new(), cap, closed: false }
    }

    /// How many items are queued.
    pub fn len(&self) -> (n: usize)
        ensures
            n as nat == self@.len(),
    {
        self.items.len()
    }

    /// Non-blocking push. Fails with `Disconnected` on a closed queue and
    /// with `ChannelFull` on a full one; in both cases the queue is
    /// unchanged. It never waits for room.
    pub fn try_push(&mut self, item: T) -> (r: Result<(), BridgeError>)
        requires
            old(self).wf(),
        ensures
            final(self).wf(),
            final(self).cap() == old(self).cap(),
            final(self).is_closed() == old(self).is_closed(),
            old(self).is_closed() ==> {
                &&& r == Result::<(), BridgeError>::Err(BridgeError::Disconnected)
                &&& final(self)@ == old(self)@
            },
            !old(self).is_closed() && old(self)@.len() == old(self).cap() ==> {
                &&& r == Result::<(), BridgeError>::Err(BridgeError::ChannelFull)
                &&& final(self)@ == old(self)@
            },
            !old(self).is_closed() && old(self)@.len() < old(self).cap() ==> {
                &&& r == Result::<(), BridgeError>::Ok(())
                &&& final(self)@ == old(self)@.push(item)
            },
    {
        if self.closed {
            Err(BridgeError::Disconnected)
        } else if self.items.len() >= self.cap {
            Err(BridgeError::ChannelFull)
        } else {
            self.items.push(item);
            Ok(())
        }
    }

    /// Non-blocking pop of the oldest item, for the consumer that wants
    /// every item in order (the worker side of a state queue).
    pub fn try_pop_front(&mut self) -> (r: Option<T>)
        requires
            old(self).wf(),
        ensures
            final(self).wf(),
            final(self).cap() == old(self).cap(),
            final(self).is_closed() == old(self).is_closed(),
            old(self)@.len() == 0 ==> {
                &&& r is None
                &&& final(self)@ == old(self)@
            },
            old(self)@.len() > 0 ==> {
                &&& r == Some(old(self)@[0])
                &&& final(self)@ == old(self)@.drop_first()
            },
    {
        if self.items.len() == 0 {
            None
        } else {
            Some(self.items.remove(0))
        }
    }

    /// Drains the whole queue and returns only the most recently pushed
    /// item: freshest wins. Older items are discarded, never applied.
    pub fn drain_latest(&mut self) -> (r: Option<T>)
        requires
            old(self).wf(),
        ensures
            final(self).wf(),
            final(self).cap() == old(self).cap(),
            final(self).is_closed() == old(self).is_closed(),
            final(self)@ == Seq::<T>::empty(),
            old(self)@.len() == 0 ==> r is None,
            old(self)@.len() > 0 ==> r == Some(old(self)@.last()),
    {
        let mut last: Option<T> = None;
        let ghost mut k: int = 0;
        loop
            invariant
                self.wf(),
                self.cap() == old(self).cap(),
                self.is_closed() == old(self).is_closed(),
                0 <= k <= old(self)@.len(),
                self@ == old(self)@.skip(k),
                k == 0 ==> last is None,
                k > 0 ==> last == Some(old(self)@[k - 1]),
            ensures
                self@.len() == 0,
            decreases self@.len(),
        {
            if self.items.len() == 0 {
                break;
            }
            let ghost prev = self@;
            let item = self.items.remove(0);
            proof {
                assert(prev.remove(0) =~= old(self)@.skip(k + 1));
                k = k + 1;
            }
            last = Some(item);
        }
        proof {
            assert(k == old(self)@.len());
            assert(self@ =~= Seq::<T>::empty());
        }
        last
    }

    /// Closes the queue: the one shutdown signal both ends observe.
    /// Queued items stay readable, but every later push is refused.
    pub fn close(&mut self)
        requires
            old(self).wf(),
        ensures
            final(self).wf(),
            final(self).cap() == old(self).cap(),
            final(self)@ == old(self)@,
            final(self).is_closed(),
    {
        self.closed = true;
    }

    /// Whether the queue has been closed, for callers that must fail fast.
    pub fn closed(&self) -> (r: bool)
        ensures
            r == self.is_closed(),
    {
        self.closed
    }
}

} // verus!
