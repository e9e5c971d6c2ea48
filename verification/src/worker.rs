//! One decision worker's channel pair and the supervisor rules for an
//! out-of-process worker.
//!
//! A `PolicyBridge` carries snapshots out to one worker and action batches
//! back. The simulation side never blocks: a full snapshot queue skips
//! that tick for that worker, and the drain keeps only the freshest
//! batch. Closing the bridge is the one shutdown signal both sides
//! observe; after it, every publish reports `Disconnected`.
//!
//! The out-of-process backend speaks the line protocol: the runtime that
//! owns the child process feeds each line of its output to
//! `on_worker_line`, and reports a write failure or end of stream to
//! `on_stream_closed`; the rules here decide what happens, the runtime
//! only moves bytes.

use vstd::prelude::*;

use crate::action::{actions_wf, Action};
use crate::channel::{BoundedQueue, BridgeError};
use crate::codec::messages::{parse_actions_line, spec_parse_action_list};
use crate::codec::prims::ws_only;
use crate::state::{vec2_wf, GameState};

verus! {

/// How many items each direction buffers before the sender backs off.
pub const WORKER_QUEUE_CAP: usize = 2;

/// The duplex channel pair of one decision worker.
pub struct PolicyBridge {
    state_queue: BoundedQueue<GameState>,
    action_queue: BoundedQueue<Vec<Action>>,
}

/// Every queued action batch stays within the world's velocity range.
pub open spec fn batches_wf(q: Seq<Vec<Action>>) -> bool {
    forall|i: int| 0 <= i < q.len() ==> actions_wf(#[trigger] q[i]@)
}

impl PolicyBridge {
    /// The snapshots waiting for the worker, oldest first.
    pub closed spec fn pending_states(&self) -> Seq<GameState> {
        self.state_queue@
    }

    /// The action batches waiting for the tick, oldest first.
    pub closed spec fn pending_actions(&self) -> Seq<Vec<Action>> {
        self.action_queue@
    }

    /// Whether the bridge still connects tick and worker.
    pub closed spec fn connected(&self) -> bool {
        !self.state_queue.is_closed()
    }

    /// Both queues stay within their bound, agree on the shutdown state,
    /// and every queued batch is within range.
    pub closed spec fn wf(&self) -> bool {
        &&& self.state_queue.wf()
        &&& self.action_queue.wf()
        &&& self.state_queue.cap() == WORKER_QUEUE_CAP as nat
        &&& self.action_queue.cap() == WORKER_QUEUE_CAP as nat
        &&& self.state_queue.is_closed() == self.action_queue.is_closed()
        &&& batches_wf(self.action_queue@)
    }

    /// A fresh, connected bridge with empty queues.
    pub fn new() -> (b: PolicyBridge)
        ensures
            b.wf(),
            b.connected(),
            b.pending_states() == Seq::<GameState>::empty(),
            b.pending_actions() == Seq::<Vec<Action>>::empty(),
    {
        PolicyBridge {
            state_queue: BoundedQueue::new(WORKER_QUEUE_CAP),
            action_queue: BoundedQueue::new(WORKER_QUEUE_CAP),
        }
    }

    /// Hands one snapshot to the worker without ever blocking. A full
    /// inbox skips this tick for this worker; a closed bridge reports
    /// `Disconnected`; in both cases nothing is queued and nothing is
    /// raised past the caller.
    pub fn publish(&mut self, snapshot: GameState) -> (r: Result<(), BridgeError>)
        requires
            old(self).wf(),
        ensures
            final(self).wf(),
            final(self).connected() == old(self).connected(),
            final(self).pending_actions() == old(self).pending_actions(),
            !old(self).connected() ==> {
                &&& r == Result::<(), BridgeError>::Err(BridgeError::Disconnected)
                &&& final(self).pending_states() == old(self).pending_states()
            },
            old(self).connected() && old(self).pending_states().len() >= WORKER_QUEUE_CAP
                as nat ==> {
                &&& r == Result::<(), BridgeError>::Err(BridgeError::ChannelFull)
                &&& final(self).pending_states() == old(self).pending_states()
            },
            old(self).connected() && old(self).pending_states().len() < WORKER_QUEUE_CAP
                as nat ==> {
                &&& r == Result::<(), BridgeError>::Ok(())
                &&& final(self).pending_states() == old(self).pending_states().push(snapshot)
            },
    {
        self.state_queue.try_push(snapshot)
    }

    /// Drains the whole inbound queue and returns only the most recently
    /// produced batch: freshest wins, older batches are discarded.
    pub fn try_take_latest_actions(&mut self) -> (r: Option<Vec<Action>>)
        requires
            old(self).wf(),
        ensures
            final(self).wf(),
            final(self).connected() == old(self).connected(),
            final(self).pending_states() == old(self).pending_states(),
            final(self).pending_actions() == Seq::<Vec<Action>>::empty(),
            old(self).pending_actions().len() == 0 ==> r is None,
            old(self).pending_actions().len() > 0 ==> r == Some(
                old(self).pending_actions().last(),
            ),
            r is Some ==> actions_wf(r.unwrap()@),
    {
        let r = self.action_queue.drain_latest();
        proof {
            if old(self).pending_actions().len() > 0 {
                assert(actions_wf(
                    old(self).pending_actions()[old(self).pending_actions().len() - 1]@,
                ));
            }
        }
        r
    }

    /// The worker side takes the oldest waiting snapshot, if any.
    pub fn worker_recv_state(&mut self) -> (r: Option<GameState>)
        requires
            old(self).wf(),
        ensures
            final(self).wf(),
            final(self).connected() == old(self).connected(),
            final(self).pending_actions() == old(self).pending_actions(),
            old(self).pending_states().len() == 0 ==> r is None && final(self).pending_states()
                == old(self).pending_states(),
            old(self).pending_states().len() > 0 ==> r == Some(old(self).pending_states()[0])
                && final(self).pending_states() == old(self).pending_states().drop_first(),
    {
        self.state_queue.try_pop_front()
    }

    /// The worker side hands back one action batch; a full queue drops
    /// the batch rather than block the worker.
    pub fn worker_send_actions(&mut self, batch: Vec<Action>) -> (r: Result<(), BridgeError>)
        requires
            old(self).wf(),
            actions_wf(batch@),
        ensures
            final(self).wf(),
            final(self).connected() == old(self).connected(),
            final(self).pending_states() == old(self).pending_states(),
            !old(self).connected() ==> {
                &&& r == Result::<(), BridgeError>::Err(BridgeError::Disconnected)
                &&& final(self).pending_actions() == old(self).pending_actions()
            },
            old(self).connected() && old(self).pending_actions().len() >= WORKER_QUEUE_CAP
                as nat ==> {
                &&& r == Result::<(), BridgeError>::Err(BridgeError::ChannelFull)
                &&& final(self).pending_actions() == old(self).pending_actions()
            },
            old(self).connected() && old(self).pending_actions().len() < WORKER_QUEUE_CAP
                as nat ==> {
                &&& r == Result::<(), BridgeError>::Ok(())
                &&& final(self).pending_actions() == old(self).pending_actions().push(batch)
            },
    {
        let ghost pre = self.action_queue@;
        let r = self.action_queue.try_push(batch);
        proof {
            if !old(self).connected() || pre.len() >= WORKER_QUEUE_CAP as nat {
            } else {
                assert forall|i: int|
                    0 <= i < self.action_queue@.len() implies actions_wf(
                    #[trigger] self.action_queue@[i]@,
                ) by {
                    if i < pre.len() {
                        assert(self.action_queue@[i] == pre[i]);
                    } else {
                        assert(self.action_queue@[i] == batch);
                    }
                }
            }
        }
        r
    }

    /// One line of an out-of-process worker's output. A line that does
    /// not parse is skipped and the worker stays alive; a parsed batch is
    /// queued, or dropped without error when the queue is full.
    pub fn on_worker_line(&mut self, line: &Vec<u8>) -> (r: Result<bool, BridgeError>)
        requires
            old(self).wf(),
        ensures
            final(self).wf(),
            final(self).connected() == old(self).connected(),
            final(self).pending_states() == old(self).pending_states(),
            ({
                let before = old(self).pending_actions();
                let after = final(self).pending_actions();
                match spec_parse_action_list(line@, 0) {
                    Option::None => r == Result::<bool, BridgeError>::Err(BridgeError::ParseError)
                        && after == before,
                    Option::Some((items, p)) => {
                        if !(ws_only(line@, p) && actions_wf(items)) {
                            r == Result::<bool, BridgeError>::Err(BridgeError::ParseError) && after
                                == before
                        } else if !old(self).connected() {
                            r == Result::<bool, BridgeError>::Err(BridgeError::Disconnected)
                                && after == before
                        } else if before.len() >= WORKER_QUEUE_CAP as nat {
                            r == Result::<bool, BridgeError>::Ok(false) && after == before
                        } else {
                            r == Result::<bool, BridgeError>::Ok(true) && after.len()
                                == before.len() + 1 && after.last()@ == items
                        }
                    },
                }
            }),
    {
        let batch = match parse_actions_line(line) {
            Option::None => {
                return Err(BridgeError::ParseError);
            },
            Option::Some(b) => b,
        };
        if !actions_in_range(&batch) {
            return Err(BridgeError::ParseError);
        }
        match self.worker_send_actions(batch) {
            Ok(()) => Ok(true),
            Err(BridgeError::ChannelFull) => Ok(false),
            Err(_) => Err(BridgeError::Disconnected),
        }
    }

    /// The worker's stream ended or a write to it failed: the bridge
    /// shuts down, and the worker counts as gone from here on.
    pub fn on_stream_closed(&mut self) -> (r: BridgeError)
        requires
            old(self).wf(),
        ensures
            final(self).wf(),
            !final(self).connected(),
            final(self).pending_states() == old(self).pending_states(),
            final(self).pending_actions() == old(self).pending_actions(),
            r == BridgeError::ProcessExited,
    {
        self.state_queue.close();
        self.action_queue.close();
        BridgeError::ProcessExited
    }

    /// Detaches the bridge: the one termination signal. All queued items
    /// stay readable, and every later publish reports `Disconnected`.
    pub fn shutdown_and_join(&mut self)
        requires
            old(self).wf(),
        ensures
            final(self).wf(),
            !final(self).connected(),
            final(self).pending_states() == old(self).pending_states(),
            final(self).pending_actions() == old(self).pending_actions(),
    {
        self.state_queue.close();
        self.action_queue.close();
    }

    /// Whether the bridge still connects tick and worker.
    pub fn is_connected(&self) -> (r: bool)
        ensures
            r == self.connected(),
    {
        !self.state_queue.closed()
    }
}

/// Whether every action of a batch asks for a velocity in range; a batch
/// that does not is treated as malformed.
pub fn actions_in_range(batch: &Vec<Action>) -> (r: bool)
    ensures
        r == actions_wf(batch@),
{
    let mut i: usize = 0;
    while i < batch.len()
        invariant
            0 <= i <= batch@.len(),
            forall|t: int|
                0 <= t < i ==> match #[trigger] batch@[t] {
                    Action::Move { id, velocity } => vec2_wf(velocity),
                },
        decreases batch@.len() - i,
    {
        let Action::Move { id, velocity } = batch[i];
        if !(-2_000_000_000 <= velocity.x && velocity.x <= 2_000_000_000 && -2_000_000_000
            <= velocity.y && velocity.y <= 2_000_000_000) {
            return false;
        }
        i += 1;
    }
    true
}

} // verus!
