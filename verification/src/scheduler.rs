//! The tick scheduler: a repeating timer, the pair of worker bridges it
//! feeds, and the application of the freshest decisions.
//!
//! Once per elapsed interval the scheduler publishes the current snapshot
//! to both workers (and to an observer, if one is attached), never
//! blocking and simply skipping a worker whose inbox is full. On every
//! tick it drains each worker's replies, applies only the most recent
//! batch, rescales any over-limit velocity, and ignores unknown agent
//! ids.

use vstd::arithmetic::div_mod::lemma_fundamental_div_mod;
use vstd::prelude::*;

use crate::action::{resolve_batch, resolve_batch_spec, Action, AgentInfo, MovementEvent, roster_wf};
use crate::channel::BoundedQueue;
use crate::state::{GameState, GameStateV};
use crate::worker::{PolicyBridge, WORKER_QUEUE_CAP};

verus! {

/// The slowest publish rate the scheduler accepts, in ticks per second.
pub const MIN_RATE_HZ: u64 = 1;

/// The fastest publish rate the scheduler accepts, in ticks per second.
pub const MAX_RATE_HZ: u64 = 240;

/// How many snapshots an observer queue buffers.
pub const HARNESS_QUEUE_CAP: usize = 256;

/// A requested rate, clamped into the accepted range.
pub open spec fn clamp_rate(hz: u64) -> u64 {
    if hz < MIN_RATE_HZ {
        MIN_RATE_HZ
    } else if hz > MAX_RATE_HZ {
        MAX_RATE_HZ
    } else {
        hz
    }
}

/// A repeating timer: it accumulates elapsed time and fires once per
/// whole interval, independent of how the host schedules updates.
pub struct TickTimer {
    interval_us: u64,
    acc_us: u64,
}

impl TickTimer {
    /// The length of one interval, in microseconds.
    pub closed spec fn interval(&self) -> u64 {
        self.interval_us
    }

    /// How much of the next interval has already elapsed.
    pub closed spec fn elapsed(&self) -> u64 {
        self.acc_us
    }

    /// The accumulator always stays below one interval.
    pub closed spec fn wf(&self) -> bool {
        0 < self.interval_us <= 1_000_000 && self.acc_us < self.interval_us
    }

    /// A timer for the given rate, clamped to the accepted range.
    pub fn new(rate_hz: u64) -> (t: TickTimer)
        ensures
            t.wf(),
            t.interval() == 1_000_000u64 / clamp_rate(rate_hz),
            t.elapsed() == 0,
    {
        let hz = if rate_hz < MIN_RATE_HZ {
            MIN_RATE_HZ
        } else if rate_hz > MAX_RATE_HZ {
            MAX_RATE_HZ
        } else {
            rate_hz
        };
        proof {
            lemma_fundamental_div_mod(1_000_000, hz as int);
            let q = 1_000_000int / (hz as int);
            assert(hz as int * q >= 1_000_000 - (hz as int) + 1);
            assert(q >= 1) by (nonlinear_arith)
                requires
                    1 <= hz as int <= 240 && hz as int * q >= 1_000_000 - (hz as int) + 1,
            ;
            assert(q <= 1_000_000) by (nonlinear_arith)
                requires
                    1 <= hz as int && hz as int * q + (1_000_000int % (hz as int)) == 1_000_000
                        && 1_000_000int % (hz as int) >= 0,
            ;
        }
        TickTimer { interval_us: 1_000_000 / hz, acc_us: 0 }
    }

    /// Advances the timer and reports whether a whole interval elapsed.
    /// Time beyond whole intervals is carried into the next one.
    pub fn tick(&mut self, delta_us: u64) -> (fired: bool)
        requires
            old(self).wf(),
            delta_us <= 0xffff_ffff_ffff_ffffu64 - 1_000_000,
        ensures
            final(self).wf(),
            final(self).interval() == old(self).interval(),
            fired == (old(self).elapsed() + delta_us >= old(self).interval()),
            fired ==> final(self).elapsed() == (old(self).elapsed() + delta_us) as u64 % old(self).interval(),
            !fired ==> final(self).elapsed() == old(self).elapsed() + delta_us,
    {
        let total = self.acc_us + delta_us;
        if total >= self.interval_us {
            self.acc_us = total % self.interval_us;
            true
        } else {
            self.acc_us = total;
            false
        }
    }
}

/// The observer channel of an external test harness: snapshots flow out
/// with the same drop-if-full rule, and the harness can ask the
/// simulation to stop.
pub struct TestHarnessBridge {
    state_queue: BoundedQueue<GameState>,
    stop: bool,
}

impl TestHarnessBridge {
    /// The snapshots waiting for the harness, oldest first.
    pub closed spec fn pending_states(&self) -> Seq<GameState> {
        self.state_queue@
    }

    /// Whether the harness asked the simulation to stop.
    pub closed spec fn stop_requested(&self) -> bool {
        self.stop
    }

    /// The queue stays within its bound.
    pub closed spec fn wf(&self) -> bool {
        self.state_queue.wf() && self.state_queue.cap() == HARNESS_QUEUE_CAP as nat
            && !self.state_queue.is_closed()
    }

    /// A fresh observer with an empty queue and no stop request.
    pub fn new() -> (b: TestHarnessBridge)
        ensures
            b.wf(),
            b.pending_states() == Seq::<GameState>::empty(),
            !b.stop_requested(),
    {
        TestHarnessBridge { state_queue: BoundedQueue::new(HARNESS_QUEUE_CAP), stop: false }
    }

    /// Offers one snapshot; a full queue drops it silently, and the call
    /// never blocks and never raises past the caller.
    pub fn offer(&mut self, snapshot: GameState)
        requires
            old(self).wf(),
        ensures
            final(self).wf(),
            final(self).stop_requested() == old(self).stop_requested(),
            old(self).pending_states().len() >= HARNESS_QUEUE_CAP as nat ==> final(self).pending_states() == old(self).pending_states(),
            old(self).pending_states().len() < HARNESS_QUEUE_CAP as nat ==> final(self).pending_states() == old(self).pending_states().push(snapshot),
    {
        let _ = self.state_queue.try_push(snapshot);
    }

    /// The harness takes the oldest snapshot it has not yet seen.
    pub fn take_state(&mut self) -> (r: Option<GameState>)
        requires
            old(self).wf(),
        ensures
            final(self).wf(),
            final(self).stop_requested() == old(self).stop_requested(),
            old(self).pending_states().len() == 0 ==> r is None && final(self).pending_states()
                == old(self).pending_states(),
            old(self).pending_states().len() > 0 ==> r == Some(old(self).pending_states()[0])
                && final(self).pending_states() == old(self).pending_states().drop_first(),
    {
        self.state_queue.try_pop_front()
    }

    /// The harness asks the simulation to stop.
    pub fn request_stop(&mut self)
        requires
            old(self).wf(),
        ensures
            final(self).wf(),
            final(self).stop_requested(),
            final(self).pending_states() == old(self).pending_states(),
    {
        self.stop = true;
    }

    /// Whether a stop was requested.
    pub fn should_stop(&self) -> (r: bool)
        ensures
            r == self.stop_requested(),
    {
        self.stop
    }
}

/// The mathematical values of queued snapshots, in order.
pub open spec fn snapshot_views(q: Seq<GameState>) -> Seq<GameStateV> {
    q.map_values(|g: GameState| g@)
}

/// The movement events one worker's queue yields on a tick: those of its
/// most recent batch, or none.
pub open spec fn latest_batch_events(q: Seq<Vec<Action>>, roster: Seq<AgentInfo>) -> Seq<
    MovementEvent,
> {
    if q.len() == 0 {
        Seq::empty()
    } else {
        resolve_batch_spec(q.last()@, roster)
    }
}

/// Both workers' bridges and the optional observer, as one scheduler
/// resource.
pub struct ControlBridge {
    pub red: PolicyBridge,
    pub blue: PolicyBridge,
    pub test: Option<TestHarnessBridge>,
}

impl ControlBridge {
    /// All parts well formed.
    pub open spec fn wf(&self) -> bool {
        &&& self.red.wf()
        &&& self.blue.wf()
        &&& (match self.test {
            Option::None => true,
            Option::Some(t) => t.wf(),
        })
    }

    /// A scheduler over two worker bridges and an optional observer.
    pub fn new(red: PolicyBridge, blue: PolicyBridge, test: Option<TestHarnessBridge>) -> (b:
        ControlBridge)
        requires
            red.wf(),
            blue.wf(),
            (match test {
                Option::None => true,
                Option::Some(t) => t.wf(),
            }),
        ensures
            b.wf(),
            b.red == red,
            b.blue == blue,
            b.test == test,
    {
        ControlBridge { red, blue, test }
    }

    /// When the timer fires, hands the snapshot to both workers and the
    /// observer, never blocking: a full or disconnected receiver just
    /// misses this tick. Reports whether it published.
    pub fn send_game_states(
        &mut self,
        timer: &mut TickTimer,
        delta_us: u64,
        snapshot: &GameState,
    ) -> (published: bool)
        requires
            old(self).wf(),
            old(timer).wf(),
            delta_us <= 0xffff_ffff_ffff_ffffu64 - 1_000_000,
        ensures
            final(self).wf(),
            final(timer).wf(),
            final(timer).interval() == old(timer).interval(),
            published == (old(timer).elapsed() + delta_us >= old(timer).interval()),
            !published ==> *final(self) == *old(self),
            published ==> {
                &&& final(self).red.connected() == old(self).red.connected()
                &&& final(self).blue.connected() == old(self).blue.connected()
                &&& final(self).red.pending_actions() == old(self).red.pending_actions()
                &&& final(self).blue.pending_actions() == old(self).blue.pending_actions()
                &&& (old(self).red.connected() && old(self).red.pending_states().len()
                    < WORKER_QUEUE_CAP as nat ==> snapshot_views(final(self).red.pending_states())
                    == snapshot_views(old(self).red.pending_states()).push(snapshot@))
                &&& (!(old(self).red.connected() && old(self).red.pending_states().len()
                    < WORKER_QUEUE_CAP as nat) ==> final(self).red.pending_states() == old(
                    self,
                ).red.pending_states())
                &&& (old(self).blue.connected() && old(self).blue.pending_states().len()
                    < WORKER_QUEUE_CAP as nat ==> snapshot_views(
                    final(self).blue.pending_states(),
                ) == snapshot_views(old(self).blue.pending_states()).push(snapshot@))
                &&& (!(old(self).blue.connected() && old(self).blue.pending_states().len()
                    < WORKER_QUEUE_CAP as nat) ==> final(self).blue.pending_states() == old(
                    self,
                ).blue.pending_states())
                &&& (match old(self).test {
                    Option::None => final(self).test is None,
                    Option::Some(t) => final(self).test is Some && {
                        let t2 = final(self).test.unwrap();
                        &&& t2.stop_requested() == t.stop_requested()
                        &&& (t.pending_states().len() < HARNESS_QUEUE_CAP as nat ==> snapshot_views(
                            t2.pending_states(),
                        ) == snapshot_views(t.pending_states()).push(snapshot@))
                        &&& (t.pending_states().len() >= HARNESS_QUEUE_CAP as nat ==> t2.pending_states() == t.pending_states())
                    },
                })
            },
    {
        if !timer.tick(delta_us) {
            return false;
        }
        let ghost pre_red = self.red.pending_states();
        let copy_red = snapshot.duplicate();
        let _ = self.red.publish(copy_red);
        proof {
            if old(self).red.connected() && pre_red.len() < WORKER_QUEUE_CAP as nat {
                assert(snapshot_views(self.red.pending_states()) =~= snapshot_views(pre_red).push(
                    snapshot@,
                ));
            }
        }
        let ghost pre_blue = self.blue.pending_states();
        let copy_blue = snapshot.duplicate();
        let _ = self.blue.publish(copy_blue);
        proof {
            if old(self).blue.connected() && pre_blue.len() < WORKER_QUEUE_CAP as nat {
                assert(snapshot_views(self.blue.pending_states()) =~= snapshot_views(
                    pre_blue,
                ).push(snapshot@));
            }
        }
        match &mut self.test {
            Option::None => {},
            Option::Some(t) => {
                let ghost pre_test = t.pending_states();
                let copy_test = snapshot.duplicate();
                t.offer(copy_test);
                proof {
                    if pre_test.len() < HARNESS_QUEUE_CAP as nat {
                        assert(snapshot_views(t.pending_states()) =~= snapshot_views(
                            pre_test,
                        ).push(snapshot@));
                    }
                }
            },
        }
        true
    }

    /// Drains both workers and applies only the most recent batch from
    /// each: red first, then blue. Unknown ids are skipped, over-limit
    /// velocities rescaled.
    pub fn apply_actions(&mut self, roster: &Vec<AgentInfo>) -> (r: Vec<MovementEvent>)
        requires
            old(self).wf(),
            roster_wf(roster@),
        ensures
            final(self).wf(),
            final(self).red.connected() == old(self).red.connected(),
            final(self).blue.connected() == old(self).blue.connected(),
            final(self).red.pending_states() == old(self).red.pending_states(),
            final(self).blue.pending_states() == old(self).blue.pending_states(),
            final(self).test == old(self).test,
            final(self).red.pending_actions() == Seq::<Vec<Action>>::empty(),
            final(self).blue.pending_actions() == Seq::<Vec<Action>>::empty(),
            r@ == latest_batch_events(old(self).red.pending_actions(), roster@)
                + latest_batch_events(old(self).blue.pending_actions(), roster@),
    {
        let mut out: Vec<MovementEvent> = Vec::new();
        let ghost red_events = latest_batch_events(old(self).red.pending_actions(), roster@);
        let ghost blue_events = latest_batch_events(old(self).blue.pending_actions(), roster@);
        match self.red.try_take_latest_actions() {
            Option::None => {
                proof {
                    assert(out@ =~= red_events);
                }
            },
            Option::Some(batch) => {
                let mut events = resolve_batch(&batch, roster);
                out.append(&mut events);
                proof {
                    assert(out@ =~= red_events);
                }
            },
        }
        match self.blue.try_take_latest_actions() {
            Option::None => {
                proof {
                    assert(out@ =~= red_events + blue_events);
                }
            },
            Option::Some(batch) => {
                let mut events = resolve_batch(&batch, roster);
                out.append(&mut events);
                proof {
                    assert(out@ =~= red_events + blue_events);
                }
            },
        }
        out
    }
}

/// Freshest wins: whatever stood queued before, after a run of accepted
/// pushes a single drain applies exactly the last batch pushed.
pub proof fn lemma_freshest_wins(before: Seq<Vec<Action>>, pushed: Seq<Vec<Action>>)
    requires
        pushed.len() > 0,
    ensures
        (before + pushed).len() > 0,
        (before + pushed).last() == pushed.last(),
{
}

} // verus!
