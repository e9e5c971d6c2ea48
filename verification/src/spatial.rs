//! The spatial query bridge: one hub carries one-shot segment queries
//! from any caller into the simulation tick, which answers each exactly
//! once.
//!
//! The hub is an explicit handle passed to whoever may ask, not hidden
//! global state. While the simulation is not running the hub is closed
//! and submission fails fast instead of waiting forever. Each query owns
//! a single-use reply slot; the tick's drain answers every pending query
//! once, in order. A caller that gives up waiting treats the missing
//! answer as "blocked": the bridge fails closed, never open.

use vstd::prelude::*;

use crate::channel::BridgeError;
use crate::codec::messages::{PhysicsRequest, PhysicsResponse};
use crate::state::Vec2Fx;
use crate::team::TeamId;

verus! {

/// A straight path through the world, in fixed-point thousandths.
#[derive(Debug, Clone, Copy, PartialEq, Eq, Structural)]
pub struct Segment2D {
    pub start: Vec2Fx,
    pub end: Vec2Fx,
}

/// A single-use slot for one query's answer.
pub struct ReplySlot {
    value: Option<bool>,
}

impl ReplySlot {
    /// The delivered answer, if one arrived.
    pub closed spec fn reply(&self) -> Option<bool> {
        self.value
    }

    /// Whether the answer was already delivered.
    pub open spec fn delivered(&self) -> bool {
        self.reply() is Some
    }

    /// An empty slot.
    pub fn new() -> (r: ReplySlot)
        ensures
            !r.delivered(),
    {
        ReplySlot { value: None }
    }

    /// Delivers the answer. A slot accepts exactly one delivery.
    pub fn fulfill(&mut self, collided: bool)
        requires
            !old(self).delivered(),
        ensures
            final(self).delivered(),
            final(self).reply() == Some(collided),
    {
        self.value = Some(collided);
    }

    /// Reads the answer out, if one arrived.
    pub fn get(&self) -> (r: Option<bool>)
        ensures
            r == self.reply(),
    {
        self.value
    }
}

/// One spatial query: a segment, the side asking, and the slot its
/// answer goes to.
pub enum PhysicsQuery {
    SegmentCollision2D { seg: Segment2D, team_id: TeamId, reply: ReplySlot },
}

/// A pending query still awaits its answer.
pub open spec fn query_pending(q: PhysicsQuery) -> bool {
    match q {
        PhysicsQuery::SegmentCollision2D { seg, team_id, reply } => !reply.delivered(),
    }
}

/// An answered query carries a delivered reply.
pub open spec fn query_answered(q: PhysicsQuery) -> bool {
    match q {
        PhysicsQuery::SegmentCollision2D { seg, team_id, reply } => reply.delivered(),
    }
}

/// The hub the simulation drains once per tick. Queries submitted while
/// it is open wait in order; a closed hub turns submissions away at once.
pub struct QueryHub {
    pending: Vec<PhysicsQuery>,
    open: bool,
}

impl QueryHub {
    /// The queries waiting for the next tick, oldest first.
    pub closed spec fn pending(&self) -> Seq<PhysicsQuery> {
        self.pending@
    }

    /// Whether the simulation is accepting queries.
    pub closed spec fn is_open(&self) -> bool {
        self.open
    }

    /// Every waiting query still awaits its answer.
    pub open spec fn wf(&self) -> bool {
        forall|i: int| 0 <= i < self.pending().len() ==> query_pending(#[trigger] self.pending()[i])
    }

    /// An open hub with nothing pending.
    pub fn new() -> (h: QueryHub)
        ensures
            h.wf(),
            h.is_open(),
            h.pending() == Seq::<PhysicsQuery>::empty(),
    {
        QueryHub { pending: Vec::new(), open: true }
    }

    /// Submits one segment query. While the simulation is not running
    /// this fails fast with `Disconnected` instead of blocking forever.
    pub fn submit(&mut self, seg: Segment2D, team_id: TeamId) -> (r: Result<(), BridgeError>)
        requires
            old(self).wf(),
        ensures
            final(self).wf(),
            final(self).is_open() == old(self).is_open(),
            !old(self).is_open() ==> {
                &&& r == Result::<(), BridgeError>::Err(BridgeError::Disconnected)
                &&& final(self).pending() == old(self).pending()
            },
            old(self).is_open() ==> {
                &&& r == Result::<(), BridgeError>::Ok(())
                &&& final(self).pending().len() == old(self).pending().len() + 1
                &&& (match final(self).pending().last() {
                    PhysicsQuery::SegmentCollision2D { seg: s2, team_id: t2, reply } => s2 == seg
                        && t2 == team_id && !reply.delivered(),
                })
                &&& final(self).pending().take(old(self).pending().len() as int) == old(
                    self,
                ).pending()
            },
    {
        if !self.open {
            return Err(BridgeError::Disconnected);
        }
        let ghost pre = self.pending@;
        let slot = ReplySlot::new();
        let q = PhysicsQuery::SegmentCollision2D { seg, team_id, reply: slot };
        proof {
            assert(query_pending(q));
        }
        self.pending.push(q);
        proof {
            assert(self.pending@.take(pre.len() as int) =~= pre);
            assert(pre == old(self).pending());
            assert forall|i: int| 0 <= i < self.pending().len() implies query_pending(
                #[trigger] self.pending()[i],
            ) by {
                if i < pre.len() {
                    assert(query_pending(old(self).pending()[i]));
                    assert(self.pending()[i] == pre[i]);
                } else {
                    assert(self.pending()[i] == q);
                    assert(query_pending(q));
                }
            }
        }
        Ok(())
    }

    /// Takes every pending query, in submission order, leaving none
    /// behind: the tick answers them all.
    pub fn drain(&mut self) -> (r: Vec<PhysicsQuery>)
        requires
            old(self).wf(),
        ensures
            final(self).wf(),
            final(self).is_open() == old(self).is_open(),
            final(self).pending() == Seq::<PhysicsQuery>::empty(),
            r@ == old(self).pending(),
            forall|i: int| 0 <= i < r@.len() ==> query_pending(#[trigger] r@[i]),
    {
        let mut taken: Vec<PhysicsQuery> = Vec::new();
        core::mem::swap(&mut taken, &mut self.pending);
        proof {
            assert(self.pending@ =~= Seq::<PhysicsQuery>::empty());
        }
        taken
    }

    /// Closes the hub: the simulation stopped; later submissions fail
    /// fast.
    pub fn close(&mut self)
        requires
            old(self).wf(),
        ensures
            final(self).wf(),
            !final(self).is_open(),
            final(self).pending() == old(self).pending(),
    {
        self.open = false;
        proof {
            assert forall|i: int| 0 <= i < self.pending().len() implies query_pending(
                #[trigger] self.pending()[i],
            ) by {
                assert(self.pending()[i] == old(self).pending()[i]);
            }
        }
    }
}

/// Answers one drained query with the collision verdict the spatial index
/// gave for its segment and team. Each query is answered exactly once.
pub fn answer_query(q: &mut PhysicsQuery, collided: bool)
    requires
        query_pending(*old(q)),
    ensures
        query_answered(*final(q)),
        (match (*old(q), *final(q)) {
            (
                PhysicsQuery::SegmentCollision2D { seg: s1, team_id: t1, reply: r1 },
                PhysicsQuery::SegmentCollision2D { seg: s2, team_id: t2, reply: r2 },
            ) => s1 == s2 && t1 == t2 && r2.reply() == Some(collided),
        }),
{
    match q {
        PhysicsQuery::SegmentCollision2D { seg, team_id, reply } => {
            reply.fulfill(collided);
        },
    }
}

/// What a waiting caller does with its reply: a delivered verdict is
/// taken as it is, and no verdict in time counts as a collision, so the
/// answer fails closed ("blocked"), never open.
pub fn reply_or_fail_closed(reply: Option<bool>) -> (free: bool)
    ensures
        free == (reply == Some(false)),
{
    match reply {
        Some(collided) => !collided,
        None => false,
    }
}

/// The same policy at the bridge's own interface: a missing verdict is
/// surfaced as an explicit timeout, not guessed at.
pub fn reply_or_timeout(reply: Option<bool>) -> (r: Result<bool, BridgeError>)
    ensures
        reply is Some ==> r == Result::<bool, BridgeError>::Ok(reply.unwrap()),
        reply is None ==> r == Result::<bool, BridgeError>::Err(BridgeError::Timeout),
{
    match reply {
        Some(collided) => Ok(collided),
        None => Err(BridgeError::Timeout),
    }
}

/// The response the server writes for a request: the caller's id echoed
/// verbatim, and `free` exactly when a verdict arrived and was "no
/// collision" — a timed-out query reports not free.
pub fn respond(request_id: u64, reply: Option<bool>) -> (r: PhysicsResponse)
    ensures
        r.id == request_id,
        r.free == (reply == Some(false)),
{
    PhysicsResponse { id: request_id, free: reply_or_fail_closed(reply) }
}

/// The segment and team a request asks about.
pub fn request_segment(q: &PhysicsRequest) -> (r: (Segment2D, TeamId))
    ensures
        r.0.start == q.start,
        r.0.end == q.end,
        r.1 == q.team,
{
    (Segment2D { start: q.start, end: q.end }, q.team)
}

} // verus!
