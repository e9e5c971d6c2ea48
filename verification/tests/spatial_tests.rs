use ctf_bridge::channel::BridgeError;
use ctf_bridge::codec::messages::{PhysicsRequest, PhysicsResponse};
use ctf_bridge::spatial::{
    answer_query, reply_or_fail_closed, reply_or_timeout, request_segment, respond, PhysicsQuery,
    QueryHub, ReplySlot, Segment2D,
};
use ctf_bridge::state::Vec2Fx;
use ctf_bridge::team::{blocking_mask, TeamId, COLLISION_LAYER_CAMP_BLOCK_BLUE,
    COLLISION_LAYER_CAMP_BLOCK_RED, COLLISION_LAYER_WALL};

fn seg(x0: i64, y0: i64, x1: i64, y1: i64) -> Segment2D {
    Segment2D { start: Vec2Fx { x: x0, y: y0 }, end: Vec2Fx { x: x1, y: y1 } }
}

#[test]
fn queries_are_answered_in_submission_order() {
    let mut hub = QueryHub::new();
    hub.submit(seg(0, 0, 1_000, 0), TeamId::Red).unwrap();
    hub.submit(seg(0, 0, 0, 2_000), TeamId::Blue).unwrap();
    let mut drained = hub.drain();
    assert_eq!(drained.len(), 2);
    // The tick answers each drained query exactly once.
    let verdicts = [true, false];
    for (q, v) in drained.iter_mut().zip(verdicts) {
        answer_query(q, v);
    }
    match &drained[0] {
        PhysicsQuery::SegmentCollision2D { seg: s, team_id, reply } => {
            assert_eq!(*s, seg(0, 0, 1_000, 0));
            assert_eq!(*team_id, TeamId::Red);
            assert_eq!(reply.get(), Some(true));
        },
    }
    match &drained[1] {
        PhysicsQuery::SegmentCollision2D { reply, .. } => assert_eq!(reply.get(), Some(false)),
    }
    // And the hub is empty afterwards.
    assert_eq!(hub.drain().len(), 0);
}

#[test]
fn closed_hub_fails_fast_instead_of_blocking() {
    let mut hub = QueryHub::new();
    hub.close();
    assert_eq!(hub.submit(seg(0, 0, 1, 1), TeamId::Red), Err(BridgeError::Disconnected));
}

#[test]
fn reply_slot_delivers_once() {
    let mut slot = ReplySlot::new();
    assert_eq!(slot.get(), None);
    slot.fulfill(true);
    assert_eq!(slot.get(), Some(true));
}

#[test]
fn missing_reply_fails_closed() {
    assert_eq!(reply_or_fail_closed(None), false, "timeout counts as blocked");
    assert_eq!(reply_or_fail_closed(Some(true)), false);
    assert_eq!(reply_or_fail_closed(Some(false)), true);
}

#[test]
fn missing_reply_surfaces_as_timeout_at_the_bridge_api() {
    assert_eq!(reply_or_timeout(None), Err(BridgeError::Timeout));
    assert_eq!(reply_or_timeout(Some(true)), Ok(true));
    assert_eq!(reply_or_timeout(Some(false)), Ok(false));
}

#[test]
fn response_echoes_the_request_id_and_fails_closed() {
    let r = respond(42, None);
    assert_eq!(r, PhysicsResponse { id: 42, free: false });
    let r = respond(42, Some(false));
    assert_eq!(r, PhysicsResponse { id: 42, free: true });
    let r = respond(7, Some(true));
    assert_eq!(r, PhysicsResponse { id: 7, free: false });
}

#[test]
fn request_segment_reads_the_wire_fields() {
    let q = PhysicsRequest {
        id: 5,
        start: Vec2Fx { x: 1, y: 2 },
        end: Vec2Fx { x: 3, y: 4 },
        team: TeamId::Blue,
    };
    let (s, team) = request_segment(&q);
    assert_eq!(s, seg(1, 2, 3, 4));
    assert_eq!(team, TeamId::Blue);
}

#[test]
fn blocking_masks_pick_the_side_specific_camp_zone() {
    assert_eq!(blocking_mask(TeamId::Red), COLLISION_LAYER_WALL | COLLISION_LAYER_CAMP_BLOCK_RED);
    assert_eq!(
        blocking_mask(TeamId::Blue),
        COLLISION_LAYER_WALL | COLLISION_LAYER_CAMP_BLOCK_BLUE,
    );
}

#[test]
fn teams_are_each_others_other() {
    assert_eq!(TeamId::Red.other(), TeamId::Blue);
    assert_eq!(TeamId::Blue.other(), TeamId::Red);
}
