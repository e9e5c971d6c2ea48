use ctf_bridge::action::{Action, AgentInfo, MovementEvent};
use ctf_bridge::channel::{BoundedQueue, BridgeError};
use ctf_bridge::scheduler::{ControlBridge, TestHarnessBridge, TickTimer};
use ctf_bridge::state::{GameState, Vec2Fx};
use ctf_bridge::worker::{PolicyBridge, WORKER_QUEUE_CAP};

fn batch(id: u32, x: i64, y: i64) -> Vec<Action> {
    vec![Action::Move { id, velocity: Vec2Fx { x, y } }]
}

fn empty_state() -> GameState {
    GameState {
        red_score: 0,
        blue_score: 0,
        red_team: vec![],
        blue_team: vec![],
        red_flags: vec![],
        blue_flags: vec![],
        num_flags_per_team: 0,
        red_capture_points: vec![],
        blue_capture_points: vec![],
    }
}

#[test]
fn drain_applies_exactly_the_last_pushed_batch() {
    let mut q: BoundedQueue<Vec<Action>> = BoundedQueue::new(8);
    for i in 1..=5u32 {
        q.try_push(batch(i, 100, 0)).unwrap();
    }
    let latest = q.drain_latest().expect("five batches were queued");
    assert_eq!(latest, batch(5, 100, 0));
    assert_eq!(q.drain_latest(), None, "the drain leaves nothing behind");
}

#[test]
fn push_into_full_queue_reports_full_and_changes_nothing() {
    let mut q: BoundedQueue<u32> = BoundedQueue::new(2);
    assert_eq!(q.try_push(1), Ok(()));
    assert_eq!(q.try_push(2), Ok(()));
    assert_eq!(q.try_push(3), Err(BridgeError::ChannelFull));
    assert_eq!(q.len(), 2);
    assert_eq!(q.drain_latest(), Some(2), "the overflow item was dropped, not queued");
}

#[test]
fn closed_queue_reports_disconnected() {
    let mut q: BoundedQueue<u32> = BoundedQueue::new(2);
    q.try_push(1).unwrap();
    q.close();
    assert_eq!(q.try_push(2), Err(BridgeError::Disconnected));
    assert_eq!(q.drain_latest(), Some(1), "queued items stay readable");
}

#[test]
fn pop_front_is_in_order() {
    let mut q: BoundedQueue<u32> = BoundedQueue::new(4);
    q.try_push(10).unwrap();
    q.try_push(20).unwrap();
    assert_eq!(q.try_pop_front(), Some(10));
    assert_eq!(q.try_pop_front(), Some(20));
    assert_eq!(q.try_pop_front(), None);
}

#[test]
fn policy_bridge_freshest_wins_under_capacity_pressure() {
    let mut b = PolicyBridge::new();
    // The inbound queue holds two batches; a third is dropped (newest
    // loses the queue slot race, as the worker side does not block).
    assert_eq!(b.worker_send_actions(batch(1, 0, 0)), Ok(()));
    assert_eq!(b.worker_send_actions(batch(2, 0, 0)), Ok(()));
    assert_eq!(b.worker_send_actions(batch(3, 0, 0)), Err(BridgeError::ChannelFull));
    let latest = b.try_take_latest_actions().unwrap();
    assert_eq!(latest, batch(2, 0, 0));
    assert_eq!(b.try_take_latest_actions(), None);
}

#[test]
fn publish_when_full_skips_that_tick_without_blocking() {
    let mut b = PolicyBridge::new();
    for _ in 0..WORKER_QUEUE_CAP {
        assert_eq!(b.publish(empty_state()), Ok(()));
    }
    assert_eq!(b.publish(empty_state()), Err(BridgeError::ChannelFull));
    // The worker still sees the snapshots that made it in, in order.
    assert!(b.worker_recv_state().is_some());
    assert!(b.worker_recv_state().is_some());
    assert!(b.worker_recv_state().is_none());
}

#[test]
fn publish_after_shutdown_reports_disconnected() {
    let mut b = PolicyBridge::new();
    b.shutdown_and_join();
    assert!(!b.is_connected());
    assert_eq!(b.publish(empty_state()), Err(BridgeError::Disconnected));
    assert_eq!(b.worker_send_actions(batch(1, 0, 0)), Err(BridgeError::Disconnected));
}

#[test]
fn worker_line_protocol_feeds_the_action_queue() {
    let mut b = PolicyBridge::new();
    let line = b"[{\"Move\":{\"id\":7,\"velocity\":[1.000,0.000]}}]\n".to_vec();
    assert_eq!(b.on_worker_line(&line), Ok(true));
    let latest = b.try_take_latest_actions().unwrap();
    assert_eq!(latest, batch(7, 1_000, 0));
}

#[test]
fn malformed_worker_line_is_skipped_and_worker_lives_on() {
    let mut b = PolicyBridge::new();
    let bad = b"not json at all\n".to_vec();
    assert_eq!(b.on_worker_line(&bad), Err(BridgeError::ParseError));
    assert!(b.is_connected(), "a parse error never kills the worker");
    let good = b"[{\"Move\":{\"id\":1,\"velocity\":[0.000,0.000]}}]\n".to_vec();
    assert_eq!(b.on_worker_line(&good), Ok(true));
}

#[test]
fn stream_end_marks_the_worker_disconnected() {
    let mut b = PolicyBridge::new();
    assert_eq!(b.on_stream_closed(), BridgeError::ProcessExited);
    assert!(!b.is_connected());
    assert_eq!(b.publish(empty_state()), Err(BridgeError::Disconnected));
}

#[test]
fn tick_timer_fires_once_per_interval() {
    let mut t = TickTimer::new(60);
    // 60 Hz -> 16666 microseconds per interval.
    assert!(!t.tick(10_000));
    assert!(t.tick(7_000));
    assert!(!t.tick(16_000));
    assert!(t.tick(1_000));
}

#[test]
fn tick_timer_rate_is_clamped() {
    let mut slow = TickTimer::new(0);
    assert!(!slow.tick(999_999));
    assert!(slow.tick(1), "rate 0 is clamped to one tick per second");
    let mut fast = TickTimer::new(100_000);
    assert!(fast.tick(4_166), "rate is clamped to 240 ticks per second");
}

#[test]
fn scheduler_applies_rescaled_and_known_actions_only() {
    let red = PolicyBridge::new();
    let blue = PolicyBridge::new();
    let mut cb = ControlBridge::new(red, blue, None);
    let roster = vec![AgentInfo { id: 1, max_speed: 2_500 }];
    // A request at speed 5000 in direction (3,4): rescaled to magnitude
    // 2500, keeping the direction exactly: (1500, 2000).
    let over = vec![
        Action::Move { id: 1, velocity: Vec2Fx { x: 3_000, y: 4_000 } },
        Action::Move { id: 99, velocity: Vec2Fx { x: 1, y: 1 } },
    ];
    let line = ctf_bridge::codec::messages::serialize_actions_line(&over);
    assert_eq!(cb.red.on_worker_line(&line), Ok(true));
    let events = cb.apply_actions(&roster);
    assert_eq!(events, vec![MovementEvent::TranslateById(1, Vec2Fx { x: 1_500, y: 2_000 })]);
}

#[test]
fn scheduler_keeps_within_limit_requests_unchanged() {
    let red = PolicyBridge::new();
    let blue = PolicyBridge::new();
    let mut cb = ControlBridge::new(red, blue, None);
    let roster = vec![AgentInfo { id: 2, max_speed: 10_000 }];
    let ok = vec![Action::Move { id: 2, velocity: Vec2Fx { x: -6_000, y: 8_000 } }];
    let line = ctf_bridge::codec::messages::serialize_actions_line(&ok);
    assert_eq!(cb.blue.on_worker_line(&line), Ok(true));
    let events = cb.apply_actions(&roster);
    assert_eq!(events, vec![MovementEvent::TranslateById(2, Vec2Fx { x: -6_000, y: 8_000 })]);
}

#[test]
fn rescaling_preserves_signs() {
    let red = PolicyBridge::new();
    let blue = PolicyBridge::new();
    let mut cb = ControlBridge::new(red, blue, None);
    let roster = vec![AgentInfo { id: 1, max_speed: 2_500 }];
    let over = vec![Action::Move { id: 1, velocity: Vec2Fx { x: -3_000, y: -4_000 } }];
    let line = ctf_bridge::codec::messages::serialize_actions_line(&over);
    assert_eq!(cb.red.on_worker_line(&line), Ok(true));
    let events = cb.apply_actions(&roster);
    assert_eq!(events, vec![MovementEvent::TranslateById(1, Vec2Fx { x: -1_500, y: -2_000 })]);
}

#[test]
fn send_game_states_publishes_only_when_the_timer_fires() {
    let red = PolicyBridge::new();
    let blue = PolicyBridge::new();
    let mut cb = ControlBridge::new(red, blue, Some(TestHarnessBridge::new()));
    let mut timer = TickTimer::new(60);
    let snapshot = empty_state();
    assert!(!cb.send_game_states(&mut timer, 1_000, &snapshot));
    assert!(cb.send_game_states(&mut timer, 16_000, &snapshot));
    // Both workers and the observer got the snapshot.
    assert_eq!(cb.red.worker_recv_state().unwrap(), snapshot);
    assert_eq!(cb.blue.worker_recv_state().unwrap(), snapshot);
    match &mut cb.test {
        Some(t) => assert_eq!(t.take_state().unwrap(), snapshot),
        None => unreachable!(),
    }
}

#[test]
fn harness_stop_request_is_observed() {
    let mut t = TestHarnessBridge::new();
    assert!(!t.should_stop());
    t.request_stop();
    assert!(t.should_stop());
}
