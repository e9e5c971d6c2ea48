use ctf_bridge::action::clamp_velocity;
use ctf_bridge::codec::snapshot::serialize_game_state;
use ctf_bridge::sorting::{sort_agents_by_id, sort_capture_points_by_id, sort_flags_by_id};
use ctf_bridge::state::{
    AgentState, CapturePointState, FlagState, FlagStatus, GameState, Vec2Fx, COORD_LIMIT,
};
use ctf_bridge::team::TeamId;

fn agent(id: u32) -> AgentState {
    AgentState {
        name: format!("Agent {id}").into_bytes(),
        id,
        team: TeamId::Red,
        position: Vec2Fx { x: 0, y: 0 },
        max_speed: 10_000,
        has_flag: false,
    }
}

#[test]
fn agents_sort_by_id() {
    let v = vec![agent(5), agent(1), agent(3)];
    let sorted = sort_agents_by_id(v);
    let ids: Vec<u32> = sorted.iter().map(|a| a.id).collect();
    assert_eq!(ids, vec![1, 3, 5]);
}

#[test]
fn equal_ids_are_all_kept() {
    let v = vec![agent(2), agent(2), agent(1)];
    let sorted = sort_agents_by_id(v);
    let ids: Vec<u32> = sorted.iter().map(|a| a.id).collect();
    assert_eq!(ids, vec![1, 2, 2]);
}

#[test]
fn flags_and_capture_points_sort_by_id() {
    let f = |id: u32| FlagState {
        id,
        name: b"f".to_vec(),
        team: TeamId::Blue,
        position: Vec2Fx { x: 0, y: 0 },
        status: FlagStatus::Captured,
    };
    let sorted = sort_flags_by_id(vec![f(9), f(4)]);
    assert_eq!(sorted.iter().map(|x| x.id).collect::<Vec<_>>(), vec![4, 9]);
    let c = |id: u32| CapturePointState {
        name: b"c".to_vec(),
        id,
        team: TeamId::Red,
        position: Vec2Fx { x: 0, y: 0 },
        has_flag: false,
    };
    let sorted = sort_capture_points_by_id(vec![c(7), c(2), c(8)]);
    assert_eq!(sorted.iter().map(|x| x.id).collect::<Vec<_>>(), vec![2, 7, 8]);
}

#[test]
fn sorting_makes_serialization_deterministic() {
    let mk = |team: Vec<AgentState>| GameState {
        red_score: 0,
        blue_score: 0,
        red_team: team,
        blue_team: vec![],
        red_flags: vec![],
        blue_flags: vec![],
        num_flags_per_team: 0,
        red_capture_points: vec![],
        blue_capture_points: vec![],
    };
    let a = mk(sort_agents_by_id(vec![agent(2), agent(1)]));
    let b = mk(sort_agents_by_id(vec![agent(1), agent(2)]));
    assert_eq!(serialize_game_state(&a), serialize_game_state(&b));
}

#[test]
fn clamp_keeps_slow_requests_exactly() {
    let v = Vec2Fx { x: 300, y: -400 };
    assert_eq!(clamp_velocity(v, 500), v);
    assert_eq!(clamp_velocity(v, 501), v);
}

#[test]
fn clamp_rescales_to_the_maximum_magnitude() {
    // (3,4) at twice the limit: scaled to exactly (1500, 2000), |v| = 2500.
    let v = Vec2Fx { x: 3_000, y: 4_000 };
    assert_eq!(clamp_velocity(v, 2_500), Vec2Fx { x: 1_500, y: 2_000 });
}

#[test]
fn clamp_never_exceeds_the_limit() {
    let cases = [
        (Vec2Fx { x: COORD_LIMIT, y: COORD_LIMIT }, 1_000),
        (Vec2Fx { x: 1, y: 1 }, 1),
        (Vec2Fx { x: -999, y: 1_234 }, 700),
        (Vec2Fx { x: 0, y: 5_000 }, 4_999),
    ];
    for (v, max) in cases {
        let r = clamp_velocity(v, max);
        let norm_sq = (r.x as i128) * (r.x as i128) + (r.y as i128) * (r.y as i128);
        assert!(norm_sq <= (max as i128) * (max as i128), "{v:?} at {max}");
        // Direction is preserved: no component flips sign or overshoots.
        assert!(r.x == 0 || r.x.signum() == v.x.signum());
        assert!(r.y == 0 || r.y.signum() == v.y.signum());
        assert!(r.x.abs() <= v.x.abs() && r.y.abs() <= v.y.abs());
    }
}

#[test]
fn zero_limit_stops_the_agent() {
    let r = clamp_velocity(Vec2Fx { x: 5_000, y: 0 }, 0);
    assert_eq!(r, Vec2Fx { x: 0, y: 0 });
}

#[test]
fn getters_pick_the_right_side() {
    let g = GameState {
        red_score: 1,
        blue_score: 2,
        red_team: vec![agent(1)],
        blue_team: vec![],
        red_flags: vec![],
        blue_flags: vec![],
        num_flags_per_team: 0,
        red_capture_points: vec![],
        blue_capture_points: vec![],
    };
    assert_eq!(g.get_team_score(TeamId::Red), 1);
    assert_eq!(g.get_team_score(TeamId::Blue), 2);
    assert_eq!(g.get_team_agents(TeamId::Red).len(), 1);
    assert_eq!(g.get_team_agents(TeamId::Blue).len(), 0);
    assert_eq!(g.get_team_flags(TeamId::Red).len(), 0);
    assert_eq!(g.get_team_capture_points(TeamId::Blue).len(), 0);
    assert_eq!(g.duplicate(), g);
}
