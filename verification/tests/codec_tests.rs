use ctf_bridge::action::Action;
use ctf_bridge::codec::messages::{
    parse_actions_line, parse_request_line, parse_response_line, serialize_actions_line,
    serialize_request_line, serialize_response_line, PhysicsRequest, PhysicsResponse,
};
use ctf_bridge::codec::prims::{parse_fx, parse_u64};
use ctf_bridge::codec::snapshot::{parse_game_state, serialize_game_state};
use ctf_bridge::state::{
    AgentState, CapturePointState, FlagState, FlagStatus, GameState, Vec2Fx,
};
use ctf_bridge::team::TeamId;

fn sample_agent(id: u32, name: &str, team: TeamId, x: i64, y: i64) -> AgentState {
    AgentState {
        name: name.as_bytes().to_vec(),
        id,
        team,
        position: Vec2Fx { x, y },
        max_speed: 10_000,
        has_flag: false,
    }
}

fn sample_flag(id: u32, name: &str, team: TeamId) -> FlagState {
    FlagState {
        id,
        name: name.as_bytes().to_vec(),
        team,
        position: Vec2Fx { x: -2_500, y: 0 },
        status: FlagStatus::Dropped,
    }
}

fn sample_capture_point(id: u32, name: &str, team: TeamId) -> CapturePointState {
    CapturePointState {
        name: name.as_bytes().to_vec(),
        id,
        team,
        position: Vec2Fx { x: 1_000, y: 2_000_000_000 },
        has_flag: true,
    }
}

fn sample_state() -> GameState {
    GameState {
        red_score: 3,
        blue_score: 7,
        red_team: vec![
            sample_agent(1, "Red Agent 1", TeamId::Red, 1_500, -250),
            sample_agent(4, "Red Agent 2", TeamId::Red, 0, 0),
        ],
        blue_team: vec![sample_agent(2, "Blue Agent 1", TeamId::Blue, -1_000, 42)],
        red_flags: vec![sample_flag(5, "Red Flag 1", TeamId::Red)],
        blue_flags: vec![sample_flag(6, "Blue Flag 1", TeamId::Blue)],
        num_flags_per_team: 1,
        red_capture_points: vec![sample_capture_point(7, "Red CP", TeamId::Red)],
        blue_capture_points: vec![],
    }
}

#[test]
fn snapshot_round_trip_is_identity() {
    let g = sample_state();
    let bytes = serialize_game_state(&g);
    let back = parse_game_state(&bytes).expect("canonical snapshot must parse");
    assert_eq!(back, g);
}

#[test]
fn from_json_parses_what_serialization_wrote() {
    let g = sample_state();
    let bytes = serialize_game_state(&g);
    assert_eq!(GameState::from_json(&bytes).unwrap(), g);
    assert!(GameState::from_json(&b"nonsense".to_vec()).is_none());
}

#[test]
fn snapshot_round_trip_with_trailing_newline() {
    let g = sample_state();
    let mut bytes = serialize_game_state(&g);
    bytes.push(b'\n');
    let back = parse_game_state(&bytes).expect("trailing newline is fine");
    assert_eq!(back, g);
}

#[test]
fn snapshot_serializes_to_expected_bytes() {
    let g = GameState {
        red_score: 0,
        blue_score: 2,
        red_team: vec![sample_agent(1, "A", TeamId::Red, 1_500, -250)],
        blue_team: vec![],
        red_flags: vec![],
        blue_flags: vec![],
        num_flags_per_team: 0,
        red_capture_points: vec![],
        blue_capture_points: vec![],
    };
    let bytes = serialize_game_state(&g);
    let expected = "{\"red_score\":0,\"blue_score\":2,\"red_team\":[{\"name\":\"A\",\"id\":1,\"team\":\"Red\",\"position\":[1.500,-0.250],\"max_speed\":10.000,\"has_flag\":false}],\"blue_team\":[],\"red_flags\":[],\"blue_flags\":[],\"num_flags_per_team\":0,\"red_capture_points\":[],\"blue_capture_points\":[]}";
    assert_eq!(String::from_utf8(bytes).unwrap(), expected);
}

#[test]
fn snapshot_is_valid_json_for_other_parsers() {
    let g = sample_state();
    let bytes = serialize_game_state(&g);
    let v: serde_json::Value = serde_json::from_slice(&bytes).expect("must be real JSON");
    assert_eq!(v["red_score"], serde_json::Value::from(3u64));
    assert_eq!(v["blue_score"], serde_json::Value::from(7u64));
    assert_eq!(v["red_team"][0]["name"], serde_json::Value::from("Red Agent 1"));
    assert_eq!(v["red_team"][0]["id"], serde_json::Value::from(1u64));
    assert_eq!(v["red_team"][0]["team"], serde_json::Value::from("Red"));
    assert_eq!(v["red_team"][0]["position"][0].as_f64().unwrap(), 1.5);
    assert_eq!(v["red_team"][0]["position"][1].as_f64().unwrap(), -0.25);
    assert_eq!(v["red_flags"][0]["status"], serde_json::Value::from("Dropped"));
    assert_eq!(v["red_capture_points"][0]["has_flag"], serde_json::Value::from(true));
    assert_eq!(v["blue_capture_points"].as_array().unwrap().len(), 0);
}

#[test]
fn snapshot_lists_keep_id_order_through_round_trip() {
    let g = sample_state();
    let bytes = serialize_game_state(&g);
    let back = parse_game_state(&bytes).unwrap();
    let ids: Vec<u32> = back.red_team.iter().map(|a| a.id).collect();
    assert_eq!(ids, vec![1, 4]);
}

#[test]
fn malformed_snapshot_lines_are_rejected() {
    for bad in [
        "",
        "{",
        "{\"red_score\":}",
        "{\"wrong_key\":0}",
        "[1,2,3]",
        "{\"red_score\":0,\"blue_score\":2}",
        "{\"red_score\":99999999999999999999,\"blue_score\":0}",
    ] {
        let bytes = bad.as_bytes().to_vec();
        assert!(parse_game_state(&bytes).is_none(), "accepted: {bad:?}");
    }
    // Trailing junk after the object is rejected too.
    let g = sample_state();
    let mut bytes = serialize_game_state(&g);
    bytes.extend_from_slice(b"x");
    assert!(parse_game_state(&bytes).is_none());
}

#[test]
fn out_of_range_coordinates_are_rejected() {
    // 2000000.001 world units is one thousandth over the fixed-point range.
    let line = b"{\"id\":1,\"start\":[2000000.001,0],\"end\":[0,0],\"team\":\"Red\"}".to_vec();
    assert!(parse_request_line(&line).is_none());
    let ok = b"{\"id\":1,\"start\":[2000000.000,0],\"end\":[0,0],\"team\":\"Red\"}".to_vec();
    assert!(parse_request_line(&ok).is_some());
}

#[test]
fn numbers_parse_with_shorter_fractions() {
    let s = b"1.5,".to_vec();
    assert_eq!(parse_fx(&s, 0), Some((1_500, 3)));
    let s = b"-0.25]".to_vec();
    assert_eq!(parse_fx(&s, 0), Some((-250, 5)));
    let s = b"7,".to_vec();
    assert_eq!(parse_fx(&s, 0), Some((7_000, 1)));
    let s = b"1.2345".to_vec();
    assert_eq!(parse_fx(&s, 0), None, "more than three fraction digits");
    let s = b"18446744073709551615,".to_vec();
    assert_eq!(parse_u64(&s, 0), Some((u64::MAX, 20)));
    let s = b"18446744073709551616,".to_vec();
    assert_eq!(parse_u64(&s, 0), None, "overflow");
}

#[test]
fn actions_round_trip_preserves_order_and_values() {
    let batch = vec![
        Action::Move { id: 1, velocity: Vec2Fx { x: 1_000, y: -2_000 } },
        Action::Move { id: 9, velocity: Vec2Fx { x: 0, y: 0 } },
    ];
    let line = serialize_actions_line(&batch);
    assert_eq!(*line.last().unwrap(), b'\n');
    let back = parse_actions_line(&line).expect("canonical batch must parse");
    assert_eq!(back, batch);
}

#[test]
fn empty_action_batch_round_trips() {
    let batch: Vec<Action> = vec![];
    let line = serialize_actions_line(&batch);
    assert_eq!(line, b"[]\n".to_vec());
    assert_eq!(parse_actions_line(&line).unwrap(), batch);
}

#[test]
fn action_batch_matches_expected_wire_form() {
    let batch = vec![Action::Move { id: 3, velocity: Vec2Fx { x: 500, y: 1_000 } }];
    let line = serialize_actions_line(&batch);
    assert_eq!(
        String::from_utf8(line).unwrap(),
        "[{\"Move\":{\"id\":3,\"velocity\":[0.500,1.000]}}]\n",
    );
}

#[test]
fn malformed_action_lines_are_rejected() {
    for bad in ["", "[", "[{}]", "[{\"Move\":{\"id\":1}}]", "{\"Move\":{}}", "[],[]"] {
        let bytes = bad.as_bytes().to_vec();
        assert!(parse_actions_line(&bytes).is_none(), "accepted: {bad:?}");
    }
}

#[test]
fn request_round_trip_is_identity() {
    let q = PhysicsRequest {
        id: 42,
        start: Vec2Fx { x: 1_000, y: 2_000 },
        end: Vec2Fx { x: -3_000, y: 0 },
        team: TeamId::Blue,
    };
    let line = serialize_request_line(&q);
    let back = parse_request_line(&line).expect("canonical request must parse");
    assert_eq!(back, q);
}

#[test]
fn response_for_id_42_echoes_id_42() {
    let r = PhysicsResponse { id: 42, free: true };
    let line = serialize_response_line(&r);
    assert_eq!(String::from_utf8(line.clone()).unwrap(), "{\"id\":42,\"free\":true}\n");
    let back = parse_response_line(&line).unwrap();
    assert_eq!(back.id, 42);
    assert_eq!(back.free, true);
}

#[test]
fn responses_with_different_ids_stay_distinct() {
    let a = serialize_response_line(&PhysicsResponse { id: 1, free: false });
    let b = serialize_response_line(&PhysicsResponse { id: 2, free: false });
    assert_ne!(a, b);
    assert_eq!(parse_response_line(&a).unwrap().id, 1);
    assert_eq!(parse_response_line(&b).unwrap().id, 2);
}

#[test]
fn request_wire_form_matches_protocol() {
    let q = PhysicsRequest {
        id: 1,
        start: Vec2Fx { x: 500, y: 0 },
        end: Vec2Fx { x: 0, y: -1_500 },
        team: TeamId::Red,
    };
    let line = serialize_request_line(&q);
    assert_eq!(
        String::from_utf8(line).unwrap(),
        "{\"id\":1,\"start\":[0.500,0.000],\"end\":[0.000,-1.500],\"team\":\"Red\"}\n",
    );
}
