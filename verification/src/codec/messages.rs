//! Action batches and spatial-query messages on the wire.
//!
//! A worker sends one JSON array of movement actions per line; a spatial
//! query client sends one request object per line and reads one response
//! object per line, matched by the echoed id.

use vstd::prelude::*;

use crate::action::{actions_wf, Action};
use crate::codec::lits::{
    eat_close_move, eat_key_end, eat_key_free, eat_key_start, eat_key_team, eat_key_velocity,
    eat_obj_id, eat_obj_move, emit_close_move, emit_key_end, emit_key_free, emit_key_start,
    emit_key_team, emit_key_velocity, emit_obj_id, emit_obj_move, lit_close_move, lit_key_end,
    lit_key_free, lit_key_start, lit_key_team, lit_key_velocity, lit_obj_id, lit_obj_move,
};
use crate::codec::prims::{
    dec_u64, is_digit, lemma_concat_assoc, lemma_parse_bool_bounds, lemma_parse_bool_ser,
    lemma_parse_u64_bounds, lemma_parse_u64_dec, lemma_split_suffix, parse_bool, parse_u64,
    ser_bool, spec_parse_bool, spec_parse_u64, starts_with, write_bool, write_u64, ws_from,
    ws_only,
};
use crate::codec::records::{
    lemma_parse_team_bounds, lemma_parse_team_ser, lemma_parse_u32_bounds, lemma_parse_vec2_bounds,
    lemma_parse_vec2_ser, parse_team, parse_u32, parse_vec2, ser_team, ser_vec2, spec_parse_team,
    spec_parse_u32, spec_parse_vec2, write_team, write_vec2,
};
use crate::state::{vec2_wf, Vec2Fx};
use crate::team::TeamId;

verus! {

/// One spatial query as it crosses the wire: a segment and the side
/// asking, under a caller-chosen id.
#[derive(Debug, Clone, Copy, PartialEq, Eq, Structural)]
pub struct PhysicsRequest {
    pub id: u64,
    pub start: Vec2Fx,
    pub end: Vec2Fx,
    pub team: TeamId,
}

/// The answer to one spatial query, under the id of its request.
#[derive(Debug, Clone, Copy, PartialEq, Eq, Structural)]
pub struct PhysicsResponse {
    pub id: u64,
    pub free: bool,
}

/// An action asks for a velocity within the world's range.
pub open spec fn action_wf(a: Action) -> bool {
    match a {
        Action::Move { id, velocity } => vec2_wf(velocity),
    }
}

/// A request's segment ends stay within the world's range.
pub open spec fn request_wf(r: PhysicsRequest) -> bool {
    vec2_wf(r.start) && vec2_wf(r.end)
}

/// The wire bytes of one movement action.
pub open spec fn spec_ser_action(v: Action) -> Seq<u8> {
    match v {
        Action::Move { id, velocity } => {
            lit_obj_move() + dec_u64(id as nat) + lit_key_velocity() + ser_vec2(velocity) + lit_close_move()
        },
    }
}

/// A parsed movement action.
pub open spec fn spec_parse_action(s: Seq<u8>, pos: int) -> Option<(Action, int)> {
    if !starts_with(s, pos, lit_obj_move()) {
        None
    } else {
        let p1 = pos + lit_obj_move().len();
        match spec_parse_u32(s, p1) {
            Option::None => None,
            Option::Some((id, p2)) => {
            if !starts_with(s, p2, lit_key_velocity()) {
                None
            } else {
                let p3 = p2 + lit_key_velocity().len();
                match spec_parse_vec2(s, p3) {
                    Option::None => None,
                    Option::Some((velocity, p4)) => {
                    if !starts_with(s, p4, lit_close_move()) {
                        None
                    } else {
                        let p5 = p4 + lit_close_move().len();
                        Some((Action::Move { id, velocity }, p5))
                    }
                },
                }
            }
        },
        }
    }
}

/// Appends one movement action.
pub fn write_action(v: &Action, out: &mut Vec<u8>)
    requires
        action_wf(*v),
    ensures
        final(out)@ == old(out)@ + spec_ser_action(*v),
{
    let Action::Move { id, velocity } = *v;
    let ghost a0 = lit_obj_move();
    emit_obj_move(out);
    proof {
        assert(out@ == old(out)@ + a0);
    }
    let ghost a1 = a0 + (dec_u64(id as nat));
    write_u64(id as u64, out);
    proof {
        lemma_concat_assoc(old(out)@, a0, dec_u64(id as nat));
        assert(out@ == old(out)@ + a1);
    }
    let ghost a2 = a1 + (lit_key_velocity());
    emit_key_velocity(out);
    proof {
        lemma_concat_assoc(old(out)@, a1, lit_key_velocity());
        assert(out@ == old(out)@ + a2);
    }
    let ghost a3 = a2 + (ser_vec2(velocity));
    write_vec2(velocity, out);
    proof {
        lemma_concat_assoc(old(out)@, a2, ser_vec2(velocity));
        assert(out@ == old(out)@ + a3);
    }
    let ghost a4 = a3 + (lit_close_move());
    emit_close_move(out);
    proof {
        lemma_concat_assoc(old(out)@, a3, lit_close_move());
        assert(out@ == old(out)@ + a4);
    }
    proof {
        assert(a4 == spec_ser_action(*v));
    }
}

/// Reads one movement action at `pos`.
pub fn parse_action(s: &Vec<u8>, pos: usize) -> (r: Option<(Action, usize)>)
    requires
        pos <= s@.len(),
    ensures
        (match spec_parse_action(s@, pos as int) {
            Option::None => r is None,
            Option::Some((v, p)) => r is Some && r.unwrap().0 == v && r.unwrap().1 as int == p,
        }),
{
    let p1 = match eat_obj_move(s, pos) {
        Option::None => {
            return None;
        },
        Option::Some(p) => p,
    };
    proof {
        lemma_parse_u32_bounds(s@, p1 as int);
    }
    let (id, p2) = match parse_u32(s, p1) {
        Option::None => {
            return None;
        },
        Option::Some(x) => x,
    };
    let p3 = match eat_key_velocity(s, p2) {
        Option::None => {
            return None;
        },
        Option::Some(p) => p,
    };
    proof {
        lemma_parse_vec2_bounds(s@, p3 as int);
    }
    let (velocity, p4) = match parse_vec2(s, p3) {
        Option::None => {
            return None;
        },
        Option::Some(x) => x,
    };
    let p5 = match eat_close_move(s, p4) {
        Option::None => {
            return None;
        },
        Option::Some(p) => p,
    };
    Some((Action::Move { id, velocity }, p5))
}

/// A successful movement action parse moves forward and stays in bounds.
pub proof fn lemma_parse_action_advances(s: Seq<u8>, pos: int)
    requires
        0 <= pos <= s.len(),
    ensures
        (match spec_parse_action(s, pos) {
            Option::None => true,
            Option::Some((v, p)) => pos < p <= s.len(),
        }),
{
    if starts_with(s, pos, lit_obj_move()) {
        let p1 = pos + lit_obj_move().len();
        lemma_parse_u32_bounds(s, p1);
        match spec_parse_u32(s, p1) {
            Option::None => {},
            Option::Some((id, p2)) => {
                if starts_with(s, p2, lit_key_velocity()) {
                    let p3 = p2 + lit_key_velocity().len();
                    lemma_parse_vec2_bounds(s, p3);
                    match spec_parse_vec2(s, p3) {
                        Option::None => {},
                        Option::Some((velocity, p4)) => {
                            if starts_with(s, p4, lit_close_move()) {
                                let p5 = p4 + lit_close_move().len();
                            }
                        }
                    }
                }
            }
        }
    }
}

/// Reading a rendered movement action yields it back.
#[verifier::rlimit(100)]
#[verifier::spinoff_prover]
pub proof fn lemma_parse_action_ser(s: Seq<u8>, pos: int, v: Action, rest: Seq<u8>)
    requires
        0 <= pos <= s.len(),
        action_wf(v),
        s.subrange(pos, s.len() as int) == spec_ser_action(v) + rest,
    ensures
        spec_parse_action(s, pos) == Some((v, pos + spec_ser_action(v).len())),
{
    let Action::Move { id, velocity } = v;
    let c0 = lit_obj_move();
    let c1 = dec_u64(id as nat);
    let c2 = lit_key_velocity();
    let c3 = ser_vec2(velocity);
    let c4 = lit_close_move();
    let t5 = rest;
    let t4 = c4 + t5;
    let t3 = c3 + t4;
    let t2 = c2 + t3;
    let t1 = c1 + t2;
    let t0 = c0 + t1;
    let a0 = c0;
    let a1 = a0 + c1;
    let a2 = a1 + c2;
    let a3 = a2 + c3;
    let a4 = a3 + c4;
    lemma_concat_assoc(a3, c4, t5);
    lemma_concat_assoc(a2, c3, t4);
    lemma_concat_assoc(a1, c2, t3);
    lemma_concat_assoc(a0, c1, t2);
    assert(spec_ser_action(v) == a4);
    assert(a4 + rest == t0);
    assert(s.subrange(pos, s.len() as int) == t0);
    lemma_split_suffix(s, pos, c0, t1);
    let q1 = pos + c0.len();
    assert(starts_with(s, pos, lit_obj_move()));
    assert(s.subrange(q1, s.len() as int) =~= t1);
    lemma_split_suffix(s, q1, c1, t2);
    let q2 = q1 + c1.len();
    assert(t2[0] == c2[0]);
    assert(!is_digit(t2[0]));
    lemma_parse_u64_dec(s, q1, id as u64, t2);
    assert(s.subrange(q2, s.len() as int) =~= t2);
    lemma_split_suffix(s, q2, c2, t3);
    let q3 = q2 + c2.len();
    assert(starts_with(s, q2, lit_key_velocity()));
    assert(s.subrange(q3, s.len() as int) =~= t3);
    lemma_split_suffix(s, q3, c3, t4);
    let q4 = q3 + c3.len();
    lemma_parse_vec2_ser(s, q3, velocity, t4);
    assert(s.subrange(q4, s.len() as int) =~= t4);
    lemma_split_suffix(s, q4, c4, t5);
    let q5 = q4 + c4.len();
    assert(starts_with(s, q4, lit_close_move()));
    assert(spec_parse_action(s, pos) == Some((v, q5)));
    assert(q5 == pos + spec_ser_action(v).len());
}

/// The wire bytes of one spatial query request.
pub open spec fn spec_ser_request(v: PhysicsRequest) -> Seq<u8> {
    lit_obj_id() + dec_u64(v.id as nat) + lit_key_start() + ser_vec2(v.start) + lit_key_end() + ser_vec2(v.end) + lit_key_team() + ser_team(v.team) + seq![0x7du8]
}

/// A parsed spatial query request.
pub open spec fn spec_parse_request(s: Seq<u8>, pos: int) -> Option<(PhysicsRequest, int)> {
    if !starts_with(s, pos, lit_obj_id()) {
        None
    } else {
        let p1 = pos + lit_obj_id().len();
        match spec_parse_u64(s, p1) {
            Option::None => None,
            Option::Some((id, p2)) => {
            if !starts_with(s, p2, lit_key_start()) {
                None
            } else {
                let p3 = p2 + lit_key_start().len();
                match spec_parse_vec2(s, p3) {
                    Option::None => None,
                    Option::Some((start, p4)) => {
                    if !starts_with(s, p4, lit_key_end()) {
                        None
                    } else {
                        let p5 = p4 + lit_key_end().len();
                        match spec_parse_vec2(s, p5) {
                            Option::None => None,
                            Option::Some((end, p6)) => {
                            if !starts_with(s, p6, lit_key_team()) {
                                None
                            } else {
                                let p7 = p6 + lit_key_team().len();
                                match spec_parse_team(s, p7) {
                                    Option::None => None,
                                    Option::Some((team, p8)) => {
                                    if !(p8 < s.len() && s[p8] == 0x7d) {
                                        None
                                    } else {
                                        Some((PhysicsRequest { id, start, end, team }, p8 + 1))
                                    }
                                },
                                }
                            }
                        },
                        }
                    }
                },
                }
            }
        },
        }
    }
}

/// Appends one spatial query request.
pub fn write_request(v: &PhysicsRequest, out: &mut Vec<u8>)
    requires
        request_wf(*v),
    ensures
        final(out)@ == old(out)@ + spec_ser_request(*v),
{
    let ghost a0 = lit_obj_id();
    emit_obj_id(out);
    proof {
        assert(out@ == old(out)@ + a0);
    }
    let ghost a1 = a0 + (dec_u64((*v).id as nat));
    write_u64(v.id, out);
    proof {
        lemma_concat_assoc(old(out)@, a0, dec_u64((*v).id as nat));
        assert(out@ == old(out)@ + a1);
    }
    let ghost a2 = a1 + (lit_key_start());
    emit_key_start(out);
    proof {
        lemma_concat_assoc(old(out)@, a1, lit_key_start());
        assert(out@ == old(out)@ + a2);
    }
    let ghost a3 = a2 + (ser_vec2((*v).start));
    write_vec2(v.start, out);
    proof {
        lemma_concat_assoc(old(out)@, a2, ser_vec2((*v).start));
        assert(out@ == old(out)@ + a3);
    }
    let ghost a4 = a3 + (lit_key_end());
    emit_key_end(out);
    proof {
        lemma_concat_assoc(old(out)@, a3, lit_key_end());
        assert(out@ == old(out)@ + a4);
    }
    let ghost a5 = a4 + (ser_vec2((*v).end));
    write_vec2(v.end, out);
    proof {
        lemma_concat_assoc(old(out)@, a4, ser_vec2((*v).end));
        assert(out@ == old(out)@ + a5);
    }
    let ghost a6 = a5 + (lit_key_team());
    emit_key_team(out);
    proof {
        lemma_concat_assoc(old(out)@, a5, lit_key_team());
        assert(out@ == old(out)@ + a6);
    }
    let ghost a7 = a6 + (ser_team((*v).team));
    write_team(v.team, out);
    proof {
        lemma_concat_assoc(old(out)@, a6, ser_team((*v).team));
        assert(out@ == old(out)@ + a7);
    }
    let ghost a8 = a7 + (seq![0x7du8]);
    let ghost before_close = out@;
    out.push(0x7d);
    proof {
        assert(out@ =~= before_close + seq![0x7du8]);
        lemma_concat_assoc(old(out)@, a7, seq![0x7du8]);
        assert(out@ == old(out)@ + a8);
    }
    proof {
        assert(a8 == spec_ser_request(*v));
    }
}

/// Reads one spatial query request at `pos`.
pub fn parse_request(s: &Vec<u8>, pos: usize) -> (r: Option<(PhysicsRequest, usize)>)
    requires
        pos <= s@.len(),
    ensures
        (match spec_parse_request(s@, pos as int) {
            Option::None => r is None,
            Option::Some((v, p)) => r is Some && r.unwrap().0 == v && r.unwrap().1 as int == p,
        }),
{
    let p1 = match eat_obj_id(s, pos) {
        Option::None => {
            return None;
        },
        Option::Some(p) => p,
    };
    proof {
        lemma_parse_u64_bounds(s@, p1 as int);
    }
    let (id, p2) = match parse_u64(s, p1) {
        Option::None => {
            return None;
        },
        Option::Some(x) => x,
    };
    let p3 = match eat_key_start(s, p2) {
        Option::None => {
            return None;
        },
        Option::Some(p) => p,
    };
    proof {
        lemma_parse_vec2_bounds(s@, p3 as int);
    }
    let (start, p4) = match parse_vec2(s, p3) {
        Option::None => {
            return None;
        },
        Option::Some(x) => x,
    };
    let p5 = match eat_key_end(s, p4) {
        Option::None => {
            return None;
        },
        Option::Some(p) => p,
    };
    proof {
        lemma_parse_vec2_bounds(s@, p5 as int);
    }
    let (end, p6) = match parse_vec2(s, p5) {
        Option::None => {
            return None;
        },
        Option::Some(x) => x,
    };
    let p7 = match eat_key_team(s, p6) {
        Option::None => {
            return None;
        },
        Option::Some(p) => p,
    };
    proof {
        lemma_parse_team_bounds(s@, p7 as int);
    }
    let (team, p8) = match parse_team(s, p7) {
        Option::None => {
            return None;
        },
        Option::Some(x) => x,
    };
    if !(p8 < s.len() && s[p8] == 0x7d) {
        return None;
    }
    Some((PhysicsRequest { id, start, end, team }, p8 + 1))
}

/// A successful spatial query request parse moves forward and stays in bounds.
pub proof fn lemma_parse_request_advances(s: Seq<u8>, pos: int)
    requires
        0 <= pos <= s.len(),
    ensures
        (match spec_parse_request(s, pos) {
            Option::None => true,
            Option::Some((v, p)) => pos < p <= s.len(),
        }),
{
    if starts_with(s, pos, lit_obj_id()) {
        let p1 = pos + lit_obj_id().len();
        lemma_parse_u64_bounds(s, p1);
        match spec_parse_u64(s, p1) {
            Option::None => {},
            Option::Some((id, p2)) => {
                if starts_with(s, p2, lit_key_start()) {
                    let p3 = p2 + lit_key_start().len();
                    lemma_parse_vec2_bounds(s, p3);
                    match spec_parse_vec2(s, p3) {
                        Option::None => {},
                        Option::Some((start, p4)) => {
                            if starts_with(s, p4, lit_key_end()) {
                                let p5 = p4 + lit_key_end().len();
                                lemma_parse_vec2_bounds(s, p5);
                                match spec_parse_vec2(s, p5) {
                                    Option::None => {},
                                    Option::Some((end, p6)) => {
                                        if starts_with(s, p6, lit_key_team()) {
                                            let p7 = p6 + lit_key_team().len();
                                            lemma_parse_team_bounds(s, p7);
                                            match spec_parse_team(s, p7) {
                                                Option::None => {},
                                                Option::Some((team, p8)) => {
                                                }
                                            }
                                        }
                                    }
                                }
                            }
                        }
                    }
                }
            }
        }
    }
}

/// Reading a rendered spatial query request yields it back.
#[verifier::rlimit(100)]
#[verifier::spinoff_prover]
pub proof fn lemma_parse_request_ser(s: Seq<u8>, pos: int, v: PhysicsRequest, rest: Seq<u8>)
    requires
        0 <= pos <= s.len(),
        request_wf(v),
        s.subrange(pos, s.len() as int) == spec_ser_request(v) + rest,
    ensures
        spec_parse_request(s, pos) == Some((v, pos + spec_ser_request(v).len())),
{
    let c0 = lit_obj_id();
    let c1 = dec_u64(v.id as nat);
    let c2 = lit_key_start();
    let c3 = ser_vec2(v.start);
    let c4 = lit_key_end();
    let c5 = ser_vec2(v.end);
    let c6 = lit_key_team();
    let c7 = ser_team(v.team);
    let c8 = seq![0x7du8];
    let t9 = rest;
    let t8 = c8 + t9;
    let t7 = c7 + t8;
    let t6 = c6 + t7;
    let t5 = c5 + t6;
    let t4 = c4 + t5;
    let t3 = c3 + t4;
    let t2 = c2 + t3;
    let t1 = c1 + t2;
    let t0 = c0 + t1;
    let a0 = c0;
    let a1 = a0 + c1;
    let a2 = a1 + c2;
    let a3 = a2 + c3;
    let a4 = a3 + c4;
    let a5 = a4 + c5;
    let a6 = a5 + c6;
    let a7 = a6 + c7;
    let a8 = a7 + c8;
    lemma_concat_assoc(a7, c8, t9);
    lemma_concat_assoc(a6, c7, t8);
    lemma_concat_assoc(a5, c6, t7);
    lemma_concat_assoc(a4, c5, t6);
    lemma_concat_assoc(a3, c4, t5);
    lemma_concat_assoc(a2, c3, t4);
    lemma_concat_assoc(a1, c2, t3);
    lemma_concat_assoc(a0, c1, t2);
    assert(spec_ser_request(v) == a8);
    assert(a8 + rest == t0);
    assert(s.subrange(pos, s.len() as int) == t0);
    lemma_split_suffix(s, pos, c0, t1);
    let q1 = pos + c0.len();
    assert(starts_with(s, pos, lit_obj_id()));
    assert(s.subrange(q1, s.len() as int) =~= t1);
    lemma_split_suffix(s, q1, c1, t2);
    let q2 = q1 + c1.len();
    assert(t2[0] == c2[0]);
    assert(!is_digit(t2[0]));
    lemma_parse_u64_dec(s, q1, v.id as u64, t2);
    assert(s.subrange(q2, s.len() as int) =~= t2);
    lemma_split_suffix(s, q2, c2, t3);
    let q3 = q2 + c2.len();
    assert(starts_with(s, q2, lit_key_start()));
    assert(s.subrange(q3, s.len() as int) =~= t3);
    lemma_split_suffix(s, q3, c3, t4);
    let q4 = q3 + c3.len();
    lemma_parse_vec2_ser(s, q3, v.start, t4);
    assert(s.subrange(q4, s.len() as int) =~= t4);
    lemma_split_suffix(s, q4, c4, t5);
    let q5 = q4 + c4.len();
    assert(starts_with(s, q4, lit_key_end()));
    assert(s.subrange(q5, s.len() as int) =~= t5);
    lemma_split_suffix(s, q5, c5, t6);
    let q6 = q5 + c5.len();
    lemma_parse_vec2_ser(s, q5, v.end, t6);
    assert(s.subrange(q6, s.len() as int) =~= t6);
    lemma_split_suffix(s, q6, c6, t7);
    let q7 = q6 + c6.len();
    assert(starts_with(s, q6, lit_key_team()));
    assert(s.subrange(q7, s.len() as int) =~= t7);
    lemma_split_suffix(s, q7, c7, t8);
    let q8 = q7 + c7.len();
    lemma_parse_team_ser(s, q7, v.team, t8);
    assert(s.subrange(q8, s.len() as int) =~= t8);
    lemma_split_suffix(s, q8, c8, t9);
    let q9 = q8 + c8.len();
    assert(s[q8 + 0] == c8[0]);
    assert(s[q8] == 0x7d);
    assert(spec_parse_request(s, pos) == Some((v, q9)));
    assert(q9 == pos + spec_ser_request(v).len());
}

/// The wire bytes of one spatial query response.
pub open spec fn spec_ser_response(v: PhysicsResponse) -> Seq<u8> {
    lit_obj_id() + dec_u64(v.id as nat) + lit_key_free() + ser_bool(v.free) + seq![0x7du8]
}

/// A parsed spatial query response.
pub open spec fn spec_parse_response(s: Seq<u8>, pos: int) -> Option<(PhysicsResponse, int)> {
    if !starts_with(s, pos, lit_obj_id()) {
        None
    } else {
        let p1 = pos + lit_obj_id().len();
        match spec_parse_u64(s, p1) {
            Option::None => None,
            Option::Some((id, p2)) => {
            if !starts_with(s, p2, lit_key_free()) {
                None
            } else {
                let p3 = p2 + lit_key_free().len();
                match spec_parse_bool(s, p3) {
                    Option::None => None,
                    Option::Some((free, p4)) => {
                    if !(p4 < s.len() && s[p4] == 0x7d) {
                        None
                    } else {
                        Some((PhysicsResponse { id, free }, p4 + 1))
                    }
                },
                }
            }
        },
        }
    }
}

/// Appends one spatial query response.
pub fn write_response(v: &PhysicsResponse, out: &mut Vec<u8>)
    ensures
        final(out)@ == old(out)@ + spec_ser_response(*v),
{
    let ghost a0 = lit_obj_id();
    emit_obj_id(out);
    proof {
        assert(out@ == old(out)@ + a0);
    }
    let ghost a1 = a0 + (dec_u64((*v).id as nat));
    write_u64(v.id, out);
    proof {
        lemma_concat_assoc(old(out)@, a0, dec_u64((*v).id as nat));
        assert(out@ == old(out)@ + a1);
    }
    let ghost a2 = a1 + (lit_key_free());
    emit_key_free(out);
    proof {
        lemma_concat_assoc(old(out)@, a1, lit_key_free());
        assert(out@ == old(out)@ + a2);
    }
    let ghost a3 = a2 + (ser_bool((*v).free));
    write_bool(v.free, out);
    proof {
        lemma_concat_assoc(old(out)@, a2, ser_bool((*v).free));
        assert(out@ == old(out)@ + a3);
    }
    let ghost a4 = a3 + (seq![0x7du8]);
    let ghost before_close = out@;
    out.push(0x7d);
    proof {
        assert(out@ =~= before_close + seq![0x7du8]);
        lemma_concat_assoc(old(out)@, a3, seq![0x7du8]);
        assert(out@ == old(out)@ + a4);
    }
    proof {
        assert(a4 == spec_ser_response(*v));
    }
}

/// Reads one spatial query response at `pos`.
pub fn parse_response(s: &Vec<u8>, pos: usize) -> (r: Option<(PhysicsResponse, usize)>)
    requires
        pos <= s@.len(),
    ensures
        (match spec_parse_response(s@, pos as int) {
            Option::None => r is None,
            Option::Some((v, p)) => r is Some && r.unwrap().0 == v && r.unwrap().1 as int == p,
        }),
{
    let p1 = match eat_obj_id(s, pos) {
        Option::None => {
            return None;
        },
        Option::Some(p) => p,
    };
    proof {
        lemma_parse_u64_bounds(s@, p1 as int);
    }
    let (id, p2) = match parse_u64(s, p1) {
        Option::None => {
            return None;
        },
        Option::Some(x) => x,
    };
    let p3 = match eat_key_free(s, p2) {
        Option::None => {
            return None;
        },
        Option::Some(p) => p,
    };
    proof {
        lemma_parse_bool_bounds(s@, p3 as int);
    }
    let (free, p4) = match parse_bool(s, p3) {
        Option::None => {
            return None;
        },
        Option::Some(x) => x,
    };
    if !(p4 < s.len() && s[p4] == 0x7d) {
        return None;
    }
    Some((PhysicsResponse { id, free }, p4 + 1))
}

/// A successful spatial query response parse moves forward and stays in bounds.
pub proof fn lemma_parse_response_advances(s: Seq<u8>, pos: int)
    requires
        0 <= pos <= s.len(),
    ensures
        (match spec_parse_response(s, pos) {
            Option::None => true,
            Option::Some((v, p)) => pos < p <= s.len(),
        }),
{
    if starts_with(s, pos, lit_obj_id()) {
        let p1 = pos + lit_obj_id().len();
        lemma_parse_u64_bounds(s, p1);
        match spec_parse_u64(s, p1) {
            Option::None => {},
            Option::Some((id, p2)) => {
                if starts_with(s, p2, lit_key_free()) {
                    let p3 = p2 + lit_key_free().len();
                    lemma_parse_bool_bounds(s, p3);
                    match spec_parse_bool(s, p3) {
                        Option::None => {},
                        Option::Some((free, p4)) => {
                        }
                    }
                }
            }
        }
    }
}

/// Reading a rendered spatial query response yields it back.
#[verifier::rlimit(100)]
#[verifier::spinoff_prover]
pub proof fn lemma_parse_response_ser(s: Seq<u8>, pos: int, v: PhysicsResponse, rest: Seq<u8>)
    requires
        0 <= pos <= s.len(),
        s.subrange(pos, s.len() as int) == spec_ser_response(v) + rest,
    ensures
        spec_parse_response(s, pos) == Some((v, pos + spec_ser_response(v).len())),
{
    let c0 = lit_obj_id();
    let c1 = dec_u64(v.id as nat);
    let c2 = lit_key_free();
    let c3 = ser_bool(v.free);
    let c4 = seq![0x7du8];
    let t5 = rest;
    let t4 = c4 + t5;
    let t3 = c3 + t4;
    let t2 = c2 + t3;
    let t1 = c1 + t2;
    let t0 = c0 + t1;
    let a0 = c0;
    let a1 = a0 + c1;
    let a2 = a1 + c2;
    let a3 = a2 + c3;
    let a4 = a3 + c4;
    lemma_concat_assoc(a3, c4, t5);
    lemma_concat_assoc(a2, c3, t4);
    lemma_concat_assoc(a1, c2, t3);
    lemma_concat_assoc(a0, c1, t2);
    assert(spec_ser_response(v) == a4);
    assert(a4 + rest == t0);
    assert(s.subrange(pos, s.len() as int) == t0);
    lemma_split_suffix(s, pos, c0, t1);
    let q1 = pos + c0.len();
    assert(starts_with(s, pos, lit_obj_id()));
    assert(s.subrange(q1, s.len() as int) =~= t1);
    lemma_split_suffix(s, q1, c1, t2);
    let q2 = q1 + c1.len();
    assert(t2[0] == c2[0]);
    assert(!is_digit(t2[0]));
    lemma_parse_u64_dec(s, q1, v.id as u64, t2);
    assert(s.subrange(q2, s.len() as int) =~= t2);
    lemma_split_suffix(s, q2, c2, t3);
    let q3 = q2 + c2.len();
    assert(starts_with(s, q2, lit_key_free()));
    assert(s.subrange(q3, s.len() as int) =~= t3);
    lemma_split_suffix(s, q3, c3, t4);
    let q4 = q3 + c3.len();
    lemma_parse_bool_ser(s, q3, v.free, t4);
    assert(s.subrange(q4, s.len() as int) =~= t4);
    lemma_split_suffix(s, q4, c4, t5);
    let q5 = q4 + c4.len();
    assert(s[q4 + 0] == c4[0]);
    assert(s[q4] == 0x7d);
    assert(spec_parse_response(s, pos) == Some((v, q5)));
    assert(q5 == pos + spec_ser_response(v).len());
}

// ------------------------------------------------------------------
// Action batches
// ------------------------------------------------------------------
/// The comma-separated items of an action batch.
pub open spec fn ser_action_items(l: Seq<Action>) -> Seq<u8>
    decreases l.len(),
{
    if l.len() == 0 {
        Seq::empty()
    } else if l.len() == 1 {
        spec_ser_action(l[0])
    } else {
        spec_ser_action(l[0]) + seq![0x2cu8] + ser_action_items(l.drop_first())
    }
}

/// An action batch on the wire: `[` items `]`.
pub open spec fn ser_action_list(l: Seq<Action>) -> Seq<u8> {
    seq![0x5bu8] + ser_action_items(l) + seq![0x5du8]
}

/// The parsed items of a non-empty action batch.
pub open spec fn spec_parse_action_items(s: Seq<u8>, pos: int) -> Option<(Seq<Action>, int)>
    decreases s.len() - pos,
    via spec_parse_action_items_dec
{
    match spec_parse_action(s, pos) {
        Option::None => None,
        Option::Some((a, p)) => {
            if starts_with(s, p, seq![0x2cu8]) {
                match spec_parse_action_items(s, p + 1) {
                    Option::None => None,
                    Option::Some((tl, p2)) => Some((seq![a] + tl, p2)),
                }
            } else {
                Some((seq![a], p))
            }
        },
    }
}

#[via_fn]
proof fn spec_parse_action_items_dec(s: Seq<u8>, pos: int) {
    match spec_parse_action(s, pos) {
        Option::None => {},
        Option::Some((a, p)) => {
            lemma_parse_action_advances(s, pos);
        },
    }
}

/// Successfully parsed items move forward and stay in bounds.
pub proof fn lemma_parse_action_items_bounds(s: Seq<u8>, pos: int)
    requires
        0 <= pos <= s.len(),
    ensures
        (match spec_parse_action_items(s, pos) {
            Option::None => true,
            Option::Some((tl, p)) => pos < p <= s.len(),
        }),
    decreases s.len() - pos,
{
    match spec_parse_action(s, pos) {
        Option::None => {},
        Option::Some((a, p)) => {
            lemma_parse_action_advances(s, pos);
            if starts_with(s, p, seq![0x2cu8]) {
                lemma_parse_action_items_bounds(s, p + 1);
            }
        },
    }
}

/// A parsed action batch.
pub open spec fn spec_parse_action_list(s: Seq<u8>, pos: int) -> Option<(Seq<Action>, int)> {
    if !(0 <= pos < s.len() && s[pos] == 0x5b) {
        None
    } else if pos + 1 < s.len() && s[pos + 1] == 0x5d {
        Some((Seq::empty(), pos + 2))
    } else {
        match spec_parse_action_items(s, pos + 1) {
            Option::None => None,
            Option::Some((items, p)) => {
                if p < s.len() && s[p] == 0x5d {
                    Some((items, p + 1))
                } else {
                    None
                }
            },
        }
    }
}

/// Appending one action to the items of a batch extends its bytes by a
/// comma and that action.
proof fn lemma_ser_action_items_snoc(l: Seq<Action>, a: Action)
    ensures
        l.len() == 0 ==> ser_action_items(l.push(a)) == spec_ser_action(a),
        l.len() > 0 ==> ser_action_items(l.push(a)) == ser_action_items(l) + seq![0x2cu8]
            + spec_ser_action(a),
    decreases l.len(),
{
    if l.len() == 0 {
        assert(l.push(a).len() == 1);
        assert(l.push(a)[0] == a);
    } else {
        lemma_ser_action_items_snoc(l.drop_first(), a);
        assert(l.push(a).drop_first() =~= l.drop_first().push(a));
        assert(l.push(a)[0] == l[0]);
        if l.len() == 1 {
            assert(ser_action_items(l) == spec_ser_action(l[0]));
            assert(ser_action_items(l.push(a)) == spec_ser_action(l[0]) + seq![0x2cu8]
                + spec_ser_action(a));
        } else {
            assert(ser_action_items(l.push(a)) == spec_ser_action(l[0]) + seq![0x2cu8]
                + ser_action_items(l.drop_first().push(a)));
            assert(ser_action_items(l.drop_first().push(a)) == ser_action_items(l.drop_first())
                + seq![0x2cu8] + spec_ser_action(a));
            assert(ser_action_items(l.push(a)) =~= (spec_ser_action(l[0]) + seq![0x2cu8]
                + ser_action_items(l.drop_first())) + seq![0x2cu8] + spec_ser_action(a));
        }
    }
}

/// Appends a whole action batch.
pub fn write_action_list(l: &Vec<Action>, out: &mut Vec<u8>)
    requires
        actions_wf(l@),
    ensures
        final(out)@ == old(out)@ + ser_action_list(l@),
{
    out.push(0x5b);
    let mut i: usize = 0;
    while i < l.len()
        invariant
            0 <= i <= l@.len(),
            actions_wf(l@),
            out@ == old(out)@.push(0x5bu8) + ser_action_items(l@.take(i as int)),
        decreases l@.len() - i,
    {
        let ghost pre = l@.take(i as int);
        if i > 0 {
            out.push(0x2c);
        }
        proof {
            assert(action_wf(l@[i as int]));
        }
        write_action(&l[i], out);
        proof {
            lemma_ser_action_items_snoc(pre, l@[i as int]);
            assert(l@.take(i as int + 1) =~= pre.push(l@[i as int]));
            assert(out@ =~= old(out)@.push(0x5bu8) + ser_action_items(l@.take(i as int + 1)));
        }
        i += 1;
    }
    out.push(0x5d);
    proof {
        assert(l@.take(l@.len() as int) =~= l@);
        assert(out@ =~= old(out)@ + ser_action_list(l@));
    }
}

/// Reads a whole action batch at `pos`.
#[verifier::rlimit(100)]
pub fn parse_action_list(s: &Vec<u8>, pos: usize) -> (r: Option<(Vec<Action>, usize)>)
    requires
        pos <= s@.len(),
    ensures
        (match spec_parse_action_list(s@, pos as int) {
            Option::None => r is None,
            Option::Some((items, p)) => r is Some && r.unwrap().0@ == items && r.unwrap().1
                as int == p,
        }),
{
    if !(pos < s.len() && s[pos] == 0x5b) {
        return None;
    }
    if pos + 1 < s.len() && s[pos + 1] == 0x5d {
        let empty_list: Vec<Action> = Vec::new();
        return Some((empty_list, pos + 2));
    }
    let mut out: Vec<Action> = Vec::new();
    let mut cur: usize = pos + 1;
    proof {
        match spec_parse_action_items(s@, pos as int + 1) {
            Option::None => {},
            Option::Some((tl, p2)) => {
                assert(out@ + tl =~= tl);
            },
        }
    }
    loop
        invariant
            pos as int + 1 <= cur as int <= s@.len(),
            pos < s@.len() && s@[pos as int] == 0x5b,
            !(pos + 1 < s@.len() && s@[pos as int + 1] == 0x5d),
            (match spec_parse_action_items(s@, cur as int) {
                Option::None => spec_parse_action_items(s@, pos as int + 1) is None,
                Option::Some((tl, p2)) => spec_parse_action_items(s@, pos as int + 1) == Some(
                    (out@ + tl, p2),
                ),
            }),
        decreases s@.len() - cur,
    {
        proof {
            lemma_parse_action_advances(s@, cur as int);
        }
        let ghost pre = out@;
        let (item, p) = match parse_action(s, cur) {
            Option::None => {
                return None;
            },
            Option::Some(x) => x,
        };
        out.push(item);
        if p < s.len() && s[p] == 0x2c {
            proof {
                assert(s@.subrange(p as int, p as int + 1) =~= seq![0x2cu8]);
                assert(starts_with(s@, p as int, seq![0x2cu8]));
                match spec_parse_action_items(s@, p as int + 1) {
                    Option::None => {},
                    Option::Some((tl, p2)) => {
                        assert(pre + (seq![item] + tl) =~= out@ + tl);
                    },
                }
            }
            cur = p + 1;
        } else if p < s.len() && s[p] == 0x5d {
            proof {
                if starts_with(s@, p as int, seq![0x2cu8]) {
                    assert(s@.subrange(p as int, p as int + 1)[0] == 0x2cu8);
                }
                assert(pre + seq![item] =~= out@);
            }
            return Some((out, p + 1));
        } else {
            proof {
                if starts_with(s@, p as int, seq![0x2cu8]) {
                    assert(s@.subrange(p as int, p as int + 1)[0] == 0x2cu8);
                    assert(p < s@.len());
                }
                assert(pre + seq![item] =~= out@);
            }
            return None;
        }
    }
}

/// Reading rendered batch items followed by `]` yields them back.
#[verifier::rlimit(100)]
#[verifier::spinoff_prover]
pub proof fn lemma_parse_action_items_ser(s: Seq<u8>, pos: int, items: Seq<Action>, rest: Seq<u8>)
    requires
        0 <= pos <= s.len(),
        items.len() >= 1,
        actions_wf(items),
        s.subrange(pos, s.len() as int) == ser_action_items(items) + rest,
        rest.len() >= 1,
        rest[0] == 0x5d,
    ensures
        spec_parse_action_items(s, pos) == Some((items, pos + ser_action_items(items).len())),
    decreases items.len(),
{
    assert(action_wf(items[0]));
    if items.len() == 1 {
        lemma_parse_action_ser(s, pos, items[0], rest);
        lemma_split_suffix(s, pos, spec_ser_action(items[0]), rest);
        let p = pos + spec_ser_action(items[0]).len();
        assert(s[p + 0] == rest[0]);
        if starts_with(s, p, seq![0x2cu8]) {
            assert(s.subrange(p, p + 1)[0] == seq![0x2cu8][0]);
        }
        assert(seq![items[0]] =~= items);
    } else {
        let tail_items = items.drop_first();
        let t2 = ser_action_items(tail_items) + rest;
        let t1 = seq![0x2cu8] + t2;
        assert(ser_action_items(items) + rest =~= spec_ser_action(items[0]) + t1);
        lemma_parse_action_ser(s, pos, items[0], t1);
        lemma_split_suffix(s, pos, spec_ser_action(items[0]), t1);
        let p = pos + spec_ser_action(items[0]).len();
        assert(s.subrange(p, s.len() as int) =~= t1);
        lemma_split_suffix(s, p, seq![0x2cu8], t2);
        assert(s.subrange(p, p + 1) =~= seq![0x2cu8]);
        assert(starts_with(s, p, seq![0x2cu8]));
        assert(s.subrange(p + 1, s.len() as int) =~= t2);
        assert forall|i: int| 0 <= i < tail_items.len() implies action_wf(
            #[trigger] tail_items[i],
        ) by {
            assert(tail_items[i] == items[i + 1]);
        }
        lemma_parse_action_items_ser(s, p + 1, tail_items, rest);
        assert(seq![items[0]] + tail_items =~= items);
    }
}

/// Reading a rendered action batch yields it back.
#[verifier::rlimit(100)]
#[verifier::spinoff_prover]
pub proof fn lemma_parse_action_list_ser(s: Seq<u8>, pos: int, items: Seq<Action>, rest: Seq<u8>)
    requires
        0 <= pos <= s.len(),
        actions_wf(items),
        s.subrange(pos, s.len() as int) == ser_action_list(items) + rest,
    ensures
        spec_parse_action_list(s, pos) == Some((items, pos + ser_action_list(items).len())),
{
    if items.len() == 0 {
        assert(ser_action_list(items) =~= seq![0x5bu8, 0x5du8]);
        assert(s.subrange(pos, s.len() as int) == seq![0x5bu8, 0x5du8] + rest);
        lemma_split_suffix(s, pos, seq![0x5bu8, 0x5du8], rest);
        assert(s[pos + 0] == seq![0x5bu8, 0x5du8][0]);
        assert(s[pos + 1] == seq![0x5bu8, 0x5du8][1]);
        assert(s[pos] == 0x5b && s[pos + 1] == 0x5d);
    } else {
        let t1 = ser_action_items(items) + (seq![0x5du8] + rest);
        assert(ser_action_list(items) + rest =~= seq![0x5bu8] + t1);
        lemma_split_suffix(s, pos, seq![0x5bu8], t1);
        assert(s[pos + 0] == seq![0x5bu8][0]);
        assert(s[pos] == 0x5b);
        assert(s.subrange(pos + 1, s.len() as int) =~= t1);
        lemma_parse_action_items_ser(s, pos + 1, items, seq![0x5du8] + rest);
        let p = pos + 1 + ser_action_items(items).len();
        lemma_split_suffix(s, pos + 1, ser_action_items(items), seq![0x5du8] + rest);
        assert(s[p + 0] == (seq![0x5du8] + rest)[0]);
        assert(s[p] == 0x5d);
        if items.len() == 1 {
            assert(ser_action_items(items)[0] == spec_ser_action(items[0])[0]);
        } else {
            assert(ser_action_items(items)[0] == spec_ser_action(items[0])[0]);
        }
        assert(spec_ser_action(items[0])[0] == 0x7b);
        assert(s[pos + 1 + 0] == ser_action_items(items)[0]);
        assert(s[pos + 1] == 0x7b);
    }
}

// ------------------------------------------------------------------
// Line-level entry points
// ------------------------------------------------------------------
/// The serialized line a worker sends for one action batch, newline
/// included.
pub fn serialize_actions_line(l: &Vec<Action>) -> (r: Vec<u8>)
    requires
        actions_wf(l@),
    ensures
        r@ == ser_action_list(l@) + seq![0x0au8],
{
    let mut out: Vec<u8> = Vec::new();
    write_action_list(l, &mut out);
    out.push(0x0a);
    proof {
        assert(out@ =~= ser_action_list(l@) + seq![0x0au8]);
    }
    out
}

/// Parses one action-batch line: the array, then nothing but whitespace.
pub fn parse_actions_line(s: &Vec<u8>) -> (r: Option<Vec<Action>>)
    ensures
        (match spec_parse_action_list(s@, 0) {
            Option::None => r is None,
            Option::Some((items, p)) => {
                if ws_only(s@, p) {
                    r is Some && r.unwrap()@ == items
                } else {
                    r is None
                }
            },
        }),
{
    match parse_action_list(s, 0) {
        Option::None => None,
        Option::Some((items, p)) => {
            if ws_from(s, p) {
                Some(items)
            } else {
                None
            }
        },
    }
}

/// Round trip: parsing a serialized action batch yields it back, in order.
pub proof fn lemma_actions_round_trip(items: Seq<Action>)
    requires
        actions_wf(items),
    ensures
        spec_parse_action_list(ser_action_list(items), 0) == Some(
            (items, ser_action_list(items).len() as int),
        ),
{
    let s = ser_action_list(items);
    assert(s.subrange(0, s.len() as int) =~= s + Seq::<u8>::empty());
    lemma_parse_action_list_ser(s, 0, items, Seq::empty());
}

/// The serialized line of one spatial query request, newline included.
pub fn serialize_request_line(q: &PhysicsRequest) -> (r: Vec<u8>)
    requires
        request_wf(*q),
    ensures
        r@ == spec_ser_request(*q) + seq![0x0au8],
{
    let mut out: Vec<u8> = Vec::new();
    write_request(q, &mut out);
    out.push(0x0a);
    proof {
        assert(out@ =~= spec_ser_request(*q) + seq![0x0au8]);
    }
    out
}

/// Parses one request line: the object, then nothing but whitespace.
pub fn parse_request_line(s: &Vec<u8>) -> (r: Option<PhysicsRequest>)
    ensures
        (match spec_parse_request(s@, 0) {
            Option::None => r is None,
            Option::Some((q, p)) => {
                if ws_only(s@, p) {
                    r is Some && r.unwrap() == q
                } else {
                    r is None
                }
            },
        }),
{
    match parse_request(s, 0) {
        Option::None => None,
        Option::Some((q, p)) => {
            proof {
                lemma_parse_request_advances(s@, 0);
            }
            if ws_from(s, p) {
                Some(q)
            } else {
                None
            }
        },
    }
}

/// Round trip: parsing a serialized request yields it back, id included.
pub proof fn lemma_request_round_trip(q: PhysicsRequest)
    requires
        request_wf(q),
    ensures
        spec_parse_request(spec_ser_request(q), 0) == Some(
            (q, spec_ser_request(q).len() as int),
        ),
{
    let s = spec_ser_request(q);
    assert(s.subrange(0, s.len() as int) =~= s + Seq::<u8>::empty());
    lemma_parse_request_ser(s, 0, q, Seq::empty());
}

/// The serialized line of one spatial query response, newline included.
pub fn serialize_response_line(v: &PhysicsResponse) -> (r: Vec<u8>)
    ensures
        r@ == spec_ser_response(*v) + seq![0x0au8],
{
    let mut out: Vec<u8> = Vec::new();
    write_response(v, &mut out);
    out.push(0x0a);
    proof {
        assert(out@ =~= spec_ser_response(*v) + seq![0x0au8]);
    }
    out
}

/// Parses one response line: the object, then nothing but whitespace.
pub fn parse_response_line(s: &Vec<u8>) -> (r: Option<PhysicsResponse>)
    ensures
        (match spec_parse_response(s@, 0) {
            Option::None => r is None,
            Option::Some((v, p)) => {
                if ws_only(s@, p) {
                    r is Some && r.unwrap() == v
                } else {
                    r is None
                }
            },
        }),
{
    match parse_response(s, 0) {
        Option::None => None,
        Option::Some((v, p)) => {
            proof {
                lemma_parse_response_advances(s@, 0);
            }
            if ws_from(s, p) {
                Some(v)
            } else {
                None
            }
        },
    }
}

/// Round trip: a response carries its id verbatim, so the client that
/// sent id 42 reads back exactly id 42 with the answer.
pub proof fn lemma_response_round_trip(v: PhysicsResponse)
    ensures
        spec_parse_response(spec_ser_response(v), 0) == Some(
            (v, spec_ser_response(v).len() as int),
        ),
{
    let s = spec_ser_response(v);
    assert(s.subrange(0, s.len() as int) =~= s + Seq::<u8>::empty());
    lemma_parse_response_ser(s, 0, v, Seq::empty());
}


} // verus!
