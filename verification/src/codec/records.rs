//! The snapshot record types on the wire: agents, flags, capture points,
//! their enum fields and coordinate pairs.

use vstd::prelude::*;

use crate::codec::lits::{eat_key_has_flag, eat_key_id, eat_key_max_speed, eat_key_name, eat_key_position, eat_key_status, eat_key_team, eat_obj_id, eat_obj_name, eat_st_captured, eat_st_dropped, eat_st_picked_up, eat_team_blue, eat_team_red, emit_key_has_flag, emit_key_id, emit_key_max_speed, emit_key_name, emit_key_position, emit_key_status, emit_key_team, emit_obj_id, emit_obj_name, emit_st_captured, emit_st_dropped, emit_st_picked_up, emit_team_blue, emit_team_red, lit_key_has_flag, lit_key_id, lit_key_max_speed, lit_key_name, lit_key_position, lit_key_status, lit_key_team, lit_obj_id, lit_obj_name, lit_st_captured, lit_st_dropped, lit_st_picked_up, lit_team_blue, lit_team_red};
use crate::codec::prims::{dec_fx, dec_u64, is_digit, lemma_concat_assoc, lemma_parse_bool_bounds, lemma_parse_bool_ser, lemma_parse_fx_bounds, lemma_parse_fx_dec, lemma_parse_name_bounds, lemma_parse_name_ser, lemma_parse_u64_bounds, lemma_parse_u64_dec, lemma_split_suffix, parse_bool, parse_fx, parse_name, parse_u64, ser_bool, ser_name, spec_parse_bool, spec_parse_fx, spec_parse_name, spec_parse_u64, starts_with, write_bool, write_fx, write_name, write_u64};
use crate::state::{
    agent_wf, capture_point_wf, coord_wf, flag_wf, name_wf, vec2_wf, AgentState, AgentStateV,
    CapturePointState, CapturePointStateV, FlagState, FlagStateV, FlagStatus, Vec2Fx,
};
use crate::team::TeamId;

verus! {

// ------------------------------------------------------------------
// Teams
// ------------------------------------------------------------------
/// A team on the wire.
pub open spec fn ser_team(t: TeamId) -> Seq<u8> {
    if t == TeamId::Red {
        lit_team_red()
    } else {
        lit_team_blue()
    }
}

/// A parsed team.
pub open spec fn spec_parse_team(s: Seq<u8>, pos: int) -> Option<(TeamId, int)> {
    if starts_with(s, pos, lit_team_red()) {
        Some((TeamId::Red, pos + lit_team_red().len()))
    } else if starts_with(s, pos, lit_team_blue()) {
        Some((TeamId::Blue, pos + lit_team_blue().len()))
    } else {
        None
    }
}

/// Appends a team.
pub fn write_team(t: TeamId, out: &mut Vec<u8>)
    ensures
        final(out)@ == old(out)@ + ser_team(t),
{
    match t {
        TeamId::Red => emit_team_red(out),
        TeamId::Blue => emit_team_blue(out),
    }
}

/// Reads a team at `pos`.
pub fn parse_team(s: &Vec<u8>, pos: usize) -> (r: Option<(TeamId, usize)>)
    requires
        pos <= s@.len(),
    ensures
        (match spec_parse_team(s@, pos as int) {
            Option::None => r is None,
            Option::Some((t, p)) => r is Some && r.unwrap().0 == t && r.unwrap().1 as int == p,
        }),
{
    match eat_team_red(s, pos) {
        Option::Some(p) => Some((TeamId::Red, p)),
        Option::None => match eat_team_blue(s, pos) {
            Option::Some(p) => Some((TeamId::Blue, p)),
            Option::None => None,
        },
    }
}

/// A successful team parse moves forward and stays in bounds.
pub proof fn lemma_parse_team_bounds(s: Seq<u8>, pos: int)
    requires
        0 <= pos <= s.len(),
    ensures
        (match spec_parse_team(s, pos) {
            Option::None => true,
            Option::Some((t, p)) => pos < p <= s.len(),
        }),
{
}

/// Reading a rendered team yields it back.
pub proof fn lemma_parse_team_ser(s: Seq<u8>, pos: int, t: TeamId, rest: Seq<u8>)
    requires
        0 <= pos <= s.len(),
        s.subrange(pos, s.len() as int) == ser_team(t) + rest,
    ensures
        spec_parse_team(s, pos) == Some((t, pos + ser_team(t).len())),
{
    lemma_split_suffix(s, pos, ser_team(t), rest);
    if t == TeamId::Red {
        assert(starts_with(s, pos, lit_team_red()));
    } else {
        assert(starts_with(s, pos, lit_team_blue()));
        if starts_with(s, pos, lit_team_red()) {
            assert(s.subrange(pos, pos + 5)[1] == lit_team_red()[1]);
            assert(s[pos + 1] == lit_team_blue()[1]);
        }
    }
}

// ------------------------------------------------------------------
// Flag status
// ------------------------------------------------------------------
/// A flag status on the wire.
pub open spec fn ser_status(st: FlagStatus) -> Seq<u8> {
    match st {
        FlagStatus::Dropped => lit_st_dropped(),
        FlagStatus::PickedUp => lit_st_picked_up(),
        FlagStatus::Captured => lit_st_captured(),
    }
}

/// A parsed flag status.
pub open spec fn spec_parse_status(s: Seq<u8>, pos: int) -> Option<(FlagStatus, int)> {
    if starts_with(s, pos, lit_st_dropped()) {
        Some((FlagStatus::Dropped, pos + lit_st_dropped().len()))
    } else if starts_with(s, pos, lit_st_picked_up()) {
        Some((FlagStatus::PickedUp, pos + lit_st_picked_up().len()))
    } else if starts_with(s, pos, lit_st_captured()) {
        Some((FlagStatus::Captured, pos + lit_st_captured().len()))
    } else {
        None
    }
}

/// Appends a flag status.
pub fn write_status(st: FlagStatus, out: &mut Vec<u8>)
    ensures
        final(out)@ == old(out)@ + ser_status(st),
{
    match st {
        FlagStatus::Dropped => emit_st_dropped(out),
        FlagStatus::PickedUp => emit_st_picked_up(out),
        FlagStatus::Captured => emit_st_captured(out),
    }
}

/// Reads a flag status at `pos`.
pub fn parse_status(s: &Vec<u8>, pos: usize) -> (r: Option<(FlagStatus, usize)>)
    requires
        pos <= s@.len(),
    ensures
        (match spec_parse_status(s@, pos as int) {
            Option::None => r is None,
            Option::Some((st, p)) => r is Some && r.unwrap().0 == st && r.unwrap().1 as int == p,
        }),
{
    match eat_st_dropped(s, pos) {
        Option::Some(p) => Some((FlagStatus::Dropped, p)),
        Option::None => match eat_st_picked_up(s, pos) {
            Option::Some(p) => Some((FlagStatus::PickedUp, p)),
            Option::None => match eat_st_captured(s, pos) {
                Option::Some(p) => Some((FlagStatus::Captured, p)),
                Option::None => None,
            },
        },
    }
}

/// A successful status parse moves forward and stays in bounds.
pub proof fn lemma_parse_status_bounds(s: Seq<u8>, pos: int)
    requires
        0 <= pos <= s.len(),
    ensures
        (match spec_parse_status(s, pos) {
            Option::None => true,
            Option::Some((st, p)) => pos < p <= s.len(),
        }),
{
}

/// Reading a rendered flag status yields it back.
pub proof fn lemma_parse_status_ser(s: Seq<u8>, pos: int, st: FlagStatus, rest: Seq<u8>)
    requires
        0 <= pos <= s.len(),
        s.subrange(pos, s.len() as int) == ser_status(st) + rest,
    ensures
        spec_parse_status(s, pos) == Some((st, pos + ser_status(st).len())),
{
    lemma_split_suffix(s, pos, ser_status(st), rest);
    match st {
        FlagStatus::Dropped => {
            assert(starts_with(s, pos, lit_st_dropped()));
        },
        FlagStatus::PickedUp => {
            assert(starts_with(s, pos, lit_st_picked_up()));
            if starts_with(s, pos, lit_st_dropped()) {
                assert(s.subrange(pos, pos + 9)[1] == lit_st_dropped()[1]);
                assert(s[pos + 1] == lit_st_picked_up()[1]);
            }
        },
        FlagStatus::Captured => {
            assert(starts_with(s, pos, lit_st_captured()));
            if starts_with(s, pos, lit_st_dropped()) {
                assert(s.subrange(pos, pos + 9)[1] == lit_st_dropped()[1]);
                assert(s[pos + 1] == lit_st_captured()[1]);
            }
            if starts_with(s, pos, lit_st_picked_up()) {
                assert(s.subrange(pos, pos + 10)[1] == lit_st_picked_up()[1]);
                assert(s[pos + 1] == lit_st_captured()[1]);
            }
        },
    }
}

// ------------------------------------------------------------------
// Coordinate pairs
// ------------------------------------------------------------------
/// A coordinate pair on the wire: `[x,y]`.
pub open spec fn ser_vec2(v: Vec2Fx) -> Seq<u8> {
    seq![0x5bu8] + dec_fx(v.x) + seq![0x2cu8] + dec_fx(v.y) + seq![0x5du8]
}

/// A parsed coordinate pair.
pub open spec fn spec_parse_vec2(s: Seq<u8>, pos: int) -> Option<(Vec2Fx, int)> {
    if !(0 <= pos < s.len() && s[pos] == 0x5b) {
        None
    } else {
        match spec_parse_fx(s, pos + 1) {
            Option::None => None,
            Option::Some((x, p1)) => {
                if !(p1 < s.len() && s[p1] == 0x2c) {
                    None
                } else {
                    match spec_parse_fx(s, p1 + 1) {
                        Option::None => None,
                        Option::Some((y, p2)) => {
                            if !(p2 < s.len() && s[p2] == 0x5d) {
                                None
                            } else {
                                Some((Vec2Fx { x, y }, p2 + 1))
                            }
                        },
                    }
                }
            },
        }
    }
}

/// Appends a coordinate pair.
pub fn write_vec2(v: Vec2Fx, out: &mut Vec<u8>)
    requires
        vec2_wf(v),
    ensures
        final(out)@ == old(out)@ + ser_vec2(v),
{
    out.push(0x5b);
    write_fx(v.x, out);
    out.push(0x2c);
    write_fx(v.y, out);
    out.push(0x5d);
    proof {
        assert(out@ =~= old(out)@ + ser_vec2(v));
    }
}

/// Reads a coordinate pair at `pos`.
pub fn parse_vec2(s: &Vec<u8>, pos: usize) -> (r: Option<(Vec2Fx, usize)>)
    requires
        pos <= s@.len(),
    ensures
        (match spec_parse_vec2(s@, pos as int) {
            Option::None => r is None,
            Option::Some((v, p)) => r is Some && r.unwrap().0 == v && r.unwrap().1 as int == p,
        }),
{
    if !(pos < s.len() && s[pos] == 0x5b) {
        return None;
    }
    let (x, p1) = match parse_fx(s, pos + 1) {
        Option::None => {
            return None;
        },
        Option::Some(v) => v,
    };
    proof {
        lemma_parse_fx_bounds(s@, pos as int + 1);
    }
    if !(p1 < s.len() && s[p1] == 0x2c) {
        return None;
    }
    let (y, p2) = match parse_fx(s, p1 + 1) {
        Option::None => {
            return None;
        },
        Option::Some(v) => v,
    };
    proof {
        lemma_parse_fx_bounds(s@, p1 as int + 1);
    }
    if !(p2 < s.len() && s[p2] == 0x5d) {
        return None;
    }
    Some((Vec2Fx { x, y }, p2 + 1))
}

/// A successful pair parse moves forward and stays in bounds.
pub proof fn lemma_parse_vec2_bounds(s: Seq<u8>, pos: int)
    requires
        0 <= pos <= s.len(),
    ensures
        (match spec_parse_vec2(s, pos) {
            Option::None => true,
            Option::Some((v, p)) => pos < p <= s.len(),
        }),
{
    if 0 <= pos < s.len() && s[pos] == 0x5b {
        lemma_parse_fx_bounds(s, pos + 1);
        match spec_parse_fx(s, pos + 1) {
            Option::None => {},
            Option::Some((x, p1)) => {
                if p1 < s.len() && s[p1] == 0x2c {
                    lemma_parse_fx_bounds(s, p1 + 1);
                }
            },
        }
    }
}

/// Reading a rendered coordinate pair yields it back.
pub proof fn lemma_parse_vec2_ser(s: Seq<u8>, pos: int, v: Vec2Fx, rest: Seq<u8>)
    requires
        0 <= pos <= s.len(),
        vec2_wf(v),
        s.subrange(pos, s.len() as int) == ser_vec2(v) + rest,
    ensures
        spec_parse_vec2(s, pos) == Some((v, pos + ser_vec2(v).len())),
{
    let t3 = seq![0x5du8] + rest;
    let t2 = dec_fx(v.y) + t3;
    let t1 = seq![0x2cu8] + t2;
    let t0 = dec_fx(v.x) + t1;
    assert(ser_vec2(v) + rest =~= seq![0x5bu8] + t0);
    lemma_split_suffix(s, pos, seq![0x5bu8], t0);
    assert(s[pos + 0] == seq![0x5bu8][0]);
    assert(s[pos] == 0x5b);
    assert(s.subrange(pos + 1, s.len() as int) =~= t0);
    assert(t1[0] == 0x2c);
    assert(!is_digit(t1[0]));
    lemma_parse_fx_dec(s, pos + 1, v.x, t1);
    let p1 = pos + 1 + dec_fx(v.x).len();
    lemma_split_suffix(s, pos + 1, dec_fx(v.x), t1);
    assert(s.subrange(p1, s.len() as int) =~= t1);
    lemma_split_suffix(s, p1, seq![0x2cu8], t2);
    assert(s[p1 + 0] == seq![0x2cu8][0]);
    assert(s[p1] == 0x2c);
    assert(s.subrange(p1 + 1, s.len() as int) =~= t2);
    assert(t3[0] == 0x5d);
    assert(!is_digit(t3[0]));
    lemma_parse_fx_dec(s, p1 + 1, v.y, t3);
    let p2 = p1 + 1 + dec_fx(v.y).len();
    lemma_split_suffix(s, p1 + 1, dec_fx(v.y), t3);
    assert(s.subrange(p2, s.len() as int) =~= t3);
    lemma_split_suffix(s, p2, seq![0x5du8], rest);
    assert(s[p2 + 0] == seq![0x5du8][0]);
    assert(s[p2] == 0x5d);
    assert(spec_parse_vec2(s, pos) == Some((v, p2 + 1)));
}

// ------------------------------------------------------------------
// Identifiers
// ------------------------------------------------------------------
/// A parsed `u32`: a decimal number within range.
pub open spec fn spec_parse_u32(s: Seq<u8>, pos: int) -> Option<(u32, int)> {
    match spec_parse_u64(s, pos) {
        Option::None => None,
        Option::Some((v, p)) => {
            if v > 0xffff_ffff {
                None
            } else {
                Some((v as u32, p))
            }
        },
    }
}

/// Reads a `u32` at `pos`.
pub fn parse_u32(s: &Vec<u8>, pos: usize) -> (r: Option<(u32, usize)>)
    requires
        pos <= s@.len(),
    ensures
        (match spec_parse_u32(s@, pos as int) {
            Option::None => r is None,
            Option::Some((v, p)) => r is Some && r.unwrap().0 == v && r.unwrap().1 as int == p,
        }),
{
    match parse_u64(s, pos) {
        Option::None => None,
        Option::Some((v, p)) => {
            if v > 0xffff_ffff {
                None
            } else {
                Some((v as u32, p))
            }
        },
    }
}

/// A successful `u32` parse moves forward and stays in bounds.
pub proof fn lemma_parse_u32_bounds(s: Seq<u8>, pos: int)
    requires
        0 <= pos <= s.len(),
    ensures
        (match spec_parse_u32(s, pos) {
            Option::None => true,
            Option::Some((v, p)) => pos < p <= s.len(),
        }),
{
    lemma_parse_u64_bounds(s, pos);
}

/// The wire bytes of one agent record.
pub open spec fn spec_ser_agent(v: AgentStateV) -> Seq<u8> {
    lit_obj_name() + ser_name(v.name) + lit_key_id() + dec_u64(v.id as nat) + lit_key_team() + ser_team(v.team) + lit_key_position() + ser_vec2(v.position) + lit_key_max_speed() + dec_fx(v.max_speed) + lit_key_has_flag() + ser_bool(v.has_flag) + seq![0x7du8]
}

/// A parsed agent record.
pub open spec fn spec_parse_agent(s: Seq<u8>, pos: int) -> Option<(AgentStateV, int)> {
    if !starts_with(s, pos, lit_obj_name()) {
        None
    } else {
        let p1 = pos + lit_obj_name().len();
        match spec_parse_name(s, p1) {
            Option::None => None,
            Option::Some((name, p2)) => {
            if !starts_with(s, p2, lit_key_id()) {
                None
            } else {
                let p3 = p2 + lit_key_id().len();
                match spec_parse_u32(s, p3) {
                    Option::None => None,
                    Option::Some((id, p4)) => {
                    if !starts_with(s, p4, lit_key_team()) {
                        None
                    } else {
                        let p5 = p4 + lit_key_team().len();
                        match spec_parse_team(s, p5) {
                            Option::None => None,
                            Option::Some((team, p6)) => {
                            if !starts_with(s, p6, lit_key_position()) {
                                None
                            } else {
                                let p7 = p6 + lit_key_position().len();
                                match spec_parse_vec2(s, p7) {
                                    Option::None => None,
                                    Option::Some((position, p8)) => {
                                    if !starts_with(s, p8, lit_key_max_speed()) {
                                        None
                                    } else {
                                        let p9 = p8 + lit_key_max_speed().len();
                                        match spec_parse_fx(s, p9) {
                                            Option::None => None,
                                            Option::Some((max_speed, p10)) => {
                                            if !starts_with(s, p10, lit_key_has_flag()) {
                                                None
                                            } else {
                                                let p11 = p10 + lit_key_has_flag().len();
                                                match spec_parse_bool(s, p11) {
                                                    Option::None => None,
                                                    Option::Some((has_flag, p12)) => {
                                                    if !(p12 < s.len() && s[p12] == 0x7d) {
                                                        None
                                                    } else {
                                                        Some((AgentStateV { name, id, team, position, max_speed, has_flag }, p12 + 1))
                                                    }
                                                },
                                                }
                                            }
                                        },
                                        }
                                    }
                                },
                                }
                            }
                        },
                        }
                    }
                },
                }
            }
        },
        }
    }
}

/// Appends one agent record.
pub fn write_agent(v: &AgentState, out: &mut Vec<u8>)
    requires
        agent_wf(v@),
    ensures
        final(out)@ == old(out)@ + spec_ser_agent(v@),
{
    let ghost a0 = lit_obj_name();
    emit_obj_name(out);
    proof {
        assert(out@ == old(out)@ + a0);
    }
    let ghost a1 = a0 + (ser_name(v@.name));
    write_name(&v.name, out);
    proof {
        lemma_concat_assoc(old(out)@, a0, ser_name(v@.name));
        assert(out@ == old(out)@ + a1);
    }
    let ghost a2 = a1 + (lit_key_id());
    emit_key_id(out);
    proof {
        lemma_concat_assoc(old(out)@, a1, lit_key_id());
        assert(out@ == old(out)@ + a2);
    }
    let ghost a3 = a2 + (dec_u64(v@.id as nat));
    write_u64(v.id as u64, out);
    proof {
        lemma_concat_assoc(old(out)@, a2, dec_u64(v@.id as nat));
        assert(out@ == old(out)@ + a3);
    }
    let ghost a4 = a3 + (lit_key_team());
    emit_key_team(out);
    proof {
        lemma_concat_assoc(old(out)@, a3, lit_key_team());
        assert(out@ == old(out)@ + a4);
    }
    let ghost a5 = a4 + (ser_team(v@.team));
    write_team(v.team, out);
    proof {
        lemma_concat_assoc(old(out)@, a4, ser_team(v@.team));
        assert(out@ == old(out)@ + a5);
    }
    let ghost a6 = a5 + (lit_key_position());
    emit_key_position(out);
    proof {
        lemma_concat_assoc(old(out)@, a5, lit_key_position());
        assert(out@ == old(out)@ + a6);
    }
    let ghost a7 = a6 + (ser_vec2(v@.position));
    write_vec2(v.position, out);
    proof {
        lemma_concat_assoc(old(out)@, a6, ser_vec2(v@.position));
        assert(out@ == old(out)@ + a7);
    }
    let ghost a8 = a7 + (lit_key_max_speed());
    emit_key_max_speed(out);
    proof {
        lemma_concat_assoc(old(out)@, a7, lit_key_max_speed());
        assert(out@ == old(out)@ + a8);
    }
    let ghost a9 = a8 + (dec_fx(v@.max_speed));
    write_fx(v.max_speed, out);
    proof {
        lemma_concat_assoc(old(out)@, a8, dec_fx(v@.max_speed));
        assert(out@ == old(out)@ + a9);
    }
    let ghost a10 = a9 + (lit_key_has_flag());
    emit_key_has_flag(out);
    proof {
        lemma_concat_assoc(old(out)@, a9, lit_key_has_flag());
        assert(out@ == old(out)@ + a10);
    }
    let ghost a11 = a10 + (ser_bool(v@.has_flag));
    write_bool(v.has_flag, out);
    proof {
        lemma_concat_assoc(old(out)@, a10, ser_bool(v@.has_flag));
        assert(out@ == old(out)@ + a11);
    }
    let ghost a12 = a11 + (seq![0x7du8]);
    let ghost before_close = out@;
    out.push(0x7d);
    proof {
        assert(out@ =~= before_close + seq![0x7du8]);
        lemma_concat_assoc(old(out)@, a11, seq![0x7du8]);
        assert(out@ == old(out)@ + a12);
    }
    proof {
        assert(a12 == spec_ser_agent(v@));
    }
}

/// Reads one agent record at `pos`.
pub fn parse_agent(s: &Vec<u8>, pos: usize) -> (r: Option<(AgentState, usize)>)
    requires
        pos <= s@.len(),
    ensures
        (match spec_parse_agent(s@, pos as int) {
            Option::None => r is None,
            Option::Some((v, p)) => r is Some && r.unwrap().0@ == v && r.unwrap().1 as int == p,
        }),
{
    let p1 = match eat_obj_name(s, pos) {
        Option::None => {
            return None;
        },
        Option::Some(p) => p,
    };
    proof {
        lemma_parse_name_bounds(s@, p1 as int);
    }
    let (name, p2) = match parse_name(s, p1) {
        Option::None => {
            return None;
        },
        Option::Some(x) => x,
    };
    let p3 = match eat_key_id(s, p2) {
        Option::None => {
            return None;
        },
        Option::Some(p) => p,
    };
    proof {
        lemma_parse_u32_bounds(s@, p3 as int);
    }
    let (id, p4) = match parse_u32(s, p3) {
        Option::None => {
            return None;
        },
        Option::Some(x) => x,
    };
    let p5 = match eat_key_team(s, p4) {
        Option::None => {
            return None;
        },
        Option::Some(p) => p,
    };
    proof {
        lemma_parse_team_bounds(s@, p5 as int);
    }
    let (team, p6) = match parse_team(s, p5) {
        Option::None => {
            return None;
        },
        Option::Some(x) => x,
    };
    let p7 = match eat_key_position(s, p6) {
        Option::None => {
            return None;
        },
        Option::Some(p) => p,
    };
    proof {
        lemma_parse_vec2_bounds(s@, p7 as int);
    }
    let (position, p8) = match parse_vec2(s, p7) {
        Option::None => {
            return None;
        },
        Option::Some(x) => x,
    };
    let p9 = match eat_key_max_speed(s, p8) {
        Option::None => {
            return None;
        },
        Option::Some(p) => p,
    };
    proof {
        lemma_parse_fx_bounds(s@, p9 as int);
    }
    let (max_speed, p10) = match parse_fx(s, p9) {
        Option::None => {
            return None;
        },
        Option::Some(x) => x,
    };
    let p11 = match eat_key_has_flag(s, p10) {
        Option::None => {
            return None;
        },
        Option::Some(p) => p,
    };
    proof {
        lemma_parse_bool_bounds(s@, p11 as int);
    }
    let (has_flag, p12) = match parse_bool(s, p11) {
        Option::None => {
            return None;
        },
        Option::Some(x) => x,
    };
    if !(p12 < s.len() && s[p12] == 0x7d) {
        return None;
    }
    Some((AgentState { name, id, team, position, max_speed, has_flag }, p12 + 1))
}

/// A successful agent parse moves forward and stays in bounds.
pub proof fn lemma_parse_agent_advances(s: Seq<u8>, pos: int)
    requires
        0 <= pos <= s.len(),
    ensures
        (match spec_parse_agent(s, pos) {
            Option::None => true,
            Option::Some((v, p)) => pos < p <= s.len(),
        }),
{
    if starts_with(s, pos, lit_obj_name()) {
        let p1 = pos + lit_obj_name().len();
        lemma_parse_name_bounds(s, p1);
        match spec_parse_name(s, p1) {
            Option::None => {},
            Option::Some((name, p2)) => {
                if starts_with(s, p2, lit_key_id()) {
                    let p3 = p2 + lit_key_id().len();
                    lemma_parse_u32_bounds(s, p3);
                    match spec_parse_u32(s, p3) {
                        Option::None => {},
                        Option::Some((id, p4)) => {
                            if starts_with(s, p4, lit_key_team()) {
                                let p5 = p4 + lit_key_team().len();
                                lemma_parse_team_bounds(s, p5);
                                match spec_parse_team(s, p5) {
                                    Option::None => {},
                                    Option::Some((team, p6)) => {
                                        if starts_with(s, p6, lit_key_position()) {
                                            let p7 = p6 + lit_key_position().len();
                                            lemma_parse_vec2_bounds(s, p7);
                                            match spec_parse_vec2(s, p7) {
                                                Option::None => {},
                                                Option::Some((position, p8)) => {
                                                    if starts_with(s, p8, lit_key_max_speed()) {
                                                        let p9 = p8 + lit_key_max_speed().len();
                                                        lemma_parse_fx_bounds(s, p9);
                                                        match spec_parse_fx(s, p9) {
                                                            Option::None => {},
                                                            Option::Some((max_speed, p10)) => {
                                                                if starts_with(s, p10, lit_key_has_flag()) {
                                                                    let p11 = p10 + lit_key_has_flag().len();
                                                                    lemma_parse_bool_bounds(s, p11);
                                                                    match spec_parse_bool(s, p11) {
                                                                        Option::None => {},
                                                                        Option::Some((has_flag, p12)) => {
                                                                        }
                                                                    }
                                                                }
                                                            }
                                                        }
                                                    }
                                                }
                                            }
                                        }
                                    }
                                }
                            }
                        }
                    }
                }
            }
        }
    }
}

/// Reading a rendered agent record yields it back.
#[verifier::rlimit(100)]
#[verifier::spinoff_prover]
pub proof fn lemma_parse_agent_ser(s: Seq<u8>, pos: int, v: AgentStateV, rest: Seq<u8>)
    requires
        0 <= pos <= s.len(),
        agent_wf(v),
        s.subrange(pos, s.len() as int) == spec_ser_agent(v) + rest,
    ensures
        spec_parse_agent(s, pos) == Some((v, pos + spec_ser_agent(v).len())),
{
    let c0 = lit_obj_name();
    let c1 = ser_name(v.name);
    let c2 = lit_key_id();
    let c3 = dec_u64(v.id as nat);
    let c4 = lit_key_team();
    let c5 = ser_team(v.team);
    let c6 = lit_key_position();
    let c7 = ser_vec2(v.position);
    let c8 = lit_key_max_speed();
    let c9 = dec_fx(v.max_speed);
    let c10 = lit_key_has_flag();
    let c11 = ser_bool(v.has_flag);
    let c12 = seq![0x7du8];
    let t13 = rest;
    let t12 = c12 + t13;
    let t11 = c11 + t12;
    let t10 = c10 + t11;
    let t9 = c9 + t10;
    let t8 = c8 + t9;
    let t7 = c7 + t8;
    let t6 = c6 + t7;
    let t5 = c5 + t6;
    let t4 = c4 + t5;
    let t3 = c3 + t4;
    let t2 = c2 + t3;
    let t1 = c1 + t2;
    let t0 = c0 + t1;
    let a0 = c0;
    let a1 = a0 + c1;
    let a2 = a1 + c2;
    let a3 = a2 + c3;
    let a4 = a3 + c4;
    let a5 = a4 + c5;
    let a6 = a5 + c6;
    let a7 = a6 + c7;
    let a8 = a7 + c8;
    let a9 = a8 + c9;
    let a10 = a9 + c10;
    let a11 = a10 + c11;
    let a12 = a11 + c12;
    lemma_concat_assoc(a11, c12, t13);
    lemma_concat_assoc(a10, c11, t12);
    lemma_concat_assoc(a9, c10, t11);
    lemma_concat_assoc(a8, c9, t10);
    lemma_concat_assoc(a7, c8, t9);
    lemma_concat_assoc(a6, c7, t8);
    lemma_concat_assoc(a5, c6, t7);
    lemma_concat_assoc(a4, c5, t6);
    lemma_concat_assoc(a3, c4, t5);
    lemma_concat_assoc(a2, c3, t4);
    lemma_concat_assoc(a1, c2, t3);
    lemma_concat_assoc(a0, c1, t2);
    assert(spec_ser_agent(v) == a12);
    assert(a12 + rest == t0);
    assert(s.subrange(pos, s.len() as int) == t0);
    lemma_split_suffix(s, pos, c0, t1);
    let q1 = pos + c0.len();
    assert(starts_with(s, pos, lit_obj_name()));
    assert(s.subrange(q1, s.len() as int) =~= t1);
    lemma_split_suffix(s, q1, c1, t2);
    let q2 = q1 + c1.len();
    lemma_parse_name_ser(s, q1, v.name, t2);
    assert(s.subrange(q2, s.len() as int) =~= t2);
    lemma_split_suffix(s, q2, c2, t3);
    let q3 = q2 + c2.len();
    assert(starts_with(s, q2, lit_key_id()));
    assert(s.subrange(q3, s.len() as int) =~= t3);
    lemma_split_suffix(s, q3, c3, t4);
    let q4 = q3 + c3.len();
    assert(t4[0] == c4[0]);
    assert(!is_digit(t4[0]));
    lemma_parse_u64_dec(s, q3, v.id as u64, t4);
    assert(s.subrange(q4, s.len() as int) =~= t4);
    lemma_split_suffix(s, q4, c4, t5);
    let q5 = q4 + c4.len();
    assert(starts_with(s, q4, lit_key_team()));
    assert(s.subrange(q5, s.len() as int) =~= t5);
    lemma_split_suffix(s, q5, c5, t6);
    let q6 = q5 + c5.len();
    lemma_parse_team_ser(s, q5, v.team, t6);
    assert(s.subrange(q6, s.len() as int) =~= t6);
    lemma_split_suffix(s, q6, c6, t7);
    let q7 = q6 + c6.len();
    assert(starts_with(s, q6, lit_key_position()));
    assert(s.subrange(q7, s.len() as int) =~= t7);
    lemma_split_suffix(s, q7, c7, t8);
    let q8 = q7 + c7.len();
    lemma_parse_vec2_ser(s, q7, v.position, t8);
    assert(s.subrange(q8, s.len() as int) =~= t8);
    lemma_split_suffix(s, q8, c8, t9);
    let q9 = q8 + c8.len();
    assert(starts_with(s, q8, lit_key_max_speed()));
    assert(s.subrange(q9, s.len() as int) =~= t9);
    lemma_split_suffix(s, q9, c9, t10);
    let q10 = q9 + c9.len();
    assert(t10[0] == c10[0]);
    assert(!is_digit(t10[0]));
    lemma_parse_fx_dec(s, q9, v.max_speed, t10);
    assert(s.subrange(q10, s.len() as int) =~= t10);
    lemma_split_suffix(s, q10, c10, t11);
    let q11 = q10 + c10.len();
    assert(starts_with(s, q10, lit_key_has_flag()));
    assert(s.subrange(q11, s.len() as int) =~= t11);
    lemma_split_suffix(s, q11, c11, t12);
    let q12 = q11 + c11.len();
    lemma_parse_bool_ser(s, q11, v.has_flag, t12);
    assert(s.subrange(q12, s.len() as int) =~= t12);
    lemma_split_suffix(s, q12, c12, t13);
    let q13 = q12 + c12.len();
    assert(s[q12 + 0] == c12[0]);
    assert(s[q12] == 0x7d);
    assert(spec_parse_agent(s, pos) == Some((v, q13)));
    assert(q13 == pos + spec_ser_agent(v).len());
}

/// The wire bytes of one flag record.
pub open spec fn spec_ser_flag(v: FlagStateV) -> Seq<u8> {
    lit_obj_id() + dec_u64(v.id as nat) + lit_key_name() + ser_name(v.name) + lit_key_team() + ser_team(v.team) + lit_key_position() + ser_vec2(v.position) + lit_key_status() + ser_status(v.status) + seq![0x7du8]
}

/// A parsed flag record.
pub open spec fn spec_parse_flag(s: Seq<u8>, pos: int) -> Option<(FlagStateV, int)> {
    if !starts_with(s, pos, lit_obj_id()) {
        None
    } else {
        let p1 = pos + lit_obj_id().len();
        match spec_parse_u32(s, p1) {
            Option::None => None,
            Option::Some((id, p2)) => {
            if !starts_with(s, p2, lit_key_name()) {
                None
            } else {
                let p3 = p2 + lit_key_name().len();
                match spec_parse_name(s, p3) {
                    Option::None => None,
                    Option::Some((name, p4)) => {
                    if !starts_with(s, p4, lit_key_team()) {
                        None
                    } else {
                        let p5 = p4 + lit_key_team().len();
                        match spec_parse_team(s, p5) {
                            Option::None => None,
                            Option::Some((team, p6)) => {
                            if !starts_with(s, p6, lit_key_position()) {
                                None
                            } else {
                                let p7 = p6 + lit_key_position().len();
                                match spec_parse_vec2(s, p7) {
                                    Option::None => None,
                                    Option::Some((position, p8)) => {
                                    if !starts_with(s, p8, lit_key_status()) {
                                        None
                                    } else {
                                        let p9 = p8 + lit_key_status().len();
                                        match spec_parse_status(s, p9) {
                                            Option::None => None,
                                            Option::Some((status, p10)) => {
                                            if !(p10 < s.len() && s[p10] == 0x7d) {
                                                None
                                            } else {
                                                Some((FlagStateV { id, name, team, position, status }, p10 + 1))
                                            }
                                        },
                                        }
                                    }
                                },
                                }
                            }
                        },
                        }
                    }
                },
                }
            }
        },
        }
    }
}

/// Appends one flag record.
pub fn write_flag(v: &FlagState, out: &mut Vec<u8>)
    requires
        flag_wf(v@),
    ensures
        final(out)@ == old(out)@ + spec_ser_flag(v@),
{
    let ghost a0 = lit_obj_id();
    emit_obj_id(out);
    proof {
        assert(out@ == old(out)@ + a0);
    }
    let ghost a1 = a0 + (dec_u64(v@.id as nat));
    write_u64(v.id as u64, out);
    proof {
        lemma_concat_assoc(old(out)@, a0, dec_u64(v@.id as nat));
        assert(out@ == old(out)@ + a1);
    }
    let ghost a2 = a1 + (lit_key_name());
    emit_key_name(out);
    proof {
        lemma_concat_assoc(old(out)@, a1, lit_key_name());
        assert(out@ == old(out)@ + a2);
    }
    let ghost a3 = a2 + (ser_name(v@.name));
    write_name(&v.name, out);
    proof {
        lemma_concat_assoc(old(out)@, a2, ser_name(v@.name));
        assert(out@ == old(out)@ + a3);
    }
    let ghost a4 = a3 + (lit_key_team());
    emit_key_team(out);
    proof {
        lemma_concat_assoc(old(out)@, a3, lit_key_team());
        assert(out@ == old(out)@ + a4);
    }
    let ghost a5 = a4 + (ser_team(v@.team));
    write_team(v.team, out);
    proof {
        lemma_concat_assoc(old(out)@, a4, ser_team(v@.team));
        assert(out@ == old(out)@ + a5);
    }
    let ghost a6 = a5 + (lit_key_position());
    emit_key_position(out);
    proof {
        lemma_concat_assoc(old(out)@, a5, lit_key_position());
        assert(out@ == old(out)@ + a6);
    }
    let ghost a7 = a6 + (ser_vec2(v@.position));
    write_vec2(v.position, out);
    proof {
        lemma_concat_assoc(old(out)@, a6, ser_vec2(v@.position));
        assert(out@ == old(out)@ + a7);
    }
    let ghost a8 = a7 + (lit_key_status());
    emit_key_status(out);
    proof {
        lemma_concat_assoc(old(out)@, a7, lit_key_status());
        assert(out@ == old(out)@ + a8);
    }
    let ghost a9 = a8 + (ser_status(v@.status));
    write_status(v.status, out);
    proof {
        lemma_concat_assoc(old(out)@, a8, ser_status(v@.status));
        assert(out@ == old(out)@ + a9);
    }
    let ghost a10 = a9 + (seq![0x7du8]);
    let ghost before_close = out@;
    out.push(0x7d);
    proof {
        assert(out@ =~= before_close + seq![0x7du8]);
        lemma_concat_assoc(old(out)@, a9, seq![0x7du8]);
        assert(out@ == old(out)@ + a10);
    }
    proof {
        assert(a10 == spec_ser_flag(v@));
    }
}

/// Reads one flag record at `pos`.
pub fn parse_flag(s: &Vec<u8>, pos: usize) -> (r: Option<(FlagState, usize)>)
    requires
        pos <= s@.len(),
    ensures
        (match spec_parse_flag(s@, pos as int) {
            Option::None => r is None,
            Option::Some((v, p)) => r is Some && r.unwrap().0@ == v && r.unwrap().1 as int == p,
        }),
{
    let p1 = match eat_obj_id(s, pos) {
        Option::None => {
            return None;
        },
        Option::Some(p) => p,
    };
    proof {
        lemma_parse_u32_bounds(s@, p1 as int);
    }
    let (id, p2) = match parse_u32(s, p1) {
        Option::None => {
            return None;
        },
        Option::Some(x) => x,
    };
    let p3 = match eat_key_name(s, p2) {
        Option::None => {
            return None;
        },
        Option::Some(p) => p,
    };
    proof {
        lemma_parse_name_bounds(s@, p3 as int);
    }
    let (name, p4) = match parse_name(s, p3) {
        Option::None => {
            return None;
        },
        Option::Some(x) => x,
    };
    let p5 = match eat_key_team(s, p4) {
        Option::None => {
            return None;
        },
        Option::Some(p) => p,
    };
    proof {
        lemma_parse_team_bounds(s@, p5 as int);
    }
    let (team, p6) = match parse_team(s, p5) {
        Option::None => {
            return None;
        },
        Option::Some(x) => x,
    };
    let p7 = match eat_key_position(s, p6) {
        Option::None => {
            return None;
        },
        Option::Some(p) => p,
    };
    proof {
        lemma_parse_vec2_bounds(s@, p7 as int);
    }
    let (position, p8) = match parse_vec2(s, p7) {
        Option::None => {
            return None;
        },
        Option::Some(x) => x,
    };
    let p9 = match eat_key_status(s, p8) {
        Option::None => {
            return None;
        },
        Option::Some(p) => p,
    };
    proof {
        lemma_parse_status_bounds(s@, p9 as int);
    }
    let (status, p10) = match parse_status(s, p9) {
        Option::None => {
            return None;
        },
        Option::Some(x) => x,
    };
    if !(p10 < s.len() && s[p10] == 0x7d) {
        return None;
    }
    Some((FlagState { id, name, team, position, status }, p10 + 1))
}

/// A successful flag parse moves forward and stays in bounds.
pub proof fn lemma_parse_flag_advances(s: Seq<u8>, pos: int)
    requires
        0 <= pos <= s.len(),
    ensures
        (match spec_parse_flag(s, pos) {
            Option::None => true,
            Option::Some((v, p)) => pos < p <= s.len(),
        }),
{
    if starts_with(s, pos, lit_obj_id()) {
        let p1 = pos + lit_obj_id().len();
        lemma_parse_u32_bounds(s, p1);
        match spec_parse_u32(s, p1) {
            Option::None => {},
            Option::Some((id, p2)) => {
                if starts_with(s, p2, lit_key_name()) {
                    let p3 = p2 + lit_key_name().len();
                    lemma_parse_name_bounds(s, p3);
                    match spec_parse_name(s, p3) {
                        Option::None => {},
                        Option::Some((name, p4)) => {
                            if starts_with(s, p4, lit_key_team()) {
                                let p5 = p4 + lit_key_team().len();
                                lemma_parse_team_bounds(s, p5);
                                match spec_parse_team(s, p5) {
                                    Option::None => {},
                                    Option::Some((team, p6)) => {
                                        if starts_with(s, p6, lit_key_position()) {
                                            let p7 = p6 + lit_key_position().len();
                                            lemma_parse_vec2_bounds(s, p7);
                                            match spec_parse_vec2(s, p7) {
                                                Option::None => {},
                                                Option::Some((position, p8)) => {
                                                    if starts_with(s, p8, lit_key_status()) {
                                                        let p9 = p8 + lit_key_status().len();
                                                        lemma_parse_status_bounds(s, p9);
                                                        match spec_parse_status(s, p9) {
                                                            Option::None => {},
                                                            Option::Some((status, p10)) => {
                                                            }
                                                        }
                                                    }
                                                }
                                            }
                                        }
                                    }
                                }
                            }
                        }
                    }
                }
            }
        }
    }
}

/// Reading a rendered flag record yields it back.
#[verifier::rlimit(100)]
#[verifier::spinoff_prover]
pub proof fn lemma_parse_flag_ser(s: Seq<u8>, pos: int, v: FlagStateV, rest: Seq<u8>)
    requires
        0 <= pos <= s.len(),
        flag_wf(v),
        s.subrange(pos, s.len() as int) == spec_ser_flag(v) + rest,
    ensures
        spec_parse_flag(s, pos) == Some((v, pos + spec_ser_flag(v).len())),
{
    let c0 = lit_obj_id();
    let c1 = dec_u64(v.id as nat);
    let c2 = lit_key_name();
    let c3 = ser_name(v.name);
    let c4 = lit_key_team();
    let c5 = ser_team(v.team);
    let c6 = lit_key_position();
    let c7 = ser_vec2(v.position);
    let c8 = lit_key_status();
    let c9 = ser_status(v.status);
    let c10 = seq![0x7du8];
    let t11 = rest;
    let t10 = c10 + t11;
    let t9 = c9 + t10;
    let t8 = c8 + t9;
    let t7 = c7 + t8;
    let t6 = c6 + t7;
    let t5 = c5 + t6;
    let t4 = c4 + t5;
    let t3 = c3 + t4;
    let t2 = c2 + t3;
    let t1 = c1 + t2;
    let t0 = c0 + t1;
    let a0 = c0;
    let a1 = a0 + c1;
    let a2 = a1 + c2;
    let a3 = a2 + c3;
    let a4 = a3 + c4;
    let a5 = a4 + c5;
    let a6 = a5 + c6;
    let a7 = a6 + c7;
    let a8 = a7 + c8;
    let a9 = a8 + c9;
    let a10 = a9 + c10;
    lemma_concat_assoc(a9, c10, t11);
    lemma_concat_assoc(a8, c9, t10);
    lemma_concat_assoc(a7, c8, t9);
    lemma_concat_assoc(a6, c7, t8);
    lemma_concat_assoc(a5, c6, t7);
    lemma_concat_assoc(a4, c5, t6);
    lemma_concat_assoc(a3, c4, t5);
    lemma_concat_assoc(a2, c3, t4);
    lemma_concat_assoc(a1, c2, t3);
    lemma_concat_assoc(a0, c1, t2);
    assert(spec_ser_flag(v) == a10);
    assert(a10 + rest == t0);
    assert(s.subrange(pos, s.len() as int) == t0);
    lemma_split_suffix(s, pos, c0, t1);
    let q1 = pos + c0.len();
    assert(starts_with(s, pos, lit_obj_id()));
    assert(s.subrange(q1, s.len() as int) =~= t1);
    lemma_split_suffix(s, q1, c1, t2);
    let q2 = q1 + c1.len();
    assert(t2[0] == c2[0]);
    assert(!is_digit(t2[0]));
    lemma_parse_u64_dec(s, q1, v.id as u64, t2);
    assert(s.subrange(q2, s.len() as int) =~= t2);
    lemma_split_suffix(s, q2, c2, t3);
    let q3 = q2 + c2.len();
    assert(starts_with(s, q2, lit_key_name()));
    assert(s.subrange(q3, s.len() as int) =~= t3);
    lemma_split_suffix(s, q3, c3, t4);
    let q4 = q3 + c3.len();
    lemma_parse_name_ser(s, q3, v.name, t4);
    assert(s.subrange(q4, s.len() as int) =~= t4);
    lemma_split_suffix(s, q4, c4, t5);
    let q5 = q4 + c4.len();
    assert(starts_with(s, q4, lit_key_team()));
    assert(s.subrange(q5, s.len() as int) =~= t5);
    lemma_split_suffix(s, q5, c5, t6);
    let q6 = q5 + c5.len();
    lemma_parse_team_ser(s, q5, v.team, t6);
    assert(s.subrange(q6, s.len() as int) =~= t6);
    lemma_split_suffix(s, q6, c6, t7);
    let q7 = q6 + c6.len();
    assert(starts_with(s, q6, lit_key_position()));
    assert(s.subrange(q7, s.len() as int) =~= t7);
    lemma_split_suffix(s, q7, c7, t8);
    let q8 = q7 + c7.len();
    lemma_parse_vec2_ser(s, q7, v.position, t8);
    assert(s.subrange(q8, s.len() as int) =~= t8);
    lemma_split_suffix(s, q8, c8, t9);
    let q9 = q8 + c8.len();
    assert(starts_with(s, q8, lit_key_status()));
    assert(s.subrange(q9, s.len() as int) =~= t9);
    lemma_split_suffix(s, q9, c9, t10);
    let q10 = q9 + c9.len();
    lemma_parse_status_ser(s, q9, v.status, t10);
    assert(s.subrange(q10, s.len() as int) =~= t10);
    lemma_split_suffix(s, q10, c10, t11);
    let q11 = q10 + c10.len();
    assert(s[q10 + 0] == c10[0]);
    assert(s[q10] == 0x7d);
    assert(spec_parse_flag(s, pos) == Some((v, q11)));
    assert(q11 == pos + spec_ser_flag(v).len());
}

/// The wire bytes of one capture point record.
pub open spec fn spec_ser_capture_point(v: CapturePointStateV) -> Seq<u8> {
    lit_obj_name() + ser_name(v.name) + lit_key_id() + dec_u64(v.id as nat) + lit_key_team() + ser_team(v.team) + lit_key_position() + ser_vec2(v.position) + lit_key_has_flag() + ser_bool(v.has_flag) + seq![0x7du8]
}

/// A parsed capture point record.
pub open spec fn spec_parse_capture_point(s: Seq<u8>, pos: int) -> Option<(CapturePointStateV, int)> {
    if !starts_with(s, pos, lit_obj_name()) {
        None
    } else {
        let p1 = pos + lit_obj_name().len();
        match spec_parse_name(s, p1) {
            Option::None => None,
            Option::Some((name, p2)) => {
            if !starts_with(s, p2, lit_key_id()) {
                None
            } else {
                let p3 = p2 + lit_key_id().len();
                match spec_parse_u32(s, p3) {
                    Option::None => None,
                    Option::Some((id, p4)) => {
                    if !starts_with(s, p4, lit_key_team()) {
                        None
                    } else {
                        let p5 = p4 + lit_key_team().len();
                        match spec_parse_team(s, p5) {
                            Option::None => None,
                            Option::Some((team, p6)) => {
                            if !starts_with(s, p6, lit_key_position()) {
                                None
                            } else {
                                let p7 = p6 + lit_key_position().len();
                                match spec_parse_vec2(s, p7) {
                                    Option::None => None,
                                    Option::Some((position, p8)) => {
                                    if !starts_with(s, p8, lit_key_has_flag()) {
                                        None
                                    } else {
                                        let p9 = p8 + lit_key_has_flag().len();
                                        match spec_parse_bool(s, p9) {
                                            Option::None => None,
                                            Option::Some((has_flag, p10)) => {
                                            if !(p10 < s.len() && s[p10] == 0x7d) {
                                                None
                                            } else {
                                                Some((CapturePointStateV { name, id, team, position, has_flag }, p10 + 1))
                                            }
                                        },
                                        }
                                    }
                                },
                                }
                            }
                        },
                        }
                    }
                },
                }
            }
        },
        }
    }
}

/// Appends one capture point record.
pub fn write_capture_point(v: &CapturePointState, out: &mut Vec<u8>)
    requires
        capture_point_wf(v@),
    ensures
        final(out)@ == old(out)@ + spec_ser_capture_point(v@),
{
    let ghost a0 = lit_obj_name();
    emit_obj_name(out);
    proof {
        assert(out@ == old(out)@ + a0);
    }
    let ghost a1 = a0 + (ser_name(v@.name));
    write_name(&v.name, out);
    proof {
        lemma_concat_assoc(old(out)@, a0, ser_name(v@.name));
        assert(out@ == old(out)@ + a1);
    }
    let ghost a2 = a1 + (lit_key_id());
    emit_key_id(out);
    proof {
        lemma_concat_assoc(old(out)@, a1, lit_key_id());
        assert(out@ == old(out)@ + a2);
    }
    let ghost a3 = a2 + (dec_u64(v@.id as nat));
    write_u64(v.id as u64, out);
    proof {
        lemma_concat_assoc(old(out)@, a2, dec_u64(v@.id as nat));
        assert(out@ == old(out)@ + a3);
    }
    let ghost a4 = a3 + (lit_key_team());
    emit_key_team(out);
    proof {
        lemma_concat_assoc(old(out)@, a3, lit_key_team());
        assert(out@ == old(out)@ + a4);
    }
    let ghost a5 = a4 + (ser_team(v@.team));
    write_team(v.team, out);
    proof {
        lemma_concat_assoc(old(out)@, a4, ser_team(v@.team));
        assert(out@ == old(out)@ + a5);
    }
    let ghost a6 = a5 + (lit_key_position());
    emit_key_position(out);
    proof {
        lemma_concat_assoc(old(out)@, a5, lit_key_position());
        assert(out@ == old(out)@ + a6);
    }
    let ghost a7 = a6 + (ser_vec2(v@.position));
    write_vec2(v.position, out);
    proof {
        lemma_concat_assoc(old(out)@, a6, ser_vec2(v@.position));
        assert(out@ == old(out)@ + a7);
    }
    let ghost a8 = a7 + (lit_key_has_flag());
    emit_key_has_flag(out);
    proof {
        lemma_concat_assoc(old(out)@, a7, lit_key_has_flag());
        assert(out@ == old(out)@ + a8);
    }
    let ghost a9 = a8 + (ser_bool(v@.has_flag));
    write_bool(v.has_flag, out);
    proof {
        lemma_concat_assoc(old(out)@, a8, ser_bool(v@.has_flag));
        assert(out@ == old(out)@ + a9);
    }
    let ghost a10 = a9 + (seq![0x7du8]);
    let ghost before_close = out@;
    out.push(0x7d);
    proof {
        assert(out@ =~= before_close + seq![0x7du8]);
        lemma_concat_assoc(old(out)@, a9, seq![0x7du8]);
        assert(out@ == old(out)@ + a10);
    }
    proof {
        assert(a10 == spec_ser_capture_point(v@));
    }
}

/// Reads one capture point record at `pos`.
pub fn parse_capture_point(s: &Vec<u8>, pos: usize) -> (r: Option<(CapturePointState, usize)>)
    requires
        pos <= s@.len(),
    ensures
        (match spec_parse_capture_point(s@, pos as int) {
            Option::None => r is None,
            Option::Some((v, p)) => r is Some && r.unwrap().0@ == v && r.unwrap().1 as int == p,
        }),
{
    let p1 = match eat_obj_name(s, pos) {
        Option::None => {
            return None;
        },
        Option::Some(p) => p,
    };
    proof {
        lemma_parse_name_bounds(s@, p1 as int);
    }
    let (name, p2) = match parse_name(s, p1) {
        Option::None => {
            return None;
        },
        Option::Some(x) => x,
    };
    let p3 = match eat_key_id(s, p2) {
        Option::None => {
            return None;
        },
        Option::Some(p) => p,
    };
    proof {
        lemma_parse_u32_bounds(s@, p3 as int);
    }
    let (id, p4) = match parse_u32(s, p3) {
        Option::None => {
            return None;
        },
        Option::Some(x) => x,
    };
    let p5 = match eat_key_team(s, p4) {
        Option::None => {
            return None;
        },
        Option::Some(p) => p,
    };
    proof {
        lemma_parse_team_bounds(s@, p5 as int);
    }
    let (team, p6) = match parse_team(s, p5) {
        Option::None => {
            return None;
        },
        Option::Some(x) => x,
    };
    let p7 = match eat_key_position(s, p6) {
        Option::None => {
            return None;
        },
        Option::Some(p) => p,
    };
    proof {
        lemma_parse_vec2_bounds(s@, p7 as int);
    }
    let (position, p8) = match parse_vec2(s, p7) {
        Option::None => {
            return None;
        },
        Option::Some(x) => x,
    };
    let p9 = match eat_key_has_flag(s, p8) {
        Option::None => {
            return None;
        },
        Option::Some(p) => p,
    };
    proof {
        lemma_parse_bool_bounds(s@, p9 as int);
    }
    let (has_flag, p10) = match parse_bool(s, p9) {
        Option::None => {
            return None;
        },
        Option::Some(x) => x,
    };
    if !(p10 < s.len() && s[p10] == 0x7d) {
        return None;
    }
    Some((CapturePointState { name, id, team, position, has_flag }, p10 + 1))
}

/// A successful capture point parse moves forward and stays in bounds.
pub proof fn lemma_parse_capture_point_advances(s: Seq<u8>, pos: int)
    requires
        0 <= pos <= s.len(),
    ensures
        (match spec_parse_capture_point(s, pos) {
            Option::None => true,
            Option::Some((v, p)) => pos < p <= s.len(),
        }),
{
    if starts_with(s, pos, lit_obj_name()) {
        let p1 = pos + lit_obj_name().len();
        lemma_parse_name_bounds(s, p1);
        match spec_parse_name(s, p1) {
            Option::None => {},
            Option::Some((name, p2)) => {
                if starts_with(s, p2, lit_key_id()) {
                    let p3 = p2 + lit_key_id().len();
                    lemma_parse_u32_bounds(s, p3);
                    match spec_parse_u32(s, p3) {
                        Option::None => {},
                        Option::Some((id, p4)) => {
                            if starts_with(s, p4, lit_key_team()) {
                                let p5 = p4 + lit_key_team().len();
                                lemma_parse_team_bounds(s, p5);
                                match spec_parse_team(s, p5) {
                                    Option::None => {},
                                    Option::Some((team, p6)) => {
                                        if starts_with(s, p6, lit_key_position()) {
                                            let p7 = p6 + lit_key_position().len();
                                            lemma_parse_vec2_bounds(s, p7);
                                            match spec_parse_vec2(s, p7) {
                                                Option::None => {},
                                                Option::Some((position, p8)) => {
                                                    if starts_with(s, p8, lit_key_has_flag()) {
                                                        let p9 = p8 + lit_key_has_flag().len();
                                                        lemma_parse_bool_bounds(s, p9);
                                                        match spec_parse_bool(s, p9) {
                                                            Option::None => {},
                                                            Option::Some((has_flag, p10)) => {
                                                            }
                                                        }
                                                    }
                                                }
                                            }
                                        }
                                    }
                                }
                            }
                        }
                    }
                }
            }
        }
    }
}

/// Reading a rendered capture point record yields it back.
#[verifier::rlimit(100)]
#[verifier::spinoff_prover]
pub proof fn lemma_parse_capture_point_ser(s: Seq<u8>, pos: int, v: CapturePointStateV, rest: Seq<u8>)
    requires
        0 <= pos <= s.len(),
        capture_point_wf(v),
        s.subrange(pos, s.len() as int) == spec_ser_capture_point(v) + rest,
    ensures
        spec_parse_capture_point(s, pos) == Some((v, pos + spec_ser_capture_point(v).len())),
{
    let c0 = lit_obj_name();
    let c1 = ser_name(v.name);
    let c2 = lit_key_id();
    let c3 = dec_u64(v.id as nat);
    let c4 = lit_key_team();
    let c5 = ser_team(v.team);
    let c6 = lit_key_position();
    let c7 = ser_vec2(v.position);
    let c8 = lit_key_has_flag();
    let c9 = ser_bool(v.has_flag);
    let c10 = seq![0x7du8];
    let t11 = rest;
    let t10 = c10 + t11;
    let t9 = c9 + t10;
    let t8 = c8 + t9;
    let t7 = c7 + t8;
    let t6 = c6 + t7;
    let t5 = c5 + t6;
    let t4 = c4 + t5;
    let t3 = c3 + t4;
    let t2 = c2 + t3;
    let t1 = c1 + t2;
    let t0 = c0 + t1;
    let a0 = c0;
    let a1 = a0 + c1;
    let a2 = a1 + c2;
    let a3 = a2 + c3;
    let a4 = a3 + c4;
    let a5 = a4 + c5;
    let a6 = a5 + c6;
    let a7 = a6 + c7;
    let a8 = a7 + c8;
    let a9 = a8 + c9;
    let a10 = a9 + c10;
    lemma_concat_assoc(a9, c10, t11);
    lemma_concat_assoc(a8, c9, t10);
    lemma_concat_assoc(a7, c8, t9);
    lemma_concat_assoc(a6, c7, t8);
    lemma_concat_assoc(a5, c6, t7);
    lemma_concat_assoc(a4, c5, t6);
    lemma_concat_assoc(a3, c4, t5);
    lemma_concat_assoc(a2, c3, t4);
    lemma_concat_assoc(a1, c2, t3);
    lemma_concat_assoc(a0, c1, t2);
    assert(spec_ser_capture_point(v) == a10);
    assert(a10 + rest == t0);
    assert(s.subrange(pos, s.len() as int) == t0);
    lemma_split_suffix(s, pos, c0, t1);
    let q1 = pos + c0.len();
    assert(starts_with(s, pos, lit_obj_name()));
    assert(s.subrange(q1, s.len() as int) =~= t1);
    lemma_split_suffix(s, q1, c1, t2);
    let q2 = q1 + c1.len();
    lemma_parse_name_ser(s, q1, v.name, t2);
    assert(s.subrange(q2, s.len() as int) =~= t2);
    lemma_split_suffix(s, q2, c2, t3);
    let q3 = q2 + c2.len();
    assert(starts_with(s, q2, lit_key_id()));
    assert(s.subrange(q3, s.len() as int) =~= t3);
    lemma_split_suffix(s, q3, c3, t4);
    let q4 = q3 + c3.len();
    assert(t4[0] == c4[0]);
    assert(!is_digit(t4[0]));
    lemma_parse_u64_dec(s, q3, v.id as u64, t4);
    assert(s.subrange(q4, s.len() as int) =~= t4);
    lemma_split_suffix(s, q4, c4, t5);
    let q5 = q4 + c4.len();
    assert(starts_with(s, q4, lit_key_team()));
    assert(s.subrange(q5, s.len() as int) =~= t5);
    lemma_split_suffix(s, q5, c5, t6);
    let q6 = q5 + c5.len();
    lemma_parse_team_ser(s, q5, v.team, t6);
    assert(s.subrange(q6, s.len() as int) =~= t6);
    lemma_split_suffix(s, q6, c6, t7);
    let q7 = q6 + c6.len();
    assert(starts_with(s, q6, lit_key_position()));
    assert(s.subrange(q7, s.len() as int) =~= t7);
    lemma_split_suffix(s, q7, c7, t8);
    let q8 = q7 + c7.len();
    lemma_parse_vec2_ser(s, q7, v.position, t8);
    assert(s.subrange(q8, s.len() as int) =~= t8);
    lemma_split_suffix(s, q8, c8, t9);
    let q9 = q8 + c8.len();
    assert(starts_with(s, q8, lit_key_has_flag()));
    assert(s.subrange(q9, s.len() as int) =~= t9);
    lemma_split_suffix(s, q9, c9, t10);
    let q10 = q9 + c9.len();
    lemma_parse_bool_ser(s, q9, v.has_flag, t10);
    assert(s.subrange(q10, s.len() as int) =~= t10);
    lemma_split_suffix(s, q10, c10, t11);
    let q11 = q10 + c10.len();
    assert(s[q10 + 0] == c10[0]);
    assert(s[q10] == 0x7d);
    assert(spec_parse_capture_point(s, pos) == Some((v, q11)));
    assert(q11 == pos + spec_ser_capture_point(v).len());
}

} // verus!
