//! Whole snapshots on the wire: the per-team record lists and the
//! top-level snapshot object, with the round-trip proof and the public
//! line-level entry points.

use vstd::prelude::*;

use crate::codec::lits::{
    eat_key_blue_cps, eat_key_blue_flags, eat_key_blue_score, eat_key_blue_team, eat_key_num_flags,
    eat_key_red_cps, eat_key_red_flags, eat_key_red_team, eat_obj_red_score, emit_key_blue_cps,
    emit_key_blue_flags, emit_key_blue_score, emit_key_blue_team, emit_key_num_flags,
    emit_key_red_cps, emit_key_red_flags, emit_key_red_team, emit_obj_red_score, lit_key_blue_cps,
    lit_key_blue_flags, lit_key_blue_score, lit_key_blue_team, lit_key_num_flags, lit_key_red_cps,
    lit_key_red_flags, lit_key_red_team, lit_obj_red_score,
};
use crate::codec::prims::{
    dec_u64, is_digit, lemma_concat_assoc, lemma_parse_u64_dec, lemma_split_suffix, starts_with,
    write_u64, ws_from, ws_only,
};
use crate::codec::records::{
    lemma_parse_agent_advances, lemma_parse_agent_ser, lemma_parse_capture_point_advances,
    lemma_parse_capture_point_ser, lemma_parse_flag_advances, lemma_parse_flag_ser,
    lemma_parse_u32_bounds, parse_agent, parse_capture_point, parse_flag, parse_u32,
    spec_parse_agent, spec_parse_capture_point, spec_parse_flag, spec_parse_u32, spec_ser_agent,
    spec_ser_capture_point, spec_ser_flag, write_agent, write_capture_point, write_flag,
};
use crate::state::{
    agent_views, agent_wf, agents_wf, capture_point_views, capture_point_wf, capture_points_wf,
    flag_views, flag_wf, flags_wf, game_state_wf, AgentState, AgentStateV, CapturePointState,
    CapturePointStateV, FlagState, FlagStateV, GameState, GameStateV,
};

verus! {

// ------------------------------------------------------------------
// Lists of agent records
// ------------------------------------------------------------------
/// The comma-separated items of a agent list.
pub open spec fn ser_agent_items(l: Seq<AgentStateV>) -> Seq<u8>
    decreases l.len(),
{
    if l.len() == 0 {
        Seq::empty()
    } else if l.len() == 1 {
        spec_ser_agent(l[0])
    } else {
        spec_ser_agent(l[0]) + seq![0x2cu8] + ser_agent_items(l.drop_first())
    }
}

/// A agent list on the wire: `[` items `]`.
pub open spec fn ser_agent_list(l: Seq<AgentStateV>) -> Seq<u8> {
    seq![0x5bu8] + ser_agent_items(l) + seq![0x5du8]
}

/// The parsed items of a non-empty agent list.
pub open spec fn spec_parse_agent_items(s: Seq<u8>, pos: int) -> Option<(Seq<AgentStateV>, int)>
    decreases s.len() - pos,
    via spec_parse_agent_items_dec
{
    match spec_parse_agent(s, pos) {
        Option::None => None,
        Option::Some((a, p)) => {
            if starts_with(s, p, seq![0x2cu8]) {
                match spec_parse_agent_items(s, p + 1) {
                    Option::None => None,
                    Option::Some((tl, p2)) => Some((seq![a] + tl, p2)),
                }
            } else {
                Some((seq![a], p))
            }
        },
    }
}

#[via_fn]
proof fn spec_parse_agent_items_dec(s: Seq<u8>, pos: int) {
    match spec_parse_agent(s, pos) {
        Option::None => {},
        Option::Some((a, p)) => {
            lemma_parse_agent_advances(s, pos);
        },
    }
}

/// Successfully parsed items move forward and stay in bounds.
pub proof fn lemma_parse_agent_items_bounds(s: Seq<u8>, pos: int)
    requires
        0 <= pos <= s.len(),
    ensures
        (match spec_parse_agent_items(s, pos) {
            Option::None => true,
            Option::Some((tl, p)) => pos < p <= s.len(),
        }),
    decreases s.len() - pos,
{
    match spec_parse_agent(s, pos) {
        Option::None => {},
        Option::Some((a, p)) => {
            lemma_parse_agent_advances(s, pos);
            if starts_with(s, p, seq![0x2cu8]) {
                lemma_parse_agent_items_bounds(s, p + 1);
            }
        },
    }
}

/// A parsed agent list.
pub open spec fn spec_parse_agent_list(s: Seq<u8>, pos: int) -> Option<(Seq<AgentStateV>, int)> {
    if !(0 <= pos < s.len() && s[pos] == 0x5b) {
        None
    } else if pos + 1 < s.len() && s[pos + 1] == 0x5d {
        Some((Seq::empty(), pos + 2))
    } else {
        match spec_parse_agent_items(s, pos + 1) {
            Option::None => None,
            Option::Some((items, p)) => {
                if p < s.len() && s[p] == 0x5d {
                    Some((items, p + 1))
                } else {
                    None
                }
            },
        }
    }
}

/// A successful agent list parse moves forward and stays in bounds.
pub proof fn lemma_parse_agent_list_bounds(s: Seq<u8>, pos: int)
    requires
        0 <= pos <= s.len(),
    ensures
        (match spec_parse_agent_list(s, pos) {
            Option::None => true,
            Option::Some((items, p)) => pos < p <= s.len(),
        }),
{
    if 0 <= pos < s.len() && s[pos] == 0x5b {
        lemma_parse_agent_items_bounds(s, pos + 1);
    }
}

/// Appending one record to the items of a list extends its bytes by a
/// comma and that record.
proof fn lemma_ser_agent_items_snoc(l: Seq<AgentStateV>, a: AgentStateV)
    ensures
        l.len() == 0 ==> ser_agent_items(l.push(a)) == spec_ser_agent(a),
        l.len() > 0 ==> ser_agent_items(l.push(a)) == ser_agent_items(l) + seq![0x2cu8]
            + spec_ser_agent(a),
    decreases l.len(),
{
    if l.len() == 0 {
        assert(l.push(a).len() == 1);
        assert(l.push(a)[0] == a);
    } else {
        lemma_ser_agent_items_snoc(l.drop_first(), a);
        assert(l.push(a).drop_first() =~= l.drop_first().push(a));
        assert(l.push(a)[0] == l[0]);
        if l.len() == 1 {
            assert(ser_agent_items(l) == spec_ser_agent(l[0]));
            assert(ser_agent_items(l.push(a)) == spec_ser_agent(l[0]) + seq![0x2cu8] + spec_ser_agent(
                a,
            ));
        } else {
            assert(ser_agent_items(l.push(a)) == spec_ser_agent(l[0]) + seq![0x2cu8]
                + ser_agent_items(l.drop_first().push(a)));
            assert(ser_agent_items(l.drop_first().push(a)) == ser_agent_items(l.drop_first())
                + seq![0x2cu8] + spec_ser_agent(a));
            assert(ser_agent_items(l.push(a)) =~= (spec_ser_agent(l[0]) + seq![0x2cu8]
                + ser_agent_items(l.drop_first())) + seq![0x2cu8] + spec_ser_agent(a));
        }
    }
}

/// Appends a whole agent list.
pub fn write_agent_list(l: &Vec<AgentState>, out: &mut Vec<u8>)
    requires
        agents_wf(agent_views(l@)),
    ensures
        final(out)@ == old(out)@ + ser_agent_list(agent_views(l@)),
{
    out.push(0x5b);
    let mut i: usize = 0;
    while i < l.len()
        invariant
            0 <= i <= l@.len(),
            agents_wf(agent_views(l@)),
            out@ == old(out)@.push(0x5bu8) + ser_agent_items(agent_views(l@).take(i as int)),
        decreases l@.len() - i,
    {
        let ghost pre = agent_views(l@).take(i as int);
        if i > 0 {
            out.push(0x2c);
        }
        proof {
            assert(agent_views(l@)[i as int] == l@[i as int]@);
            assert(agent_wf(l@[i as int]@));
        }
        write_agent(&l[i], out);
        proof {
            lemma_ser_agent_items_snoc(pre, l@[i as int]@);
            assert(agent_views(l@).take(i as int + 1) =~= pre.push(l@[i as int]@));
            if i == 0 {
                assert(out@ =~= old(out)@.push(0x5bu8) + ser_agent_items(
                    agent_views(l@).take(i as int + 1),
                ));
            } else {
                assert(out@ =~= old(out)@.push(0x5bu8) + ser_agent_items(
                    agent_views(l@).take(i as int + 1),
                ));
            }
        }
        i += 1;
    }
    out.push(0x5d);
    proof {
        assert(agent_views(l@).take(l@.len() as int) =~= agent_views(l@));
        assert(out@ =~= old(out)@ + ser_agent_list(agent_views(l@)));
    }
}

/// Reads a whole agent list at `pos`.
#[verifier::rlimit(100)]
pub fn parse_agent_list(s: &Vec<u8>, pos: usize) -> (r: Option<(Vec<AgentState>, usize)>)
    requires
        pos <= s@.len(),
    ensures
        (match spec_parse_agent_list(s@, pos as int) {
            Option::None => r is None,
            Option::Some((items, p)) => r is Some && agent_views(r.unwrap().0@) == items
                && r.unwrap().1 as int == p,
        }),
{
    if !(pos < s.len() && s[pos] == 0x5b) {
        return None;
    }
    if pos + 1 < s.len() && s[pos + 1] == 0x5d {
        let empty_list: Vec<AgentState> = Vec::new();
        proof {
            assert(agent_views(empty_list@) =~= Seq::<AgentStateV>::empty());
        }
        return Some((empty_list, pos + 2));
    }
    let mut out: Vec<AgentState> = Vec::new();
    let mut cur: usize = pos + 1;
    proof {
        assert(agent_views(out@) =~= Seq::<AgentStateV>::empty());
        match spec_parse_agent_items(s@, pos as int + 1) {
            Option::None => {},
            Option::Some((tl, p2)) => {
                assert(agent_views(out@) + tl =~= tl);
            },
        }
    }
    loop
        invariant
            pos as int + 1 <= cur as int <= s@.len(),
            pos < s@.len() && s@[pos as int] == 0x5b,
            !(pos + 1 < s@.len() && s@[pos as int + 1] == 0x5d),
            (match spec_parse_agent_items(s@, cur as int) {
                Option::None => spec_parse_agent_items(s@, pos as int + 1) is None,
                Option::Some((tl, p2)) => spec_parse_agent_items(s@, pos as int + 1) == Some(
                    (agent_views(out@) + tl, p2),
                ),
            }),
        decreases s@.len() - cur,
    {
        proof {
            lemma_parse_agent_advances(s@, cur as int);
        }
        let ghost pre = out@;
        let (item, p) = match parse_agent(s, cur) {
            Option::None => {
                return None;
            },
            Option::Some(x) => x,
        };
        out.push(item);
        proof {
            assert(agent_views(out@) =~= agent_views(pre).push(item@));
        }
        if p < s.len() && s[p] == 0x2c {
            proof {
                assert(s@.subrange(p as int, p as int + 1) =~= seq![0x2cu8]);
                assert(starts_with(s@, p as int, seq![0x2cu8]));
                match spec_parse_agent_items(s@, p as int + 1) {
                    Option::None => {},
                    Option::Some((tl, p2)) => {
                        assert(agent_views(pre) + (seq![item@] + tl) =~= agent_views(out@) + tl);
                    },
                }
            }
            cur = p + 1;
        } else if p < s.len() && s[p] == 0x5d {
            proof {
                if starts_with(s@, p as int, seq![0x2cu8]) {
                    assert(s@.subrange(p as int, p as int + 1)[0] == 0x2cu8);
                }
                assert(agent_views(pre) + seq![item@] =~= agent_views(out@));
            }
            return Some((out, p + 1));
        } else {
            proof {
                if starts_with(s@, p as int, seq![0x2cu8]) {
                    assert(s@.subrange(p as int, p as int + 1)[0] == 0x2cu8);
                    assert(p < s@.len());
                }
                assert(agent_views(pre) + seq![item@] =~= agent_views(out@));
            }
            return None;
        }
    }
}

/// Reading rendered list items followed by `]` yields them back.
#[verifier::rlimit(100)]
#[verifier::spinoff_prover]
pub proof fn lemma_parse_agent_items_ser(s: Seq<u8>, pos: int, items: Seq<AgentStateV>, rest: Seq<u8>)
    requires
        0 <= pos <= s.len(),
        items.len() >= 1,
        agents_wf(items),
        s.subrange(pos, s.len() as int) == ser_agent_items(items) + rest,
        rest.len() >= 1,
        rest[0] == 0x5d,
    ensures
        spec_parse_agent_items(s, pos) == Some((items, pos + ser_agent_items(items).len())),
    decreases items.len(),
{
    assert(agent_wf(items[0]));
    if items.len() == 1 {
        lemma_parse_agent_ser(s, pos, items[0], rest);
        lemma_split_suffix(s, pos, spec_ser_agent(items[0]), rest);
        let p = pos + spec_ser_agent(items[0]).len();
        assert(s[p + 0] == rest[0]);
        if starts_with(s, p, seq![0x2cu8]) {
            assert(s.subrange(p, p + 1)[0] == seq![0x2cu8][0]);
        }
        assert(seq![items[0]] =~= items);
    } else {
        let tail_items = items.drop_first();
        let t2 = ser_agent_items(tail_items) + rest;
        let t1 = seq![0x2cu8] + t2;
        assert(ser_agent_items(items) + rest =~= spec_ser_agent(items[0]) + t1);
        lemma_parse_agent_ser(s, pos, items[0], t1);
        lemma_split_suffix(s, pos, spec_ser_agent(items[0]), t1);
        let p = pos + spec_ser_agent(items[0]).len();
        assert(s.subrange(p, s.len() as int) =~= t1);
        lemma_split_suffix(s, p, seq![0x2cu8], t2);
        assert(s.subrange(p, p + 1) =~= seq![0x2cu8]);
        assert(starts_with(s, p, seq![0x2cu8]));
        assert(s.subrange(p + 1, s.len() as int) =~= t2);
        assert forall|i: int| 0 <= i < tail_items.len() implies agent_wf(#[trigger] tail_items[i]) by {
            assert(tail_items[i] == items[i + 1]);
        }
        lemma_parse_agent_items_ser(s, p + 1, tail_items, rest);
        assert(seq![items[0]] + tail_items =~= items);
    }
}

/// Reading a rendered agent list yields it back.
#[verifier::rlimit(100)]
#[verifier::spinoff_prover]
pub proof fn lemma_parse_agent_list_ser(s: Seq<u8>, pos: int, items: Seq<AgentStateV>, rest: Seq<u8>)
    requires
        0 <= pos <= s.len(),
        agents_wf(items),
        s.subrange(pos, s.len() as int) == ser_agent_list(items) + rest,
    ensures
        spec_parse_agent_list(s, pos) == Some((items, pos + ser_agent_list(items).len())),
{
    if items.len() == 0 {
        assert(ser_agent_list(items) =~= seq![0x5bu8, 0x5du8]);
        assert(s.subrange(pos, s.len() as int) == seq![0x5bu8, 0x5du8] + rest);
        lemma_split_suffix(s, pos, seq![0x5bu8, 0x5du8], rest);
        assert(s[pos + 0] == seq![0x5bu8, 0x5du8][0]);
        assert(s[pos + 1] == seq![0x5bu8, 0x5du8][1]);
        assert(s[pos] == 0x5b && s[pos + 1] == 0x5d);
    } else {
        let t1 = ser_agent_items(items) + (seq![0x5du8] + rest);
        assert(ser_agent_list(items) + rest =~= seq![0x5bu8] + t1);
        lemma_split_suffix(s, pos, seq![0x5bu8], t1);
        assert(s[pos + 0] == seq![0x5bu8][0]);
        assert(s[pos] == 0x5b);
        assert(s.subrange(pos + 1, s.len() as int) =~= t1);
        lemma_parse_agent_items_ser(s, pos + 1, items, seq![0x5du8] + rest);
        let p = pos + 1 + ser_agent_items(items).len();
        lemma_split_suffix(s, pos + 1, ser_agent_items(items), seq![0x5du8] + rest);
        assert(s[p + 0] == (seq![0x5du8] + rest)[0]);
        assert(s[p] == 0x5d);
        if items.len() == 1 {
            assert(ser_agent_items(items)[0] == spec_ser_agent(items[0])[0]);
        } else {
            assert(ser_agent_items(items)[0] == spec_ser_agent(items[0])[0]);
        }
        assert(spec_ser_agent(items[0])[0] == 0x7b);
        assert(s[pos + 1 + 0] == ser_agent_items(items)[0]);
        assert(s[pos + 1] == 0x7b);
    }
}

// ------------------------------------------------------------------
// Lists of flag records
// ------------------------------------------------------------------
/// The comma-separated items of a flag list.
pub open spec fn ser_flag_items(l: Seq<FlagStateV>) -> Seq<u8>
    decreases l.len(),
{
    if l.len() == 0 {
        Seq::empty()
    } else if l.len() == 1 {
        spec_ser_flag(l[0])
    } else {
        spec_ser_flag(l[0]) + seq![0x2cu8] + ser_flag_items(l.drop_first())
    }
}

/// A flag list on the wire: `[` items `]`.
pub open spec fn ser_flag_list(l: Seq<FlagStateV>) -> Seq<u8> {
    seq![0x5bu8] + ser_flag_items(l) + seq![0x5du8]
}

/// The parsed items of a non-empty flag list.
pub open spec fn spec_parse_flag_items(s: Seq<u8>, pos: int) -> Option<(Seq<FlagStateV>, int)>
    decreases s.len() - pos,
    via spec_parse_flag_items_dec
{
    match spec_parse_flag(s, pos) {
        Option::None => None,
        Option::Some((a, p)) => {
            if starts_with(s, p, seq![0x2cu8]) {
                match spec_parse_flag_items(s, p + 1) {
                    Option::None => None,
                    Option::Some((tl, p2)) => Some((seq![a] + tl, p2)),
                }
            } else {
                Some((seq![a], p))
            }
        },
    }
}

#[via_fn]
proof fn spec_parse_flag_items_dec(s: Seq<u8>, pos: int) {
    match spec_parse_flag(s, pos) {
        Option::None => {},
        Option::Some((a, p)) => {
            lemma_parse_flag_advances(s, pos);
        },
    }
}

/// Successfully parsed items move forward and stay in bounds.
pub proof fn lemma_parse_flag_items_bounds(s: Seq<u8>, pos: int)
    requires
        0 <= pos <= s.len(),
    ensures
        (match spec_parse_flag_items(s, pos) {
            Option::None => true,
            Option::Some((tl, p)) => pos < p <= s.len(),
        }),
    decreases s.len() - pos,
{
    match spec_parse_flag(s, pos) {
        Option::None => {},
        Option::Some((a, p)) => {
            lemma_parse_flag_advances(s, pos);
            if starts_with(s, p, seq![0x2cu8]) {
                lemma_parse_flag_items_bounds(s, p + 1);
            }
        },
    }
}

/// A parsed flag list.
pub open spec fn spec_parse_flag_list(s: Seq<u8>, pos: int) -> Option<(Seq<FlagStateV>, int)> {
    if !(0 <= pos < s.len() && s[pos] == 0x5b) {
        None
    } else if pos + 1 < s.len() && s[pos + 1] == 0x5d {
        Some((Seq::empty(), pos + 2))
    } else {
        match spec_parse_flag_items(s, pos + 1) {
            Option::None => None,
            Option::Some((items, p)) => {
                if p < s.len() && s[p] == 0x5d {
                    Some((items, p + 1))
                } else {
                    None
                }
            },
        }
    }
}

/// A successful flag list parse moves forward and stays in bounds.
pub proof fn lemma_parse_flag_list_bounds(s: Seq<u8>, pos: int)
    requires
        0 <= pos <= s.len(),
    ensures
        (match spec_parse_flag_list(s, pos) {
            Option::None => true,
            Option::Some((items, p)) => pos < p <= s.len(),
        }),
{
    if 0 <= pos < s.len() && s[pos] == 0x5b {
        lemma_parse_flag_items_bounds(s, pos + 1);
    }
}

/// Appending one record to the items of a list extends its bytes by a
/// comma and that record.
proof fn lemma_ser_flag_items_snoc(l: Seq<FlagStateV>, a: FlagStateV)
    ensures
        l.len() == 0 ==> ser_flag_items(l.push(a)) == spec_ser_flag(a),
        l.len() > 0 ==> ser_flag_items(l.push(a)) == ser_flag_items(l) + seq![0x2cu8]
            + spec_ser_flag(a),
    decreases l.len(),
{
    if l.len() == 0 {
        assert(l.push(a).len() == 1);
        assert(l.push(a)[0] == a);
    } else {
        lemma_ser_flag_items_snoc(l.drop_first(), a);
        assert(l.push(a).drop_first() =~= l.drop_first().push(a));
        assert(l.push(a)[0] == l[0]);
        if l.len() == 1 {
            assert(ser_flag_items(l) == spec_ser_flag(l[0]));
            assert(ser_flag_items(l.push(a)) == spec_ser_flag(l[0]) + seq![0x2cu8] + spec_ser_flag(
                a,
            ));
        } else {
            assert(ser_flag_items(l.push(a)) == spec_ser_flag(l[0]) + seq![0x2cu8]
                + ser_flag_items(l.drop_first().push(a)));
            assert(ser_flag_items(l.drop_first().push(a)) == ser_flag_items(l.drop_first())
                + seq![0x2cu8] + spec_ser_flag(a));
            assert(ser_flag_items(l.push(a)) =~= (spec_ser_flag(l[0]) + seq![0x2cu8]
                + ser_flag_items(l.drop_first())) + seq![0x2cu8] + spec_ser_flag(a));
        }
    }
}

/// Appends a whole flag list.
pub fn write_flag_list(l: &Vec<FlagState>, out: &mut Vec<u8>)
    requires
        flags_wf(flag_views(l@)),
    ensures
        final(out)@ == old(out)@ + ser_flag_list(flag_views(l@)),
{
    out.push(0x5b);
    let mut i: usize = 0;
    while i < l.len()
        invariant
            0 <= i <= l@.len(),
            flags_wf(flag_views(l@)),
            out@ == old(out)@.push(0x5bu8) + ser_flag_items(flag_views(l@).take(i as int)),
        decreases l@.len() - i,
    {
        let ghost pre = flag_views(l@).take(i as int);
        if i > 0 {
            out.push(0x2c);
        }
        proof {
            assert(flag_views(l@)[i as int] == l@[i as int]@);
            assert(flag_wf(l@[i as int]@));
        }
        write_flag(&l[i], out);
        proof {
            lemma_ser_flag_items_snoc(pre, l@[i as int]@);
            assert(flag_views(l@).take(i as int + 1) =~= pre.push(l@[i as int]@));
            if i == 0 {
                assert(out@ =~= old(out)@.push(0x5bu8) + ser_flag_items(
                    flag_views(l@).take(i as int + 1),
                ));
            } else {
                assert(out@ =~= old(out)@.push(0x5bu8) + ser_flag_items(
                    flag_views(l@).take(i as int + 1),
                ));
            }
        }
        i += 1;
    }
    out.push(0x5d);
    proof {
        assert(flag_views(l@).take(l@.len() as int) =~= flag_views(l@));
        assert(out@ =~= old(out)@ + ser_flag_list(flag_views(l@)));
    }
}

/// Reads a whole flag list at `pos`.
#[verifier::rlimit(100)]
pub fn parse_flag_list(s: &Vec<u8>, pos: usize) -> (r: Option<(Vec<FlagState>, usize)>)
    requires
        pos <= s@.len(),
    ensures
        (match spec_parse_flag_list(s@, pos as int) {
            Option::None => r is None,
            Option::Some((items, p)) => r is Some && flag_views(r.unwrap().0@) == items
                && r.unwrap().1 as int == p,
        }),
{
    if !(pos < s.len() && s[pos] == 0x5b) {
        return None;
    }
    if pos + 1 < s.len() && s[pos + 1] == 0x5d {
        let empty_list: Vec<FlagState> = Vec::new();
        proof {
            assert(flag_views(empty_list@) =~= Seq::<FlagStateV>::empty());
        }
        return Some((empty_list, pos + 2));
    }
    let mut out: Vec<FlagState> = Vec::new();
    let mut cur: usize = pos + 1;
    proof {
        assert(flag_views(out@) =~= Seq::<FlagStateV>::empty());
        match spec_parse_flag_items(s@, pos as int + 1) {
            Option::None => {},
            Option::Some((tl, p2)) => {
                assert(flag_views(out@) + tl =~= tl);
            },
        }
    }
    loop
        invariant
            pos as int + 1 <= cur as int <= s@.len(),
            pos < s@.len() && s@[pos as int] == 0x5b,
            !(pos + 1 < s@.len() && s@[pos as int + 1] == 0x5d),
            (match spec_parse_flag_items(s@, cur as int) {
                Option::None => spec_parse_flag_items(s@, pos as int + 1) is None,
                Option::Some((tl, p2)) => spec_parse_flag_items(s@, pos as int + 1) == Some(
                    (flag_views(out@) + tl, p2),
                ),
            }),
        decreases s@.len() - cur,
    {
        proof {
            lemma_parse_flag_advances(s@, cur as int);
        }
        let ghost pre = out@;
        let (item, p) = match parse_flag(s, cur) {
            Option::None => {
                return None;
            },
            Option::Some(x) => x,
        };
        out.push(item);
        proof {
            assert(flag_views(out@) =~= flag_views(pre).push(item@));
        }
        if p < s.len() && s[p] == 0x2c {
            proof {
                assert(s@.subrange(p as int, p as int + 1) =~= seq![0x2cu8]);
                assert(starts_with(s@, p as int, seq![0x2cu8]));
                match spec_parse_flag_items(s@, p as int + 1) {
                    Option::None => {},
                    Option::Some((tl, p2)) => {
                        assert(flag_views(pre) + (seq![item@] + tl) =~= flag_views(out@) + tl);
                    },
                }
            }
            cur = p + 1;
        } else if p < s.len() && s[p] == 0x5d {
            proof {
                if starts_with(s@, p as int, seq![0x2cu8]) {
                    assert(s@.subrange(p as int, p as int + 1)[0] == 0x2cu8);
                }
                assert(flag_views(pre) + seq![item@] =~= flag_views(out@));
            }
            return Some((out, p + 1));
        } else {
            proof {
                if starts_with(s@, p as int, seq![0x2cu8]) {
                    assert(s@.subrange(p as int, p as int + 1)[0] == 0x2cu8);
                    assert(p < s@.len());
                }
                assert(flag_views(pre) + seq![item@] =~= flag_views(out@));
            }
            return None;
        }
    }
}

/// Reading rendered list items followed by `]` yields them back.
#[verifier::rlimit(100)]
#[verifier::spinoff_prover]
pub proof fn lemma_parse_flag_items_ser(s: Seq<u8>, pos: int, items: Seq<FlagStateV>, rest: Seq<u8>)
    requires
        0 <= pos <= s.len(),
        items.len() >= 1,
        flags_wf(items),
        s.subrange(pos, s.len() as int) == ser_flag_items(items) + rest,
        rest.len() >= 1,
        rest[0] == 0x5d,
    ensures
        spec_parse_flag_items(s, pos) == Some((items, pos + ser_flag_items(items).len())),
    decreases items.len(),
{
    assert(flag_wf(items[0]));
    if items.len() == 1 {
        lemma_parse_flag_ser(s, pos, items[0], rest);
        lemma_split_suffix(s, pos, spec_ser_flag(items[0]), rest);
        let p = pos + spec_ser_flag(items[0]).len();
        assert(s[p + 0] == rest[0]);
        if starts_with(s, p, seq![0x2cu8]) {
            assert(s.subrange(p, p + 1)[0] == seq![0x2cu8][0]);
        }
        assert(seq![items[0]] =~= items);
    } else {
        let tail_items = items.drop_first();
        let t2 = ser_flag_items(tail_items) + rest;
        let t1 = seq![0x2cu8] + t2;
        assert(ser_flag_items(items) + rest =~= spec_ser_flag(items[0]) + t1);
        lemma_parse_flag_ser(s, pos, items[0], t1);
        lemma_split_suffix(s, pos, spec_ser_flag(items[0]), t1);
        let p = pos + spec_ser_flag(items[0]).len();
        assert(s.subrange(p, s.len() as int) =~= t1);
        lemma_split_suffix(s, p, seq![0x2cu8], t2);
        assert(s.subrange(p, p + 1) =~= seq![0x2cu8]);
        assert(starts_with(s, p, seq![0x2cu8]));
        assert(s.subrange(p + 1, s.len() as int) =~= t2);
        assert forall|i: int| 0 <= i < tail_items.len() implies flag_wf(#[trigger] tail_items[i]) by {
            assert(tail_items[i] == items[i + 1]);
        }
        lemma_parse_flag_items_ser(s, p + 1, tail_items, rest);
        assert(seq![items[0]] + tail_items =~= items);
    }
}

/// Reading a rendered flag list yields it back.
#[verifier::rlimit(100)]
#[verifier::spinoff_prover]
pub proof fn lemma_parse_flag_list_ser(s: Seq<u8>, pos: int, items: Seq<FlagStateV>, rest: Seq<u8>)
    requires
        0 <= pos <= s.len(),
        flags_wf(items),
        s.subrange(pos, s.len() as int) == ser_flag_list(items) + rest,
    ensures
        spec_parse_flag_list(s, pos) == Some((items, pos + ser_flag_list(items).len())),
{
    if items.len() == 0 {
        assert(ser_flag_list(items) =~= seq![0x5bu8, 0x5du8]);
        assert(s.subrange(pos, s.len() as int) == seq![0x5bu8, 0x5du8] + rest);
        lemma_split_suffix(s, pos, seq![0x5bu8, 0x5du8], rest);
        assert(s[pos + 0] == seq![0x5bu8, 0x5du8][0]);
        assert(s[pos + 1] == seq![0x5bu8, 0x5du8][1]);
        assert(s[pos] == 0x5b && s[pos + 1] == 0x5d);
    } else {
        let t1 = ser_flag_items(items) + (seq![0x5du8] + rest);
        assert(ser_flag_list(items) + rest =~= seq![0x5bu8] + t1);
        lemma_split_suffix(s, pos, seq![0x5bu8], t1);
        assert(s[pos + 0] == seq![0x5bu8][0]);
        assert(s[pos] == 0x5b);
        assert(s.subrange(pos + 1, s.len() as int) =~= t1);
        lemma_parse_flag_items_ser(s, pos + 1, items, seq![0x5du8] + rest);
        let p = pos + 1 + ser_flag_items(items).len();
        lemma_split_suffix(s, pos + 1, ser_flag_items(items), seq![0x5du8] + rest);
        assert(s[p + 0] == (seq![0x5du8] + rest)[0]);
        assert(s[p] == 0x5d);
        if items.len() == 1 {
            assert(ser_flag_items(items)[0] == spec_ser_flag(items[0])[0]);
        } else {
            assert(ser_flag_items(items)[0] == spec_ser_flag(items[0])[0]);
        }
        assert(spec_ser_flag(items[0])[0] == 0x7b);
        assert(s[pos + 1 + 0] == ser_flag_items(items)[0]);
        assert(s[pos + 1] == 0x7b);
    }
}

// ------------------------------------------------------------------
// Lists of capture point records
// ------------------------------------------------------------------
/// The comma-separated items of a capture point list.
pub open spec fn ser_capture_point_items(l: Seq<CapturePointStateV>) -> Seq<u8>
    decreases l.len(),
{
    if l.len() == 0 {
        Seq::empty()
    } else if l.len() == 1 {
        spec_ser_capture_point(l[0])
    } else {
        spec_ser_capture_point(l[0]) + seq![0x2cu8] + ser_capture_point_items(l.drop_first())
    }
}

/// A capture point list on the wire: `[` items `]`.
pub open spec fn ser_capture_point_list(l: Seq<CapturePointStateV>) -> Seq<u8> {
    seq![0x5bu8] + ser_capture_point_items(l) + seq![0x5du8]
}

/// The parsed items of a non-empty capture point list.
pub open spec fn spec_parse_capture_point_items(s: Seq<u8>, pos: int) -> Option<(Seq<CapturePointStateV>, int)>
    decreases s.len() - pos,
    via spec_parse_capture_point_items_dec
{
    match spec_parse_capture_point(s, pos) {
        Option::None => None,
        Option::Some((a, p)) => {
            if starts_with(s, p, seq![0x2cu8]) {
                match spec_parse_capture_point_items(s, p + 1) {
                    Option::None => None,
                    Option::Some((tl, p2)) => Some((seq![a] + tl, p2)),
                }
            } else {
                Some((seq![a], p))
            }
        },
    }
}

#[via_fn]
proof fn spec_parse_capture_point_items_dec(s: Seq<u8>, pos: int) {
    match spec_parse_capture_point(s, pos) {
        Option::None => {},
        Option::Some((a, p)) => {
            lemma_parse_capture_point_advances(s, pos);
        },
    }
}

/// Successfully parsed items move forward and stay in bounds.
pub proof fn lemma_parse_capture_point_items_bounds(s: Seq<u8>, pos: int)
    requires
        0 <= pos <= s.len(),
    ensures
        (match spec_parse_capture_point_items(s, pos) {
            Option::None => true,
            Option::Some((tl, p)) => pos < p <= s.len(),
        }),
    decreases s.len() - pos,
{
    match spec_parse_capture_point(s, pos) {
        Option::None => {},
        Option::Some((a, p)) => {
            lemma_parse_capture_point_advances(s, pos);
            if starts_with(s, p, seq![0x2cu8]) {
                lemma_parse_capture_point_items_bounds(s, p + 1);
            }
        },
    }
}

/// A parsed capture point list.
pub open spec fn spec_parse_capture_point_list(s: Seq<u8>, pos: int) -> Option<(Seq<CapturePointStateV>, int)> {
    if !(0 <= pos < s.len() && s[pos] == 0x5b) {
        None
    } else if pos + 1 < s.len() && s[pos + 1] == 0x5d {
        Some((Seq::empty(), pos + 2))
    } else {
        match spec_parse_capture_point_items(s, pos + 1) {
            Option::None => None,
            Option::Some((items, p)) => {
                if p < s.len() && s[p] == 0x5d {
                    Some((items, p + 1))
                } else {
                    None
                }
            },
        }
    }
}

/// A successful capture point list parse moves forward and stays in bounds.
pub proof fn lemma_parse_capture_point_list_bounds(s: Seq<u8>, pos: int)
    requires
        0 <= pos <= s.len(),
    ensures
        (match spec_parse_capture_point_list(s, pos) {
            Option::None => true,
            Option::Some((items, p)) => pos < p <= s.len(),
        }),
{
    if 0 <= pos < s.len() && s[pos] == 0x5b {
        lemma_parse_capture_point_items_bounds(s, pos + 1);
    }
}

/// Appending one record to the items of a list extends its bytes by a
/// comma and that record.
proof fn lemma_ser_capture_point_items_snoc(l: Seq<CapturePointStateV>, a: CapturePointStateV)
    ensures
        l.len() == 0 ==> ser_capture_point_items(l.push(a)) == spec_ser_capture_point(a),
        l.len() > 0 ==> ser_capture_point_items(l.push(a)) == ser_capture_point_items(l) + seq![0x2cu8]
            + spec_ser_capture_point(a),
    decreases l.len(),
{
    if l.len() == 0 {
        assert(l.push(a).len() == 1);
        assert(l.push(a)[0] == a);
    } else {
        lemma_ser_capture_point_items_snoc(l.drop_first(), a);
        assert(l.push(a).drop_first() =~= l.drop_first().push(a));
        assert(l.push(a)[0] == l[0]);
        if l.len() == 1 {
            assert(ser_capture_point_items(l) == spec_ser_capture_point(l[0]));
            assert(ser_capture_point_items(l.push(a)) == spec_ser_capture_point(l[0]) + seq![0x2cu8] + spec_ser_capture_point(
                a,
            ));
        } else {
            assert(ser_capture_point_items(l.push(a)) == spec_ser_capture_point(l[0]) + seq![0x2cu8]
                + ser_capture_point_items(l.drop_first().push(a)));
            assert(ser_capture_point_items(l.drop_first().push(a)) == ser_capture_point_items(l.drop_first())
                + seq![0x2cu8] + spec_ser_capture_point(a));
            assert(ser_capture_point_items(l.push(a)) =~= (spec_ser_capture_point(l[0]) + seq![0x2cu8]
                + ser_capture_point_items(l.drop_first())) + seq![0x2cu8] + spec_ser_capture_point(a));
        }
    }
}

/// Appends a whole capture point list.
pub fn write_capture_point_list(l: &Vec<CapturePointState>, out: &mut Vec<u8>)
    requires
        capture_points_wf(capture_point_views(l@)),
    ensures
        final(out)@ == old(out)@ + ser_capture_point_list(capture_point_views(l@)),
{
    out.push(0x5b);
    let mut i: usize = 0;
    while i < l.len()
        invariant
            0 <= i <= l@.len(),
            capture_points_wf(capture_point_views(l@)),
            out@ == old(out)@.push(0x5bu8) + ser_capture_point_items(capture_point_views(l@).take(i as int)),
        decreases l@.len() - i,
    {
        let ghost pre = capture_point_views(l@).take(i as int);
        if i > 0 {
            out.push(0x2c);
        }
        proof {
            assert(capture_point_views(l@)[i as int] == l@[i as int]@);
            assert(capture_point_wf(l@[i as int]@));
        }
        write_capture_point(&l[i], out);
        proof {
            lemma_ser_capture_point_items_snoc(pre, l@[i as int]@);
            assert(capture_point_views(l@).take(i as int + 1) =~= pre.push(l@[i as int]@));
            if i == 0 {
                assert(out@ =~= old(out)@.push(0x5bu8) + ser_capture_point_items(
                    capture_point_views(l@).take(i as int + 1),
                ));
            } else {
                assert(out@ =~= old(out)@.push(0x5bu8) + ser_capture_point_items(
                    capture_point_views(l@).take(i as int + 1),
                ));
            }
        }
        i += 1;
    }
    out.push(0x5d);
    proof {
        assert(capture_point_views(l@).take(l@.len() as int) =~= capture_point_views(l@));
        assert(out@ =~= old(out)@ + ser_capture_point_list(capture_point_views(l@)));
    }
}

/// Reads a whole capture point list at `pos`.
#[verifier::rlimit(100)]
pub fn parse_capture_point_list(s: &Vec<u8>, pos: usize) -> (r: Option<(Vec<CapturePointState>, usize)>)
    requires
        pos <= s@.len(),
    ensures
        (match spec_parse_capture_point_list(s@, pos as int) {
            Option::None => r is None,
            Option::Some((items, p)) => r is Some && capture_point_views(r.unwrap().0@) == items
                && r.unwrap().1 as int == p,
        }),
{
    if !(pos < s.len() && s[pos] == 0x5b) {
        return None;
    }
    if pos + 1 < s.len() && s[pos + 1] == 0x5d {
        let empty_list: Vec<CapturePointState> = Vec::new();
        proof {
            assert(capture_point_views(empty_list@) =~= Seq::<CapturePointStateV>::empty());
        }
        return Some((empty_list, pos + 2));
    }
    let mut out: Vec<CapturePointState> = Vec::new();
    let mut cur: usize = pos + 1;
    proof {
        assert(capture_point_views(out@) =~= Seq::<CapturePointStateV>::empty());
        match spec_parse_capture_point_items(s@, pos as int + 1) {
            Option::None => {},
            Option::Some((tl, p2)) => {
                assert(capture_point_views(out@) + tl =~= tl);
            },
        }
    }
    loop
        invariant
            pos as int + 1 <= cur as int <= s@.len(),
            pos < s@.len() && s@[pos as int] == 0x5b,
            !(pos + 1 < s@.len() && s@[pos as int + 1] == 0x5d),
            (match spec_parse_capture_point_items(s@, cur as int) {
                Option::None => spec_parse_capture_point_items(s@, pos as int + 1) is None,
                Option::Some((tl, p2)) => spec_parse_capture_point_items(s@, pos as int + 1) == Some(
                    (capture_point_views(out@) + tl, p2),
                ),
            }),
        decreases s@.len() - cur,
    {
        proof {
            lemma_parse_capture_point_advances(s@, cur as int);
        }
        let ghost pre = out@;
        let (item, p) = match parse_capture_point(s, cur) {
            Option::None => {
                return None;
            },
            Option::Some(x) => x,
        };
        out.push(item);
        proof {
            assert(capture_point_views(out@) =~= capture_point_views(pre).push(item@));
        }
        if p < s.len() && s[p] == 0x2c {
            proof {
                assert(s@.subrange(p as int, p as int + 1) =~= seq![0x2cu8]);
                assert(starts_with(s@, p as int, seq![0x2cu8]));
                match spec_parse_capture_point_items(s@, p as int + 1) {
                    Option::None => {},
                    Option::Some((tl, p2)) => {
                        assert(capture_point_views(pre) + (seq![item@] + tl) =~= capture_point_views(out@) + tl);
                    },
                }
            }
            cur = p + 1;
        } else if p < s.len() && s[p] == 0x5d {
            proof {
                if starts_with(s@, p as int, seq![0x2cu8]) {
                    assert(s@.subrange(p as int, p as int + 1)[0] == 0x2cu8);
                }
                assert(capture_point_views(pre) + seq![item@] =~= capture_point_views(out@));
            }
            return Some((out, p + 1));
        } else {
            proof {
                if starts_with(s@, p as int, seq![0x2cu8]) {
                    assert(s@.subrange(p as int, p as int + 1)[0] == 0x2cu8);
                    assert(p < s@.len());
                }
                assert(capture_point_views(pre) + seq![item@] =~= capture_point_views(out@));
            }
            return None;
        }
    }
}

/// Reading rendered list items followed by `]` yields them back.
#[verifier::rlimit(100)]
#[verifier::spinoff_prover]
pub proof fn lemma_parse_capture_point_items_ser(s: Seq<u8>, pos: int, items: Seq<CapturePointStateV>, rest: Seq<u8>)
    requires
        0 <= pos <= s.len(),
        items.len() >= 1,
        capture_points_wf(items),
        s.subrange(pos, s.len() as int) == ser_capture_point_items(items) + rest,
        rest.len() >= 1,
        rest[0] == 0x5d,
    ensures
        spec_parse_capture_point_items(s, pos) == Some((items, pos + ser_capture_point_items(items).len())),
    decreases items.len(),
{
    assert(capture_point_wf(items[0]));
    if items.len() == 1 {
        lemma_parse_capture_point_ser(s, pos, items[0], rest);
        lemma_split_suffix(s, pos, spec_ser_capture_point(items[0]), rest);
        let p = pos + spec_ser_capture_point(items[0]).len();
        assert(s[p + 0] == rest[0]);
        if starts_with(s, p, seq![0x2cu8]) {
            assert(s.subrange(p, p + 1)[0] == seq![0x2cu8][0]);
        }
        assert(seq![items[0]] =~= items);
    } else {
        let tail_items = items.drop_first();
        let t2 = ser_capture_point_items(tail_items) + rest;
        let t1 = seq![0x2cu8] + t2;
        assert(ser_capture_point_items(items) + rest =~= spec_ser_capture_point(items[0]) + t1);
        lemma_parse_capture_point_ser(s, pos, items[0], t1);
        lemma_split_suffix(s, pos, spec_ser_capture_point(items[0]), t1);
        let p = pos + spec_ser_capture_point(items[0]).len();
        assert(s.subrange(p, s.len() as int) =~= t1);
        lemma_split_suffix(s, p, seq![0x2cu8], t2);
        assert(s.subrange(p, p + 1) =~= seq![0x2cu8]);
        assert(starts_with(s, p, seq![0x2cu8]));
        assert(s.subrange(p + 1, s.len() as int) =~= t2);
        assert forall|i: int| 0 <= i < tail_items.len() implies capture_point_wf(#[trigger] tail_items[i]) by {
            assert(tail_items[i] == items[i + 1]);
        }
        lemma_parse_capture_point_items_ser(s, p + 1, tail_items, rest);
        assert(seq![items[0]] + tail_items =~= items);
    }
}

/// Reading a rendered capture point list yields it back.
#[verifier::rlimit(100)]
#[verifier::spinoff_prover]
pub proof fn lemma_parse_capture_point_list_ser(s: Seq<u8>, pos: int, items: Seq<CapturePointStateV>, rest: Seq<u8>)
    requires
        0 <= pos <= s.len(),
        capture_points_wf(items),
        s.subrange(pos, s.len() as int) == ser_capture_point_list(items) + rest,
    ensures
        spec_parse_capture_point_list(s, pos) == Some((items, pos + ser_capture_point_list(items).len())),
{
    if items.len() == 0 {
        assert(ser_capture_point_list(items) =~= seq![0x5bu8, 0x5du8]);
        assert(s.subrange(pos, s.len() as int) == seq![0x5bu8, 0x5du8] + rest);
        lemma_split_suffix(s, pos, seq![0x5bu8, 0x5du8], rest);
        assert(s[pos + 0] == seq![0x5bu8, 0x5du8][0]);
        assert(s[pos + 1] == seq![0x5bu8, 0x5du8][1]);
        assert(s[pos] == 0x5b && s[pos + 1] == 0x5d);
    } else {
        let t1 = ser_capture_point_items(items) + (seq![0x5du8] + rest);
        assert(ser_capture_point_list(items) + rest =~= seq![0x5bu8] + t1);
        lemma_split_suffix(s, pos, seq![0x5bu8], t1);
        assert(s[pos + 0] == seq![0x5bu8][0]);
        assert(s[pos] == 0x5b);
        assert(s.subrange(pos + 1, s.len() as int) =~= t1);
        lemma_parse_capture_point_items_ser(s, pos + 1, items, seq![0x5du8] + rest);
        let p = pos + 1 + ser_capture_point_items(items).len();
        lemma_split_suffix(s, pos + 1, ser_capture_point_items(items), seq![0x5du8] + rest);
        assert(s[p + 0] == (seq![0x5du8] + rest)[0]);
        assert(s[p] == 0x5d);
        if items.len() == 1 {
            assert(ser_capture_point_items(items)[0] == spec_ser_capture_point(items[0])[0]);
        } else {
            assert(ser_capture_point_items(items)[0] == spec_ser_capture_point(items[0])[0]);
        }
        assert(spec_ser_capture_point(items[0])[0] == 0x7b);
        assert(s[pos + 1 + 0] == ser_capture_point_items(items)[0]);
        assert(s[pos + 1] == 0x7b);
    }
}
/// The wire bytes of the first half of a snapshot.
pub open spec fn ser_gs_a(v: GameStateV) -> Seq<u8> {
    lit_obj_red_score() + dec_u64(v.red_score as nat) + lit_key_blue_score() + dec_u64(v.blue_score as nat) + lit_key_red_team() + ser_agent_list(v.red_team) + lit_key_blue_team() + ser_agent_list(v.blue_team)
}

/// The parsed first half of a snapshot.
pub open spec fn spec_parse_gs_a(s: Seq<u8>, pos: int) -> Option<((u32, u32, Seq<AgentStateV>, Seq<AgentStateV>), int)> {
    if !starts_with(s, pos, lit_obj_red_score()) {
        None
    } else {
        let p1 = pos + lit_obj_red_score().len();
        match spec_parse_u32(s, p1) {
            Option::None => None,
            Option::Some((red_score, p2)) => {
            if !starts_with(s, p2, lit_key_blue_score()) {
                None
            } else {
                let p3 = p2 + lit_key_blue_score().len();
                match spec_parse_u32(s, p3) {
                    Option::None => None,
                    Option::Some((blue_score, p4)) => {
                    if !starts_with(s, p4, lit_key_red_team()) {
                        None
                    } else {
                        let p5 = p4 + lit_key_red_team().len();
                        match spec_parse_agent_list(s, p5) {
                            Option::None => None,
                            Option::Some((red_team, p6)) => {
                            if !starts_with(s, p6, lit_key_blue_team()) {
                                None
                            } else {
                                let p7 = p6 + lit_key_blue_team().len();
                                match spec_parse_agent_list(s, p7) {
                                    Option::None => None,
                                    Option::Some((blue_team, p8)) => {
                                    Some(((red_score, blue_score, red_team, blue_team), p8))
                                },
                                }
                            }
                        },
                        }
                    }
                },
                }
            }
        },
        }
    }
}

/// A successful half parse moves forward and stays in bounds.
pub proof fn lemma_parse_gs_a_bounds(s: Seq<u8>, pos: int)
    requires
        0 <= pos <= s.len(),
    ensures
        (match spec_parse_gs_a(s, pos) {
            Option::None => true,
            Option::Some((v, p)) => pos < p <= s.len(),
        }),
{
    if starts_with(s, pos, lit_obj_red_score()) {
        let p1 = pos + lit_obj_red_score().len();
        lemma_parse_u32_bounds(s, p1);
        match spec_parse_u32(s, p1) {
            Option::None => {},
            Option::Some((red_score, p2)) => {
                if starts_with(s, p2, lit_key_blue_score()) {
                    let p3 = p2 + lit_key_blue_score().len();
                    lemma_parse_u32_bounds(s, p3);
                    match spec_parse_u32(s, p3) {
                        Option::None => {},
                        Option::Some((blue_score, p4)) => {
                            if starts_with(s, p4, lit_key_red_team()) {
                                let p5 = p4 + lit_key_red_team().len();
                                lemma_parse_agent_list_bounds(s, p5);
                                match spec_parse_agent_list(s, p5) {
                                    Option::None => {},
                                    Option::Some((red_team, p6)) => {
                                        if starts_with(s, p6, lit_key_blue_team()) {
                                            let p7 = p6 + lit_key_blue_team().len();
                                            lemma_parse_agent_list_bounds(s, p7);
                                            match spec_parse_agent_list(s, p7) {
                                                Option::None => {},
                                                Option::Some((blue_team, p8)) => {
                                                }
                                            }
                                        }
                                    }
                                }
                            }
                        }
                    }
                }
            }
        }
    }
}

/// Reading a rendered snapshot half yields its fields back.
#[verifier::rlimit(100)]
#[verifier::spinoff_prover]
pub proof fn lemma_parse_gs_a_ser(s: Seq<u8>, pos: int, v: GameStateV, rest: Seq<u8>)
    requires
        0 <= pos <= s.len(),
        game_state_wf(v),
        s.subrange(pos, s.len() as int) == ser_gs_a(v) + rest,
    ensures
        spec_parse_gs_a(s, pos) == Some(((v.red_score, v.blue_score, v.red_team, v.blue_team), pos + ser_gs_a(v).len())),
{
    let c0 = lit_obj_red_score();
    let c1 = dec_u64(v.red_score as nat);
    let c2 = lit_key_blue_score();
    let c3 = dec_u64(v.blue_score as nat);
    let c4 = lit_key_red_team();
    let c5 = ser_agent_list(v.red_team);
    let c6 = lit_key_blue_team();
    let c7 = ser_agent_list(v.blue_team);
    let t8 = rest;
    let t7 = c7 + t8;
    let t6 = c6 + t7;
    let t5 = c5 + t6;
    let t4 = c4 + t5;
    let t3 = c3 + t4;
    let t2 = c2 + t3;
    let t1 = c1 + t2;
    let t0 = c0 + t1;
    let a0 = c0;
    let a1 = a0 + c1;
    let a2 = a1 + c2;
    let a3 = a2 + c3;
    let a4 = a3 + c4;
    let a5 = a4 + c5;
    let a6 = a5 + c6;
    let a7 = a6 + c7;
    lemma_concat_assoc(a6, c7, t8);
    lemma_concat_assoc(a5, c6, t7);
    lemma_concat_assoc(a4, c5, t6);
    lemma_concat_assoc(a3, c4, t5);
    lemma_concat_assoc(a2, c3, t4);
    lemma_concat_assoc(a1, c2, t3);
    lemma_concat_assoc(a0, c1, t2);
    assert(ser_gs_a(v) == a7);
    assert(a7 + rest == t0);
    assert(s.subrange(pos, s.len() as int) == t0);
    lemma_split_suffix(s, pos, c0, t1);
    let q1 = pos + c0.len();
    assert(starts_with(s, pos, lit_obj_red_score()));
    assert(s.subrange(q1, s.len() as int) =~= t1);
    lemma_split_suffix(s, q1, c1, t2);
    let q2 = q1 + c1.len();
    assert(t2[0] == c2[0]);
    assert(!is_digit(t2[0]));
    lemma_parse_u64_dec(s, q1, v.red_score as u64, t2);
    assert(s.subrange(q2, s.len() as int) =~= t2);
    lemma_split_suffix(s, q2, c2, t3);
    let q3 = q2 + c2.len();
    assert(starts_with(s, q2, lit_key_blue_score()));
    assert(s.subrange(q3, s.len() as int) =~= t3);
    lemma_split_suffix(s, q3, c3, t4);
    let q4 = q3 + c3.len();
    assert(t4[0] == c4[0]);
    assert(!is_digit(t4[0]));
    lemma_parse_u64_dec(s, q3, v.blue_score as u64, t4);
    assert(s.subrange(q4, s.len() as int) =~= t4);
    lemma_split_suffix(s, q4, c4, t5);
    let q5 = q4 + c4.len();
    assert(starts_with(s, q4, lit_key_red_team()));
    assert(s.subrange(q5, s.len() as int) =~= t5);
    lemma_split_suffix(s, q5, c5, t6);
    let q6 = q5 + c5.len();
    lemma_parse_agent_list_ser(s, q5, v.red_team, t6);
    assert(s.subrange(q6, s.len() as int) =~= t6);
    lemma_split_suffix(s, q6, c6, t7);
    let q7 = q6 + c6.len();
    assert(starts_with(s, q6, lit_key_blue_team()));
    assert(s.subrange(q7, s.len() as int) =~= t7);
    lemma_split_suffix(s, q7, c7, t8);
    let q8 = q7 + c7.len();
    lemma_parse_agent_list_ser(s, q7, v.blue_team, t8);
    assert(spec_parse_gs_a(s, pos) == Some(((v.red_score, v.blue_score, v.red_team, v.blue_team), q8)));
    assert(q8 == pos + ser_gs_a(v).len());
}

/// The wire bytes of the second half of a snapshot.
pub open spec fn ser_gs_b(v: GameStateV) -> Seq<u8> {
    lit_key_red_flags() + ser_flag_list(v.red_flags) + lit_key_blue_flags() + ser_flag_list(v.blue_flags) + lit_key_num_flags() + dec_u64(v.num_flags_per_team as nat) + lit_key_red_cps() + ser_capture_point_list(v.red_capture_points) + lit_key_blue_cps() + ser_capture_point_list(v.blue_capture_points) + seq![0x7du8]
}

/// The parsed second half of a snapshot.
pub open spec fn spec_parse_gs_b(s: Seq<u8>, pos: int) -> Option<((Seq<FlagStateV>, Seq<FlagStateV>, u32, Seq<CapturePointStateV>, Seq<CapturePointStateV>), int)> {
    if !starts_with(s, pos, lit_key_red_flags()) {
        None
    } else {
        let p1 = pos + lit_key_red_flags().len();
        match spec_parse_flag_list(s, p1) {
            Option::None => None,
            Option::Some((red_flags, p2)) => {
            if !starts_with(s, p2, lit_key_blue_flags()) {
                None
            } else {
                let p3 = p2 + lit_key_blue_flags().len();
                match spec_parse_flag_list(s, p3) {
                    Option::None => None,
                    Option::Some((blue_flags, p4)) => {
                    if !starts_with(s, p4, lit_key_num_flags()) {
                        None
                    } else {
                        let p5 = p4 + lit_key_num_flags().len();
                        match spec_parse_u32(s, p5) {
                            Option::None => None,
                            Option::Some((num_flags_per_team, p6)) => {
                            if !starts_with(s, p6, lit_key_red_cps()) {
                                None
                            } else {
                                let p7 = p6 + lit_key_red_cps().len();
                                match spec_parse_capture_point_list(s, p7) {
                                    Option::None => None,
                                    Option::Some((red_capture_points, p8)) => {
                                    if !starts_with(s, p8, lit_key_blue_cps()) {
                                        None
                                    } else {
                                        let p9 = p8 + lit_key_blue_cps().len();
                                        match spec_parse_capture_point_list(s, p9) {
                                            Option::None => None,
                                            Option::Some((blue_capture_points, p10)) => {
                                            if !(p10 < s.len() && s[p10] == 0x7d) {
                                                None
                                            } else {
                                                Some(((red_flags, blue_flags, num_flags_per_team, red_capture_points, blue_capture_points), p10 + 1))
                                            }
                                        },
                                        }
                                    }
                                },
                                }
                            }
                        },
                        }
                    }
                },
                }
            }
        },
        }
    }
}

/// A successful half parse moves forward and stays in bounds.
pub proof fn lemma_parse_gs_b_bounds(s: Seq<u8>, pos: int)
    requires
        0 <= pos <= s.len(),
    ensures
        (match spec_parse_gs_b(s, pos) {
            Option::None => true,
            Option::Some((v, p)) => pos < p <= s.len(),
        }),
{
    if starts_with(s, pos, lit_key_red_flags()) {
        let p1 = pos + lit_key_red_flags().len();
        lemma_parse_flag_list_bounds(s, p1);
        match spec_parse_flag_list(s, p1) {
            Option::None => {},
            Option::Some((red_flags, p2)) => {
                if starts_with(s, p2, lit_key_blue_flags()) {
                    let p3 = p2 + lit_key_blue_flags().len();
                    lemma_parse_flag_list_bounds(s, p3);
                    match spec_parse_flag_list(s, p3) {
                        Option::None => {},
                        Option::Some((blue_flags, p4)) => {
                            if starts_with(s, p4, lit_key_num_flags()) {
                                let p5 = p4 + lit_key_num_flags().len();
                                lemma_parse_u32_bounds(s, p5);
                                match spec_parse_u32(s, p5) {
                                    Option::None => {},
                                    Option::Some((num_flags_per_team, p6)) => {
                                        if starts_with(s, p6, lit_key_red_cps()) {
                                            let p7 = p6 + lit_key_red_cps().len();
                                            lemma_parse_capture_point_list_bounds(s, p7);
                                            match spec_parse_capture_point_list(s, p7) {
                                                Option::None => {},
                                                Option::Some((red_capture_points, p8)) => {
                                                    if starts_with(s, p8, lit_key_blue_cps()) {
                                                        let p9 = p8 + lit_key_blue_cps().len();
                                                        lemma_parse_capture_point_list_bounds(s, p9);
                                                        match spec_parse_capture_point_list(s, p9) {
                                                            Option::None => {},
                                                            Option::Some((blue_capture_points, p10)) => {
                                                            }
                                                        }
                                                    }
                                                }
                                            }
                                        }
                                    }
                                }
                            }
                        }
                    }
                }
            }
        }
    }
}

/// Reading a rendered snapshot half yields its fields back.
#[verifier::rlimit(100)]
#[verifier::spinoff_prover]
pub proof fn lemma_parse_gs_b_ser(s: Seq<u8>, pos: int, v: GameStateV, rest: Seq<u8>)
    requires
        0 <= pos <= s.len(),
        game_state_wf(v),
        s.subrange(pos, s.len() as int) == ser_gs_b(v) + rest,
    ensures
        spec_parse_gs_b(s, pos) == Some(((v.red_flags, v.blue_flags, v.num_flags_per_team, v.red_capture_points, v.blue_capture_points), pos + ser_gs_b(v).len())),
{
    let c0 = lit_key_red_flags();
    let c1 = ser_flag_list(v.red_flags);
    let c2 = lit_key_blue_flags();
    let c3 = ser_flag_list(v.blue_flags);
    let c4 = lit_key_num_flags();
    let c5 = dec_u64(v.num_flags_per_team as nat);
    let c6 = lit_key_red_cps();
    let c7 = ser_capture_point_list(v.red_capture_points);
    let c8 = lit_key_blue_cps();
    let c9 = ser_capture_point_list(v.blue_capture_points);
    let c10 = seq![0x7du8];
    let t11 = rest;
    let t10 = c10 + t11;
    let t9 = c9 + t10;
    let t8 = c8 + t9;
    let t7 = c7 + t8;
    let t6 = c6 + t7;
    let t5 = c5 + t6;
    let t4 = c4 + t5;
    let t3 = c3 + t4;
    let t2 = c2 + t3;
    let t1 = c1 + t2;
    let t0 = c0 + t1;
    let a0 = c0;
    let a1 = a0 + c1;
    let a2 = a1 + c2;
    let a3 = a2 + c3;
    let a4 = a3 + c4;
    let a5 = a4 + c5;
    let a6 = a5 + c6;
    let a7 = a6 + c7;
    let a8 = a7 + c8;
    let a9 = a8 + c9;
    let a10 = a9 + c10;
    lemma_concat_assoc(a9, c10, t11);
    lemma_concat_assoc(a8, c9, t10);
    lemma_concat_assoc(a7, c8, t9);
    lemma_concat_assoc(a6, c7, t8);
    lemma_concat_assoc(a5, c6, t7);
    lemma_concat_assoc(a4, c5, t6);
    lemma_concat_assoc(a3, c4, t5);
    lemma_concat_assoc(a2, c3, t4);
    lemma_concat_assoc(a1, c2, t3);
    lemma_concat_assoc(a0, c1, t2);
    assert(ser_gs_b(v) == a10);
    assert(a10 + rest == t0);
    assert(s.subrange(pos, s.len() as int) == t0);
    lemma_split_suffix(s, pos, c0, t1);
    let q1 = pos + c0.len();
    assert(starts_with(s, pos, lit_key_red_flags()));
    assert(s.subrange(q1, s.len() as int) =~= t1);
    lemma_split_suffix(s, q1, c1, t2);
    let q2 = q1 + c1.len();
    lemma_parse_flag_list_ser(s, q1, v.red_flags, t2);
    assert(s.subrange(q2, s.len() as int) =~= t2);
    lemma_split_suffix(s, q2, c2, t3);
    let q3 = q2 + c2.len();
    assert(starts_with(s, q2, lit_key_blue_flags()));
    assert(s.subrange(q3, s.len() as int) =~= t3);
    lemma_split_suffix(s, q3, c3, t4);
    let q4 = q3 + c3.len();
    lemma_parse_flag_list_ser(s, q3, v.blue_flags, t4);
    assert(s.subrange(q4, s.len() as int) =~= t4);
    lemma_split_suffix(s, q4, c4, t5);
    let q5 = q4 + c4.len();
    assert(starts_with(s, q4, lit_key_num_flags()));
    assert(s.subrange(q5, s.len() as int) =~= t5);
    lemma_split_suffix(s, q5, c5, t6);
    let q6 = q5 + c5.len();
    assert(t6[0] == c6[0]);
    assert(!is_digit(t6[0]));
    lemma_parse_u64_dec(s, q5, v.num_flags_per_team as u64, t6);
    assert(s.subrange(q6, s.len() as int) =~= t6);
    lemma_split_suffix(s, q6, c6, t7);
    let q7 = q6 + c6.len();
    assert(starts_with(s, q6, lit_key_red_cps()));
    assert(s.subrange(q7, s.len() as int) =~= t7);
    lemma_split_suffix(s, q7, c7, t8);
    let q8 = q7 + c7.len();
    lemma_parse_capture_point_list_ser(s, q7, v.red_capture_points, t8);
    assert(s.subrange(q8, s.len() as int) =~= t8);
    lemma_split_suffix(s, q8, c8, t9);
    let q9 = q8 + c8.len();
    assert(starts_with(s, q8, lit_key_blue_cps()));
    assert(s.subrange(q9, s.len() as int) =~= t9);
    lemma_split_suffix(s, q9, c9, t10);
    let q10 = q9 + c9.len();
    lemma_parse_capture_point_list_ser(s, q9, v.blue_capture_points, t10);
    assert(s.subrange(q10, s.len() as int) =~= t10);
    lemma_split_suffix(s, q10, c10, t11);
    let q11 = q10 + c10.len();
    assert(s[q10 + 0] == c10[0]);
    assert(s[q10] == 0x7d);
    assert(spec_parse_gs_b(s, pos) == Some(((v.red_flags, v.blue_flags, v.num_flags_per_team, v.red_capture_points, v.blue_capture_points), q11)));
    assert(q11 == pos + ser_gs_b(v).len());
}

/// The wire bytes of a whole snapshot.
pub open spec fn spec_ser_game_state(v: GameStateV) -> Seq<u8> {
    ser_gs_a(v) + ser_gs_b(v)
}

/// A parsed snapshot.
pub open spec fn spec_parse_game_state(s: Seq<u8>, pos: int) -> Option<(GameStateV, int)> {
    match spec_parse_gs_a(s, pos) {
        Option::None => None,
        Option::Some((a, p)) => match spec_parse_gs_b(s, p) {
            Option::None => None,
            Option::Some((b, p2)) => Some(
                (
                    GameStateV {
                        red_score: a.0,
                        blue_score: a.1,
                        red_team: a.2,
                        blue_team: a.3,
                        red_flags: b.0,
                        blue_flags: b.1,
                        num_flags_per_team: b.2,
                        red_capture_points: b.3,
                        blue_capture_points: b.4,
                    },
                    p2,
                ),
            ),
        },
    }
}

/// Appends the first half of a snapshot.
fn write_gs_a(v: &GameState, out: &mut Vec<u8>)
    requires
        game_state_wf(v@),
    ensures
        final(out)@ == old(out)@ + ser_gs_a(v@),
{
    let ghost a0 = lit_obj_red_score();
    emit_obj_red_score(out);
    proof {
        assert(out@ == old(out)@ + a0);
    }
    let ghost a1 = a0 + (dec_u64(v@.red_score as nat));
    write_u64(v.red_score as u64, out);
    proof {
        lemma_concat_assoc(old(out)@, a0, dec_u64(v@.red_score as nat));
        assert(out@ == old(out)@ + a1);
    }
    let ghost a2 = a1 + (lit_key_blue_score());
    emit_key_blue_score(out);
    proof {
        lemma_concat_assoc(old(out)@, a1, lit_key_blue_score());
        assert(out@ == old(out)@ + a2);
    }
    let ghost a3 = a2 + (dec_u64(v@.blue_score as nat));
    write_u64(v.blue_score as u64, out);
    proof {
        lemma_concat_assoc(old(out)@, a2, dec_u64(v@.blue_score as nat));
        assert(out@ == old(out)@ + a3);
    }
    let ghost a4 = a3 + (lit_key_red_team());
    emit_key_red_team(out);
    proof {
        lemma_concat_assoc(old(out)@, a3, lit_key_red_team());
        assert(out@ == old(out)@ + a4);
    }
    let ghost a5 = a4 + (ser_agent_list(v@.red_team));
    write_agent_list(&v.red_team, out);
    proof {
        lemma_concat_assoc(old(out)@, a4, ser_agent_list(v@.red_team));
        assert(out@ == old(out)@ + a5);
    }
    let ghost a6 = a5 + (lit_key_blue_team());
    emit_key_blue_team(out);
    proof {
        lemma_concat_assoc(old(out)@, a5, lit_key_blue_team());
        assert(out@ == old(out)@ + a6);
    }
    let ghost a7 = a6 + (ser_agent_list(v@.blue_team));
    write_agent_list(&v.blue_team, out);
    proof {
        lemma_concat_assoc(old(out)@, a6, ser_agent_list(v@.blue_team));
        assert(out@ == old(out)@ + a7);
    }
    proof {
        assert(a7 == ser_gs_a(v@));
    }
}

/// Appends the second half of a snapshot.
fn write_gs_b(v: &GameState, out: &mut Vec<u8>)
    requires
        game_state_wf(v@),
    ensures
        final(out)@ == old(out)@ + ser_gs_b(v@),
{
    let ghost a0 = lit_key_red_flags();
    emit_key_red_flags(out);
    proof {
        assert(out@ == old(out)@ + a0);
    }
    let ghost a1 = a0 + (ser_flag_list(v@.red_flags));
    write_flag_list(&v.red_flags, out);
    proof {
        lemma_concat_assoc(old(out)@, a0, ser_flag_list(v@.red_flags));
        assert(out@ == old(out)@ + a1);
    }
    let ghost a2 = a1 + (lit_key_blue_flags());
    emit_key_blue_flags(out);
    proof {
        lemma_concat_assoc(old(out)@, a1, lit_key_blue_flags());
        assert(out@ == old(out)@ + a2);
    }
    let ghost a3 = a2 + (ser_flag_list(v@.blue_flags));
    write_flag_list(&v.blue_flags, out);
    proof {
        lemma_concat_assoc(old(out)@, a2, ser_flag_list(v@.blue_flags));
        assert(out@ == old(out)@ + a3);
    }
    let ghost a4 = a3 + (lit_key_num_flags());
    emit_key_num_flags(out);
    proof {
        lemma_concat_assoc(old(out)@, a3, lit_key_num_flags());
        assert(out@ == old(out)@ + a4);
    }
    let ghost a5 = a4 + (dec_u64(v@.num_flags_per_team as nat));
    write_u64(v.num_flags_per_team as u64, out);
    proof {
        lemma_concat_assoc(old(out)@, a4, dec_u64(v@.num_flags_per_team as nat));
        assert(out@ == old(out)@ + a5);
    }
    let ghost a6 = a5 + (lit_key_red_cps());
    emit_key_red_cps(out);
    proof {
        lemma_concat_assoc(old(out)@, a5, lit_key_red_cps());
        assert(out@ == old(out)@ + a6);
    }
    let ghost a7 = a6 + (ser_capture_point_list(v@.red_capture_points));
    write_capture_point_list(&v.red_capture_points, out);
    proof {
        lemma_concat_assoc(old(out)@, a6, ser_capture_point_list(v@.red_capture_points));
        assert(out@ == old(out)@ + a7);
    }
    let ghost a8 = a7 + (lit_key_blue_cps());
    emit_key_blue_cps(out);
    proof {
        lemma_concat_assoc(old(out)@, a7, lit_key_blue_cps());
        assert(out@ == old(out)@ + a8);
    }
    let ghost a9 = a8 + (ser_capture_point_list(v@.blue_capture_points));
    write_capture_point_list(&v.blue_capture_points, out);
    proof {
        lemma_concat_assoc(old(out)@, a8, ser_capture_point_list(v@.blue_capture_points));
        assert(out@ == old(out)@ + a9);
    }
    let ghost a10 = a9 + (seq![0x7du8]);
    let ghost before_close = out@;
    out.push(0x7d);
    proof {
        assert(out@ =~= before_close + seq![0x7du8]);
        lemma_concat_assoc(old(out)@, a9, seq![0x7du8]);
        assert(out@ == old(out)@ + a10);
    }
    proof {
        assert(a10 == ser_gs_b(v@));
    }
}

/// Appends a whole snapshot.
pub fn write_game_state(v: &GameState, out: &mut Vec<u8>)
    requires
        game_state_wf(v@),
    ensures
        final(out)@ == old(out)@ + spec_ser_game_state(v@),
{
    write_gs_a(v, out);
    write_gs_b(v, out);
    proof {
        lemma_concat_assoc(old(out)@, ser_gs_a(v@), ser_gs_b(v@));
    }
}

/// Reads a whole snapshot at `pos`.
#[verifier::rlimit(100)]
pub fn parse_game_state_at(s: &Vec<u8>, pos: usize) -> (r: Option<(GameState, usize)>)
    requires
        pos <= s@.len(),
    ensures
        (match spec_parse_game_state(s@, pos as int) {
            Option::None => r is None,
            Option::Some((v, p)) => r is Some && r.unwrap().0@ == v && r.unwrap().1 as int == p,
        }),
{
    let p1 = match eat_obj_red_score(s, pos) {
        Option::None => {
            return None;
        },
        Option::Some(p) => p,
    };
    proof {
        lemma_parse_u32_bounds(s@, p1 as int);
    }
    let (red_score, p2) = match parse_u32(s, p1) {
        Option::None => {
            return None;
        },
        Option::Some(x) => x,
    };
    let p3 = match eat_key_blue_score(s, p2) {
        Option::None => {
            return None;
        },
        Option::Some(p) => p,
    };
    proof {
        lemma_parse_u32_bounds(s@, p3 as int);
    }
    let (blue_score, p4) = match parse_u32(s, p3) {
        Option::None => {
            return None;
        },
        Option::Some(x) => x,
    };
    let p5 = match eat_key_red_team(s, p4) {
        Option::None => {
            return None;
        },
        Option::Some(p) => p,
    };
    proof {
        lemma_parse_agent_list_bounds(s@, p5 as int);
    }
    let (red_team, p6) = match parse_agent_list(s, p5) {
        Option::None => {
            return None;
        },
        Option::Some(x) => x,
    };
    let p7 = match eat_key_blue_team(s, p6) {
        Option::None => {
            return None;
        },
        Option::Some(p) => p,
    };
    proof {
        lemma_parse_agent_list_bounds(s@, p7 as int);
    }
    let (blue_team, p8) = match parse_agent_list(s, p7) {
        Option::None => {
            return None;
        },
        Option::Some(x) => x,
    };
    let p9 = match eat_key_red_flags(s, p8) {
        Option::None => {
            return None;
        },
        Option::Some(p) => p,
    };
    proof {
        lemma_parse_flag_list_bounds(s@, p9 as int);
    }
    let (red_flags, p10) = match parse_flag_list(s, p9) {
        Option::None => {
            return None;
        },
        Option::Some(x) => x,
    };
    let p11 = match eat_key_blue_flags(s, p10) {
        Option::None => {
            return None;
        },
        Option::Some(p) => p,
    };
    proof {
        lemma_parse_flag_list_bounds(s@, p11 as int);
    }
    let (blue_flags, p12) = match parse_flag_list(s, p11) {
        Option::None => {
            return None;
        },
        Option::Some(x) => x,
    };
    let p13 = match eat_key_num_flags(s, p12) {
        Option::None => {
            return None;
        },
        Option::Some(p) => p,
    };
    proof {
        lemma_parse_u32_bounds(s@, p13 as int);
    }
    let (num_flags_per_team, p14) = match parse_u32(s, p13) {
        Option::None => {
            return None;
        },
        Option::Some(x) => x,
    };
    let p15 = match eat_key_red_cps(s, p14) {
        Option::None => {
            return None;
        },
        Option::Some(p) => p,
    };
    proof {
        lemma_parse_capture_point_list_bounds(s@, p15 as int);
    }
    let (red_capture_points, p16) = match parse_capture_point_list(s, p15) {
        Option::None => {
            return None;
        },
        Option::Some(x) => x,
    };
    let p17 = match eat_key_blue_cps(s, p16) {
        Option::None => {
            return None;
        },
        Option::Some(p) => p,
    };
    proof {
        lemma_parse_capture_point_list_bounds(s@, p17 as int);
    }
    let (blue_capture_points, p18) = match parse_capture_point_list(s, p17) {
        Option::None => {
            return None;
        },
        Option::Some(x) => x,
    };
    if !(p18 < s.len() && s[p18] == 0x7d) {
        return None;
    }
    Some((GameState { red_score, blue_score, red_team, blue_team, red_flags, blue_flags, num_flags_per_team, red_capture_points, blue_capture_points }, p18 + 1))
}

/// Reading a rendered snapshot yields it back, field for field.
#[verifier::rlimit(100)]
#[verifier::spinoff_prover]
pub proof fn lemma_parse_game_state_ser(s: Seq<u8>, pos: int, v: GameStateV, rest: Seq<u8>)
    requires
        0 <= pos <= s.len(),
        game_state_wf(v),
        s.subrange(pos, s.len() as int) == spec_ser_game_state(v) + rest,
    ensures
        spec_parse_game_state(s, pos) == Some((v, pos + spec_ser_game_state(v).len())),
{
    let tb = ser_gs_b(v) + rest;
    lemma_concat_assoc(ser_gs_a(v), ser_gs_b(v), rest);
    assert(spec_ser_game_state(v) + rest == ser_gs_a(v) + tb);
    lemma_parse_gs_a_ser(s, pos, v, tb);
    lemma_split_suffix(s, pos, ser_gs_a(v), tb);
    let p = pos + ser_gs_a(v).len();
    lemma_parse_gs_b_ser(s, p, v, rest);
    assert(spec_parse_gs_a(s, pos) == Some(((v.red_score, v.blue_score, v.red_team, v.blue_team), p)));
    assert(spec_parse_gs_b(s, p) == Some(
        ((v.red_flags, v.blue_flags, v.num_flags_per_team, v.red_capture_points, v.blue_capture_points), p + ser_gs_b(v).len()),
    ));
    let w = GameStateV {
        red_score: v.red_score,
        blue_score: v.blue_score,
        red_team: v.red_team,
        blue_team: v.blue_team,
        red_flags: v.red_flags,
        blue_flags: v.blue_flags,
        num_flags_per_team: v.num_flags_per_team,
        red_capture_points: v.red_capture_points,
        blue_capture_points: v.blue_capture_points,
    };
    assert(w == v);
    assert(spec_parse_game_state(s, pos) == Some((v, p + ser_gs_b(v).len())));
    assert(p + ser_gs_b(v).len() == pos + spec_ser_game_state(v).len());
}
// ------------------------------------------------------------------
// Whole-snapshot entry points
// ------------------------------------------------------------------
/// The serialized bytes of a snapshot: one JSON object, canonical form.
pub fn serialize_game_state(g: &GameState) -> (r: Vec<u8>)
    requires
        game_state_wf(g@),
    ensures
        r@ == spec_ser_game_state(g@),
{
    let mut out: Vec<u8> = Vec::new();
    write_game_state(g, &mut out);
    proof {
        assert(out@ =~= spec_ser_game_state(g@));
    }
    out
}

/// Parses a whole snapshot line: the object, then nothing but whitespace.
pub fn parse_game_state(s: &Vec<u8>) -> (r: Option<GameState>)
    ensures
        (match spec_parse_game_state(s@, 0) {
            Option::None => r is None,
            Option::Some((v, p)) => {
                if ws_only(s@, p) {
                    r is Some && r.unwrap()@ == v
                } else {
                    r is None
                }
            },
        }),
{
    match parse_game_state_at(s, 0) {
        Option::None => None,
        Option::Some((g, p)) => {
            if ws_from(s, p) {
                Some(g)
            } else {
                None
            }
        },
    }
}

/// Round trip: parsing a serialized snapshot yields it back, field for
/// field, including the order of the per-team lists.
pub proof fn lemma_snapshot_round_trip(g: GameStateV)
    requires
        game_state_wf(g),
    ensures
        spec_parse_game_state(spec_ser_game_state(g), 0) == Some(
            (g, spec_ser_game_state(g).len() as int),
        ),
{
    let s = spec_ser_game_state(g);
    assert(s.subrange(0, s.len() as int) =~= s + Seq::<u8>::empty());
    lemma_parse_game_state_ser(s, 0, g, Seq::empty());
}


impl GameState {
    /// Parses a snapshot from one JSON line, as external tooling hands
    /// it over; trailing whitespace is tolerated, anything else fails.
    pub fn from_json(s: &Vec<u8>) -> (r: Option<GameState>)
        ensures
            (match spec_parse_game_state(s@, 0) {
                Option::None => r is None,
                Option::Some((v, p)) => {
                    if ws_only(s@, p) {
                        r is Some && r.unwrap()@ == v
                    } else {
                        r is None
                    }
                },
            }),
    {
        parse_game_state(s)
    }
}


} // verus!
