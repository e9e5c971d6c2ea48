//! The fixed byte sequences of the wire format: object keys, enum values,
//! and the action envelope. Each has its spec-level bytes, an emitter and
//! a consumer.

use vstd::prelude::*;

use crate::codec::prims::starts_with;

verus! {

/// The bytes of `{"name":`.
pub open spec fn lit_obj_name() -> Seq<u8> {
    seq![0x7bu8, 0x22u8, 0x6eu8, 0x61u8, 0x6du8, 0x65u8, 0x22u8, 0x3au8]
}

/// Appends `{"name":`.
pub fn emit_obj_name(out: &mut Vec<u8>)
    ensures
        final(out)@ == old(out)@ + lit_obj_name(),
{
    out.push(0x7b);
    out.push(0x22);
    out.push(0x6e);
    out.push(0x61);
    out.push(0x6d);
    out.push(0x65);
    out.push(0x22);
    out.push(0x3a);
    proof {
        assert(out@ =~= old(out)@ + lit_obj_name());
    }
}

/// Consumes `{"name":` at `pos`, if it stands there.
pub fn eat_obj_name(s: &Vec<u8>, pos: usize) -> (r: Option<usize>)
    requires
        pos <= s@.len(),
    ensures
        r is Some <==> starts_with(s@, pos as int, lit_obj_name()),
        r is Some ==> r.unwrap() as int == pos + lit_obj_name().len(),
{
    if s.len() - pos >= 8 && s[pos + 0] == 0x7b && s[pos + 1] == 0x22 && s[pos + 2] == 0x6e && s[pos + 3] == 0x61 && s[pos + 4] == 0x6d && s[pos + 5] == 0x65 && s[pos + 6] == 0x22 && s[pos + 7] == 0x3a {
        proof {
            assert(s@.subrange(pos as int, pos as int + 8) =~= lit_obj_name());
        }
        Some(pos + 8)
    } else {
        proof {
            if starts_with(s@, pos as int, lit_obj_name()) {
                assert forall|i: int| 0 <= i < 8 implies s@[pos + i] == #[trigger] lit_obj_name()[i] by {
                    assert(s@.subrange(pos as int, pos as int + 8)[i] == lit_obj_name()[i]);
                }
                assert(s@[pos + 0] == 0x7b);
                assert(s@[pos + 1] == 0x22);
                assert(s@[pos + 2] == 0x6e);
                assert(s@[pos + 3] == 0x61);
                assert(s@[pos + 4] == 0x6d);
                assert(s@[pos + 5] == 0x65);
                assert(s@[pos + 6] == 0x22);
                assert(s@[pos + 7] == 0x3a);
            }
        }
        None
    }
}

/// The bytes of `{"id":`.
pub open spec fn lit_obj_id() -> Seq<u8> {
    seq![0x7bu8, 0x22u8, 0x69u8, 0x64u8, 0x22u8, 0x3au8]
}

/// Appends `{"id":`.
pub fn emit_obj_id(out: &mut Vec<u8>)
    ensures
        final(out)@ == old(out)@ + lit_obj_id(),
{
    out.push(0x7b);
    out.push(0x22);
    out.push(0x69);
    out.push(0x64);
    out.push(0x22);
    out.push(0x3a);
    proof {
        assert(out@ =~= old(out)@ + lit_obj_id());
    }
}

/// Consumes `{"id":` at `pos`, if it stands there.
pub fn eat_obj_id(s: &Vec<u8>, pos: usize) -> (r: Option<usize>)
    requires
        pos <= s@.len(),
    ensures
        r is Some <==> starts_with(s@, pos as int, lit_obj_id()),
        r is Some ==> r.unwrap() as int == pos + lit_obj_id().len(),
{
    if s.len() - pos >= 6 && s[pos + 0] == 0x7b && s[pos + 1] == 0x22 && s[pos + 2] == 0x69 && s[pos + 3] == 0x64 && s[pos + 4] == 0x22 && s[pos + 5] == 0x3a {
        proof {
            assert(s@.subrange(pos as int, pos as int + 6) =~= lit_obj_id());
        }
        Some(pos + 6)
    } else {
        proof {
            if starts_with(s@, pos as int, lit_obj_id()) {
                assert forall|i: int| 0 <= i < 6 implies s@[pos + i] == #[trigger] lit_obj_id()[i] by {
                    assert(s@.subrange(pos as int, pos as int + 6)[i] == lit_obj_id()[i]);
                }
                assert(s@[pos + 0] == 0x7b);
                assert(s@[pos + 1] == 0x22);
                assert(s@[pos + 2] == 0x69);
                assert(s@[pos + 3] == 0x64);
                assert(s@[pos + 4] == 0x22);
                assert(s@[pos + 5] == 0x3a);
            }
        }
        None
    }
}

/// The bytes of `{"red_score":`.
pub open spec fn lit_obj_red_score() -> Seq<u8> {
    seq![0x7bu8, 0x22u8, 0x72u8, 0x65u8, 0x64u8, 0x5fu8, 0x73u8, 0x63u8, 0x6fu8, 0x72u8, 0x65u8, 0x22u8, 0x3au8]
}

/// Appends `{"red_score":`.
pub fn emit_obj_red_score(out: &mut Vec<u8>)
    ensures
        final(out)@ == old(out)@ + lit_obj_red_score(),
{
    out.push(0x7b);
    out.push(0x22);
    out.push(0x72);
    out.push(0x65);
    out.push(0x64);
    out.push(0x5f);
    out.push(0x73);
    out.push(0x63);
    out.push(0x6f);
    out.push(0x72);
    out.push(0x65);
    out.push(0x22);
    out.push(0x3a);
    proof {
        assert(out@ =~= old(out)@ + lit_obj_red_score());
    }
}

/// Consumes `{"red_score":` at `pos`, if it stands there.
pub fn eat_obj_red_score(s: &Vec<u8>, pos: usize) -> (r: Option<usize>)
    requires
        pos <= s@.len(),
    ensures
        r is Some <==> starts_with(s@, pos as int, lit_obj_red_score()),
        r is Some ==> r.unwrap() as int == pos + lit_obj_red_score().len(),
{
    if s.len() - pos >= 13 && s[pos + 0] == 0x7b && s[pos + 1] == 0x22 && s[pos + 2] == 0x72 && s[pos + 3] == 0x65 && s[pos + 4] == 0x64 && s[pos + 5] == 0x5f && s[pos + 6] == 0x73 && s[pos + 7] == 0x63 && s[pos + 8] == 0x6f && s[pos + 9] == 0x72 && s[pos + 10] == 0x65 && s[pos + 11] == 0x22 && s[pos + 12] == 0x3a {
        proof {
            assert(s@.subrange(pos as int, pos as int + 13) =~= lit_obj_red_score());
        }
        Some(pos + 13)
    } else {
        proof {
            if starts_with(s@, pos as int, lit_obj_red_score()) {
                assert forall|i: int| 0 <= i < 13 implies s@[pos + i] == #[trigger] lit_obj_red_score()[i] by {
                    assert(s@.subrange(pos as int, pos as int + 13)[i] == lit_obj_red_score()[i]);
                }
                assert(s@[pos + 0] == 0x7b);
                assert(s@[pos + 1] == 0x22);
                assert(s@[pos + 2] == 0x72);
                assert(s@[pos + 3] == 0x65);
                assert(s@[pos + 4] == 0x64);
                assert(s@[pos + 5] == 0x5f);
                assert(s@[pos + 6] == 0x73);
                assert(s@[pos + 7] == 0x63);
                assert(s@[pos + 8] == 0x6f);
                assert(s@[pos + 9] == 0x72);
                assert(s@[pos + 10] == 0x65);
                assert(s@[pos + 11] == 0x22);
                assert(s@[pos + 12] == 0x3a);
            }
        }
        None
    }
}

/// The bytes of `{"Move":{"id":`.
pub open spec fn lit_obj_move() -> Seq<u8> {
    seq![0x7bu8, 0x22u8, 0x4du8, 0x6fu8, 0x76u8, 0x65u8, 0x22u8, 0x3au8, 0x7bu8, 0x22u8, 0x69u8, 0x64u8, 0x22u8, 0x3au8]
}

/// Appends `{"Move":{"id":`.
pub fn emit_obj_move(out: &mut Vec<u8>)
    ensures
        final(out)@ == old(out)@ + lit_obj_move(),
{
    out.push(0x7b);
    out.push(0x22);
    out.push(0x4d);
    out.push(0x6f);
    out.push(0x76);
    out.push(0x65);
    out.push(0x22);
    out.push(0x3a);
    out.push(0x7b);
    out.push(0x22);
    out.push(0x69);
    out.push(0x64);
    out.push(0x22);
    out.push(0x3a);
    proof {
        assert(out@ =~= old(out)@ + lit_obj_move());
    }
}

/// Consumes `{"Move":{"id":` at `pos`, if it stands there.
pub fn eat_obj_move(s: &Vec<u8>, pos: usize) -> (r: Option<usize>)
    requires
        pos <= s@.len(),
    ensures
        r is Some <==> starts_with(s@, pos as int, lit_obj_move()),
        r is Some ==> r.unwrap() as int == pos + lit_obj_move().len(),
{
    if s.len() - pos >= 14 && s[pos + 0] == 0x7b && s[pos + 1] == 0x22 && s[pos + 2] == 0x4d && s[pos + 3] == 0x6f && s[pos + 4] == 0x76 && s[pos + 5] == 0x65 && s[pos + 6] == 0x22 && s[pos + 7] == 0x3a && s[pos + 8] == 0x7b && s[pos + 9] == 0x22 && s[pos + 10] == 0x69 && s[pos + 11] == 0x64 && s[pos + 12] == 0x22 && s[pos + 13] == 0x3a {
        proof {
            assert(s@.subrange(pos as int, pos as int + 14) =~= lit_obj_move());
        }
        Some(pos + 14)
    } else {
        proof {
            if starts_with(s@, pos as int, lit_obj_move()) {
                assert forall|i: int| 0 <= i < 14 implies s@[pos + i] == #[trigger] lit_obj_move()[i] by {
                    assert(s@.subrange(pos as int, pos as int + 14)[i] == lit_obj_move()[i]);
                }
                assert(s@[pos + 0] == 0x7b);
                assert(s@[pos + 1] == 0x22);
                assert(s@[pos + 2] == 0x4d);
                assert(s@[pos + 3] == 0x6f);
                assert(s@[pos + 4] == 0x76);
                assert(s@[pos + 5] == 0x65);
                assert(s@[pos + 6] == 0x22);
                assert(s@[pos + 7] == 0x3a);
                assert(s@[pos + 8] == 0x7b);
                assert(s@[pos + 9] == 0x22);
                assert(s@[pos + 10] == 0x69);
                assert(s@[pos + 11] == 0x64);
                assert(s@[pos + 12] == 0x22);
                assert(s@[pos + 13] == 0x3a);
            }
        }
        None
    }
}

/// The bytes of `,"id":`.
pub open spec fn lit_key_id() -> Seq<u8> {
    seq![0x2cu8, 0x22u8, 0x69u8, 0x64u8, 0x22u8, 0x3au8]
}

/// Appends `,"id":`.
pub fn emit_key_id(out: &mut Vec<u8>)
    ensures
        final(out)@ == old(out)@ + lit_key_id(),
{
    out.push(0x2c);
    out.push(0x22);
    out.push(0x69);
    out.push(0x64);
    out.push(0x22);
    out.push(0x3a);
    proof {
        assert(out@ =~= old(out)@ + lit_key_id());
    }
}

/// Consumes `,"id":` at `pos`, if it stands there.
pub fn eat_key_id(s: &Vec<u8>, pos: usize) -> (r: Option<usize>)
    requires
        pos <= s@.len(),
    ensures
        r is Some <==> starts_with(s@, pos as int, lit_key_id()),
        r is Some ==> r.unwrap() as int == pos + lit_key_id().len(),
{
    if s.len() - pos >= 6 && s[pos + 0] == 0x2c && s[pos + 1] == 0x22 && s[pos + 2] == 0x69 && s[pos + 3] == 0x64 && s[pos + 4] == 0x22 && s[pos + 5] == 0x3a {
        proof {
            assert(s@.subrange(pos as int, pos as int + 6) =~= lit_key_id());
        }
        Some(pos + 6)
    } else {
        proof {
            if starts_with(s@, pos as int, lit_key_id()) {
                assert forall|i: int| 0 <= i < 6 implies s@[pos + i] == #[trigger] lit_key_id()[i] by {
                    assert(s@.subrange(pos as int, pos as int + 6)[i] == lit_key_id()[i]);
                }
                assert(s@[pos + 0] == 0x2c);
                assert(s@[pos + 1] == 0x22);
                assert(s@[pos + 2] == 0x69);
                assert(s@[pos + 3] == 0x64);
                assert(s@[pos + 4] == 0x22);
                assert(s@[pos + 5] == 0x3a);
            }
        }
        None
    }
}

/// The bytes of `,"name":`.
pub open spec fn lit_key_name() -> Seq<u8> {
    seq![0x2cu8, 0x22u8, 0x6eu8, 0x61u8, 0x6du8, 0x65u8, 0x22u8, 0x3au8]
}

/// Appends `,"name":`.
pub fn emit_key_name(out: &mut Vec<u8>)
    ensures
        final(out)@ == old(out)@ + lit_key_name(),
{
    out.push(0x2c);
    out.push(0x22);
    out.push(0x6e);
    out.push(0x61);
    out.push(0x6d);
    out.push(0x65);
    out.push(0x22);
    out.push(0x3a);
    proof {
        assert(out@ =~= old(out)@ + lit_key_name());
    }
}

/// Consumes `,"name":` at `pos`, if it stands there.
pub fn eat_key_name(s: &Vec<u8>, pos: usize) -> (r: Option<usize>)
    requires
        pos <= s@.len(),
    ensures
        r is Some <==> starts_with(s@, pos as int, lit_key_name()),
        r is Some ==> r.unwrap() as int == pos + lit_key_name().len(),
{
    if s.len() - pos >= 8 && s[pos + 0] == 0x2c && s[pos + 1] == 0x22 && s[pos + 2] == 0x6e && s[pos + 3] == 0x61 && s[pos + 4] == 0x6d && s[pos + 5] == 0x65 && s[pos + 6] == 0x22 && s[pos + 7] == 0x3a {
        proof {
            assert(s@.subrange(pos as int, pos as int + 8) =~= lit_key_name());
        }
        Some(pos + 8)
    } else {
        proof {
            if starts_with(s@, pos as int, lit_key_name()) {
                assert forall|i: int| 0 <= i < 8 implies s@[pos + i] == #[trigger] lit_key_name()[i] by {
                    assert(s@.subrange(pos as int, pos as int + 8)[i] == lit_key_name()[i]);
                }
                assert(s@[pos + 0] == 0x2c);
                assert(s@[pos + 1] == 0x22);
                assert(s@[pos + 2] == 0x6e);
                assert(s@[pos + 3] == 0x61);
                assert(s@[pos + 4] == 0x6d);
                assert(s@[pos + 5] == 0x65);
                assert(s@[pos + 6] == 0x22);
                assert(s@[pos + 7] == 0x3a);
            }
        }
        None
    }
}

/// The bytes of `,"team":`.
pub open spec fn lit_key_team() -> Seq<u8> {
    seq![0x2cu8, 0x22u8, 0x74u8, 0x65u8, 0x61u8, 0x6du8, 0x22u8, 0x3au8]
}

/// Appends `,"team":`.
pub fn emit_key_team(out: &mut Vec<u8>)
    ensures
        final(out)@ == old(out)@ + lit_key_team(),
{
    out.push(0x2c);
    out.push(0x22);
    out.push(0x74);
    out.push(0x65);
    out.push(0x61);
    out.push(0x6d);
    out.push(0x22);
    out.push(0x3a);
    proof {
        assert(out@ =~= old(out)@ + lit_key_team());
    }
}

/// Consumes `,"team":` at `pos`, if it stands there.
pub fn eat_key_team(s: &Vec<u8>, pos: usize) -> (r: Option<usize>)
    requires
        pos <= s@.len(),
    ensures
        r is Some <==> starts_with(s@, pos as int, lit_key_team()),
        r is Some ==> r.unwrap() as int == pos + lit_key_team().len(),
{
    if s.len() - pos >= 8 && s[pos + 0] == 0x2c && s[pos + 1] == 0x22 && s[pos + 2] == 0x74 && s[pos + 3] == 0x65 && s[pos + 4] == 0x61 && s[pos + 5] == 0x6d && s[pos + 6] == 0x22 && s[pos + 7] == 0x3a {
        proof {
            assert(s@.subrange(pos as int, pos as int + 8) =~= lit_key_team());
        }
        Some(pos + 8)
    } else {
        proof {
            if starts_with(s@, pos as int, lit_key_team()) {
                assert forall|i: int| 0 <= i < 8 implies s@[pos + i] == #[trigger] lit_key_team()[i] by {
                    assert(s@.subrange(pos as int, pos as int + 8)[i] == lit_key_team()[i]);
                }
                assert(s@[pos + 0] == 0x2c);
                assert(s@[pos + 1] == 0x22);
                assert(s@[pos + 2] == 0x74);
                assert(s@[pos + 3] == 0x65);
                assert(s@[pos + 4] == 0x61);
                assert(s@[pos + 5] == 0x6d);
                assert(s@[pos + 6] == 0x22);
                assert(s@[pos + 7] == 0x3a);
            }
        }
        None
    }
}

/// The bytes of `,"position":`.
pub open spec fn lit_key_position() -> Seq<u8> {
    seq![0x2cu8, 0x22u8, 0x70u8, 0x6fu8, 0x73u8, 0x69u8, 0x74u8, 0x69u8, 0x6fu8, 0x6eu8, 0x22u8, 0x3au8]
}

/// Appends `,"position":`.
pub fn emit_key_position(out: &mut Vec<u8>)
    ensures
        final(out)@ == old(out)@ + lit_key_position(),
{
    out.push(0x2c);
    out.push(0x22);
    out.push(0x70);
    out.push(0x6f);
    out.push(0x73);
    out.push(0x69);
    out.push(0x74);
    out.push(0x69);
    out.push(0x6f);
    out.push(0x6e);
    out.push(0x22);
    out.push(0x3a);
    proof {
        assert(out@ =~= old(out)@ + lit_key_position());
    }
}

/// Consumes `,"position":` at `pos`, if it stands there.
pub fn eat_key_position(s: &Vec<u8>, pos: usize) -> (r: Option<usize>)
    requires
        pos <= s@.len(),
    ensures
        r is Some <==> starts_with(s@, pos as int, lit_key_position()),
        r is Some ==> r.unwrap() as int == pos + lit_key_position().len(),
{
    if s.len() - pos >= 12 && s[pos + 0] == 0x2c && s[pos + 1] == 0x22 && s[pos + 2] == 0x70 && s[pos + 3] == 0x6f && s[pos + 4] == 0x73 && s[pos + 5] == 0x69 && s[pos + 6] == 0x74 && s[pos + 7] == 0x69 && s[pos + 8] == 0x6f && s[pos + 9] == 0x6e && s[pos + 10] == 0x22 && s[pos + 11] == 0x3a {
        proof {
            assert(s@.subrange(pos as int, pos as int + 12) =~= lit_key_position());
        }
        Some(pos + 12)
    } else {
        proof {
            if starts_with(s@, pos as int, lit_key_position()) {
                assert forall|i: int| 0 <= i < 12 implies s@[pos + i] == #[trigger] lit_key_position()[i] by {
                    assert(s@.subrange(pos as int, pos as int + 12)[i] == lit_key_position()[i]);
                }
                assert(s@[pos + 0] == 0x2c);
                assert(s@[pos + 1] == 0x22);
                assert(s@[pos + 2] == 0x70);
                assert(s@[pos + 3] == 0x6f);
                assert(s@[pos + 4] == 0x73);
                assert(s@[pos + 5] == 0x69);
                assert(s@[pos + 6] == 0x74);
                assert(s@[pos + 7] == 0x69);
                assert(s@[pos + 8] == 0x6f);
                assert(s@[pos + 9] == 0x6e);
                assert(s@[pos + 10] == 0x22);
                assert(s@[pos + 11] == 0x3a);
            }
        }
        None
    }
}

/// The bytes of `,"max_speed":`.
pub open spec fn lit_key_max_speed() -> Seq<u8> {
    seq![0x2cu8, 0x22u8, 0x6du8, 0x61u8, 0x78u8, 0x5fu8, 0x73u8, 0x70u8, 0x65u8, 0x65u8, 0x64u8, 0x22u8, 0x3au8]
}

/// Appends `,"max_speed":`.
pub fn emit_key_max_speed(out: &mut Vec<u8>)
    ensures
        final(out)@ == old(out)@ + lit_key_max_speed(),
{
    out.push(0x2c);
    out.push(0x22);
    out.push(0x6d);
    out.push(0x61);
    out.push(0x78);
    out.push(0x5f);
    out.push(0x73);
    out.push(0x70);
    out.push(0x65);
    out.push(0x65);
    out.push(0x64);
    out.push(0x22);
    out.push(0x3a);
    proof {
        assert(out@ =~= old(out)@ + lit_key_max_speed());
    }
}

/// Consumes `,"max_speed":` at `pos`, if it stands there.
pub fn eat_key_max_speed(s: &Vec<u8>, pos: usize) -> (r: Option<usize>)
    requires
        pos <= s@.len(),
    ensures
        r is Some <==> starts_with(s@, pos as int, lit_key_max_speed()),
        r is Some ==> r.unwrap() as int == pos + lit_key_max_speed().len(),
{
    if s.len() - pos >= 13 && s[pos + 0] == 0x2c && s[pos + 1] == 0x22 && s[pos + 2] == 0x6d && s[pos + 3] == 0x61 && s[pos + 4] == 0x78 && s[pos + 5] == 0x5f && s[pos + 6] == 0x73 && s[pos + 7] == 0x70 && s[pos + 8] == 0x65 && s[pos + 9] == 0x65 && s[pos + 10] == 0x64 && s[pos + 11] == 0x22 && s[pos + 12] == 0x3a {
        proof {
            assert(s@.subrange(pos as int, pos as int + 13) =~= lit_key_max_speed());
        }
        Some(pos + 13)
    } else {
        proof {
            if starts_with(s@, pos as int, lit_key_max_speed()) {
                assert forall|i: int| 0 <= i < 13 implies s@[pos + i] == #[trigger] lit_key_max_speed()[i] by {
                    assert(s@.subrange(pos as int, pos as int + 13)[i] == lit_key_max_speed()[i]);
                }
                assert(s@[pos + 0] == 0x2c);
                assert(s@[pos + 1] == 0x22);
                assert(s@[pos + 2] == 0x6d);
                assert(s@[pos + 3] == 0x61);
                assert(s@[pos + 4] == 0x78);
                assert(s@[pos + 5] == 0x5f);
                assert(s@[pos + 6] == 0x73);
                assert(s@[pos + 7] == 0x70);
                assert(s@[pos + 8] == 0x65);
                assert(s@[pos + 9] == 0x65);
                assert(s@[pos + 10] == 0x64);
                assert(s@[pos + 11] == 0x22);
                assert(s@[pos + 12] == 0x3a);
            }
        }
        None
    }
}

/// The bytes of `,"has_flag":`.
pub open spec fn lit_key_has_flag() -> Seq<u8> {
    seq![0x2cu8, 0x22u8, 0x68u8, 0x61u8, 0x73u8, 0x5fu8, 0x66u8, 0x6cu8, 0x61u8, 0x67u8, 0x22u8, 0x3au8]
}

/// Appends `,"has_flag":`.
pub fn emit_key_has_flag(out: &mut Vec<u8>)
    ensures
        final(out)@ == old(out)@ + lit_key_has_flag(),
{
    out.push(0x2c);
    out.push(0x22);
    out.push(0x68);
    out.push(0x61);
    out.push(0x73);
    out.push(0x5f);
    out.push(0x66);
    out.push(0x6c);
    out.push(0x61);
    out.push(0x67);
    out.push(0x22);
    out.push(0x3a);
    proof {
        assert(out@ =~= old(out)@ + lit_key_has_flag());
    }
}

/// Consumes `,"has_flag":` at `pos`, if it stands there.
pub fn eat_key_has_flag(s: &Vec<u8>, pos: usize) -> (r: Option<usize>)
    requires
        pos <= s@.len(),
    ensures
        r is Some <==> starts_with(s@, pos as int, lit_key_has_flag()),
        r is Some ==> r.unwrap() as int == pos + lit_key_has_flag().len(),
{
    if s.len() - pos >= 12 && s[pos + 0] == 0x2c && s[pos + 1] == 0x22 && s[pos + 2] == 0x68 && s[pos + 3] == 0x61 && s[pos + 4] == 0x73 && s[pos + 5] == 0x5f && s[pos + 6] == 0x66 && s[pos + 7] == 0x6c && s[pos + 8] == 0x61 && s[pos + 9] == 0x67 && s[pos + 10] == 0x22 && s[pos + 11] == 0x3a {
        proof {
            assert(s@.subrange(pos as int, pos as int + 12) =~= lit_key_has_flag());
        }
        Some(pos + 12)
    } else {
        proof {
            if starts_with(s@, pos as int, lit_key_has_flag()) {
                assert forall|i: int| 0 <= i < 12 implies s@[pos + i] == #[trigger] lit_key_has_flag()[i] by {
                    assert(s@.subrange(pos as int, pos as int + 12)[i] == lit_key_has_flag()[i]);
                }
                assert(s@[pos + 0] == 0x2c);
                assert(s@[pos + 1] == 0x22);
                assert(s@[pos + 2] == 0x68);
                assert(s@[pos + 3] == 0x61);
                assert(s@[pos + 4] == 0x73);
                assert(s@[pos + 5] == 0x5f);
                assert(s@[pos + 6] == 0x66);
                assert(s@[pos + 7] == 0x6c);
                assert(s@[pos + 8] == 0x61);
                assert(s@[pos + 9] == 0x67);
                assert(s@[pos + 10] == 0x22);
                assert(s@[pos + 11] == 0x3a);
            }
        }
        None
    }
}

/// The bytes of `,"status":`.
pub open spec fn lit_key_status() -> Seq<u8> {
    seq![0x2cu8, 0x22u8, 0x73u8, 0x74u8, 0x61u8, 0x74u8, 0x75u8, 0x73u8, 0x22u8, 0x3au8]
}

/// Appends `,"status":`.
pub fn emit_key_status(out: &mut Vec<u8>)
    ensures
        final(out)@ == old(out)@ + lit_key_status(),
{
    out.push(0x2c);
    out.push(0x22);
    out.push(0x73);
    out.push(0x74);
    out.push(0x61);
    out.push(0x74);
    out.push(0x75);
    out.push(0x73);
    out.push(0x22);
    out.push(0x3a);
    proof {
        assert(out@ =~= old(out)@ + lit_key_status());
    }
}

/// Consumes `,"status":` at `pos`, if it stands there.
pub fn eat_key_status(s: &Vec<u8>, pos: usize) -> (r: Option<usize>)
    requires
        pos <= s@.len(),
    ensures
        r is Some <==> starts_with(s@, pos as int, lit_key_status()),
        r is Some ==> r.unwrap() as int == pos + lit_key_status().len(),
{
    if s.len() - pos >= 10 && s[pos + 0] == 0x2c && s[pos + 1] == 0x22 && s[pos + 2] == 0x73 && s[pos + 3] == 0x74 && s[pos + 4] == 0x61 && s[pos + 5] == 0x74 && s[pos + 6] == 0x75 && s[pos + 7] == 0x73 && s[pos + 8] == 0x22 && s[pos + 9] == 0x3a {
        proof {
            assert(s@.subrange(pos as int, pos as int + 10) =~= lit_key_status());
        }
        Some(pos + 10)
    } else {
        proof {
            if starts_with(s@, pos as int, lit_key_status()) {
                assert forall|i: int| 0 <= i < 10 implies s@[pos + i] == #[trigger] lit_key_status()[i] by {
                    assert(s@.subrange(pos as int, pos as int + 10)[i] == lit_key_status()[i]);
                }
                assert(s@[pos + 0] == 0x2c);
                assert(s@[pos + 1] == 0x22);
                assert(s@[pos + 2] == 0x73);
                assert(s@[pos + 3] == 0x74);
                assert(s@[pos + 4] == 0x61);
                assert(s@[pos + 5] == 0x74);
                assert(s@[pos + 6] == 0x75);
                assert(s@[pos + 7] == 0x73);
                assert(s@[pos + 8] == 0x22);
                assert(s@[pos + 9] == 0x3a);
            }
        }
        None
    }
}

/// The bytes of `,"blue_score":`.
pub open spec fn lit_key_blue_score() -> Seq<u8> {
    seq![0x2cu8, 0x22u8, 0x62u8, 0x6cu8, 0x75u8, 0x65u8, 0x5fu8, 0x73u8, 0x63u8, 0x6fu8, 0x72u8, 0x65u8, 0x22u8, 0x3au8]
}

/// Appends `,"blue_score":`.
pub fn emit_key_blue_score(out: &mut Vec<u8>)
    ensures
        final(out)@ == old(out)@ + lit_key_blue_score(),
{
    out.push(0x2c);
    out.push(0x22);
    out.push(0x62);
    out.push(0x6c);
    out.push(0x75);
    out.push(0x65);
    out.push(0x5f);
    out.push(0x73);
    out.push(0x63);
    out.push(0x6f);
    out.push(0x72);
    out.push(0x65);
    out.push(0x22);
    out.push(0x3a);
    proof {
        assert(out@ =~= old(out)@ + lit_key_blue_score());
    }
}

/// Consumes `,"blue_score":` at `pos`, if it stands there.
pub fn eat_key_blue_score(s: &Vec<u8>, pos: usize) -> (r: Option<usize>)
    requires
        pos <= s@.len(),
    ensures
        r is Some <==> starts_with(s@, pos as int, lit_key_blue_score()),
        r is Some ==> r.unwrap() as int == pos + lit_key_blue_score().len(),
{
    if s.len() - pos >= 14 && s[pos + 0] == 0x2c && s[pos + 1] == 0x22 && s[pos + 2] == 0x62 && s[pos + 3] == 0x6c && s[pos + 4] == 0x75 && s[pos + 5] == 0x65 && s[pos + 6] == 0x5f && s[pos + 7] == 0x73 && s[pos + 8] == 0x63 && s[pos + 9] == 0x6f && s[pos + 10] == 0x72 && s[pos + 11] == 0x65 && s[pos + 12] == 0x22 && s[pos + 13] == 0x3a {
        proof {
            assert(s@.subrange(pos as int, pos as int + 14) =~= lit_key_blue_score());
        }
        Some(pos + 14)
    } else {
        proof {
            if starts_with(s@, pos as int, lit_key_blue_score()) {
                assert forall|i: int| 0 <= i < 14 implies s@[pos + i] == #[trigger] lit_key_blue_score()[i] by {
                    assert(s@.subrange(pos as int, pos as int + 14)[i] == lit_key_blue_score()[i]);
                }
                assert(s@[pos + 0] == 0x2c);
                assert(s@[pos + 1] == 0x22);
                assert(s@[pos + 2] == 0x62);
                assert(s@[pos + 3] == 0x6c);
                assert(s@[pos + 4] == 0x75);
                assert(s@[pos + 5] == 0x65);
                assert(s@[pos + 6] == 0x5f);
                assert(s@[pos + 7] == 0x73);
                assert(s@[pos + 8] == 0x63);
                assert(s@[pos + 9] == 0x6f);
                assert(s@[pos + 10] == 0x72);
                assert(s@[pos + 11] == 0x65);
                assert(s@[pos + 12] == 0x22);
                assert(s@[pos + 13] == 0x3a);
            }
        }
        None
    }
}

/// The bytes of `,"red_team":`.
pub open spec fn lit_key_red_team() -> Seq<u8> {
    seq![0x2cu8, 0x22u8, 0x72u8, 0x65u8, 0x64u8, 0x5fu8, 0x74u8, 0x65u8, 0x61u8, 0x6du8, 0x22u8, 0x3au8]
}

/// Appends `,"red_team":`.
pub fn emit_key_red_team(out: &mut Vec<u8>)
    ensures
        final(out)@ == old(out)@ + lit_key_red_team(),
{
    out.push(0x2c);
    out.push(0x22);
    out.push(0x72);
    out.push(0x65);
    out.push(0x64);
    out.push(0x5f);
    out.push(0x74);
    out.push(0x65);
    out.push(0x61);
    out.push(0x6d);
    out.push(0x22);
    out.push(0x3a);
    proof {
        assert(out@ =~= old(out)@ + lit_key_red_team());
    }
}

/// Consumes `,"red_team":` at `pos`, if it stands there.
pub fn eat_key_red_team(s: &Vec<u8>, pos: usize) -> (r: Option<usize>)
    requires
        pos <= s@.len(),
    ensures
        r is Some <==> starts_with(s@, pos as int, lit_key_red_team()),
        r is Some ==> r.unwrap() as int == pos + lit_key_red_team().len(),
{
    if s.len() - pos >= 12 && s[pos + 0] == 0x2c && s[pos + 1] == 0x22 && s[pos + 2] == 0x72 && s[pos + 3] == 0x65 && s[pos + 4] == 0x64 && s[pos + 5] == 0x5f && s[pos + 6] == 0x74 && s[pos + 7] == 0x65 && s[pos + 8] == 0x61 && s[pos + 9] == 0x6d && s[pos + 10] == 0x22 && s[pos + 11] == 0x3a {
        proof {
            assert(s@.subrange(pos as int, pos as int + 12) =~= lit_key_red_team());
        }
        Some(pos + 12)
    } else {
        proof {
            if starts_with(s@, pos as int, lit_key_red_team()) {
                assert forall|i: int| 0 <= i < 12 implies s@[pos + i] == #[trigger] lit_key_red_team()[i] by {
                    assert(s@.subrange(pos as int, pos as int + 12)[i] == lit_key_red_team()[i]);
                }
                assert(s@[pos + 0] == 0x2c);
                assert(s@[pos + 1] == 0x22);
                assert(s@[pos + 2] == 0x72);
                assert(s@[pos + 3] == 0x65);
                assert(s@[pos + 4] == 0x64);
                assert(s@[pos + 5] == 0x5f);
                assert(s@[pos + 6] == 0x74);
                assert(s@[pos + 7] == 0x65);
                assert(s@[pos + 8] == 0x61);
                assert(s@[pos + 9] == 0x6d);
                assert(s@[pos + 10] == 0x22);
                assert(s@[pos + 11] == 0x3a);
            }
        }
        None
    }
}

/// The bytes of `,"blue_team":`.
pub open spec fn lit_key_blue_team() -> Seq<u8> {
    seq![0x2cu8, 0x22u8, 0x62u8, 0x6cu8, 0x75u8, 0x65u8, 0x5fu8, 0x74u8, 0x65u8, 0x61u8, 0x6du8, 0x22u8, 0x3au8]
}

/// Appends `,"blue_team":`.
pub fn emit_key_blue_team(out: &mut Vec<u8>)
    ensures
        final(out)@ == old(out)@ + lit_key_blue_team(),
{
    out.push(0x2c);
    out.push(0x22);
    out.push(0x62);
    out.push(0x6c);
    out.push(0x75);
    out.push(0x65);
    out.push(0x5f);
    out.push(0x74);
    out.push(0x65);
    out.push(0x61);
    out.push(0x6d);
    out.push(0x22);
    out.push(0x3a);
    proof {
        assert(out@ =~= old(out)@ + lit_key_blue_team());
    }
}

/// Consumes `,"blue_team":` at `pos`, if it stands there.
pub fn eat_key_blue_team(s: &Vec<u8>, pos: usize) -> (r: Option<usize>)
    requires
        pos <= s@.len(),
    ensures
        r is Some <==> starts_with(s@, pos as int, lit_key_blue_team()),
        r is Some ==> r.unwrap() as int == pos + lit_key_blue_team().len(),
{
    if s.len() - pos >= 13 && s[pos + 0] == 0x2c && s[pos + 1] == 0x22 && s[pos + 2] == 0x62 && s[pos + 3] == 0x6c && s[pos + 4] == 0x75 && s[pos + 5] == 0x65 && s[pos + 6] == 0x5f && s[pos + 7] == 0x74 && s[pos + 8] == 0x65 && s[pos + 9] == 0x61 && s[pos + 10] == 0x6d && s[pos + 11] == 0x22 && s[pos + 12] == 0x3a {
        proof {
            assert(s@.subrange(pos as int, pos as int + 13) =~= lit_key_blue_team());
        }
        Some(pos + 13)
    } else {
        proof {
            if starts_with(s@, pos as int, lit_key_blue_team()) {
                assert forall|i: int| 0 <= i < 13 implies s@[pos + i] == #[trigger] lit_key_blue_team()[i] by {
                    assert(s@.subrange(pos as int, pos as int + 13)[i] == lit_key_blue_team()[i]);
                }
                assert(s@[pos + 0] == 0x2c);
                assert(s@[pos + 1] == 0x22);
                assert(s@[pos + 2] == 0x62);
                assert(s@[pos + 3] == 0x6c);
                assert(s@[pos + 4] == 0x75);
                assert(s@[pos + 5] == 0x65);
                assert(s@[pos + 6] == 0x5f);
                assert(s@[pos + 7] == 0x74);
                assert(s@[pos + 8] == 0x65);
                assert(s@[pos + 9] == 0x61);
                assert(s@[pos + 10] == 0x6d);
                assert(s@[pos + 11] == 0x22);
                assert(s@[pos + 12] == 0x3a);
            }
        }
        None
    }
}

/// The bytes of `,"red_flags":`.
pub open spec fn lit_key_red_flags() -> Seq<u8> {
    seq![0x2cu8, 0x22u8, 0x72u8, 0x65u8, 0x64u8, 0x5fu8, 0x66u8, 0x6cu8, 0x61u8, 0x67u8, 0x73u8, 0x22u8, 0x3au8]
}

/// Appends `,"red_flags":`.
pub fn emit_key_red_flags(out: &mut Vec<u8>)
    ensures
        final(out)@ == old(out)@ + lit_key_red_flags(),
{
    out.push(0x2c);
    out.push(0x22);
    out.push(0x72);
    out.push(0x65);
    out.push(0x64);
    out.push(0x5f);
    out.push(0x66);
    out.push(0x6c);
    out.push(0x61);
    out.push(0x67);
    out.push(0x73);
    out.push(0x22);
    out.push(0x3a);
    proof {
        assert(out@ =~= old(out)@ + lit_key_red_flags());
    }
}

/// Consumes `,"red_flags":` at `pos`, if it stands there.
pub fn eat_key_red_flags(s: &Vec<u8>, pos: usize) -> (r: Option<usize>)
    requires
        pos <= s@.len(),
    ensures
        r is Some <==> starts_with(s@, pos as int, lit_key_red_flags()),
        r is Some ==> r.unwrap() as int == pos + lit_key_red_flags().len(),
{
    if s.len() - pos >= 13 && s[pos + 0] == 0x2c && s[pos + 1] == 0x22 && s[pos + 2] == 0x72 && s[pos + 3] == 0x65 && s[pos + 4] == 0x64 && s[pos + 5] == 0x5f && s[pos + 6] == 0x66 && s[pos + 7] == 0x6c && s[pos + 8] == 0x61 && s[pos + 9] == 0x67 && s[pos + 10] == 0x73 && s[pos + 11] == 0x22 && s[pos + 12] == 0x3a {
        proof {
            assert(s@.subrange(pos as int, pos as int + 13) =~= lit_key_red_flags());
        }
        Some(pos + 13)
    } else {
        proof {
            if starts_with(s@, pos as int, lit_key_red_flags()) {
                assert forall|i: int| 0 <= i < 13 implies s@[pos + i] == #[trigger] lit_key_red_flags()[i] by {
                    assert(s@.subrange(pos as int, pos as int + 13)[i] == lit_key_red_flags()[i]);
                }
                assert(s@[pos + 0] == 0x2c);
                assert(s@[pos + 1] == 0x22);
                assert(s@[pos + 2] == 0x72);
                assert(s@[pos + 3] == 0x65);
                assert(s@[pos + 4] == 0x64);
                assert(s@[pos + 5] == 0x5f);
                assert(s@[pos + 6] == 0x66);
                assert(s@[pos + 7] == 0x6c);
                assert(s@[pos + 8] == 0x61);
                assert(s@[pos + 9] == 0x67);
                assert(s@[pos + 10] == 0x73);
                assert(s@[pos + 11] == 0x22);
                assert(s@[pos + 12] == 0x3a);
            }
        }
        None
    }
}

/// The bytes of `,"blue_flags":`.
pub open spec fn lit_key_blue_flags() -> Seq<u8> {
    seq![0x2cu8, 0x22u8, 0x62u8, 0x6cu8, 0x75u8, 0x65u8, 0x5fu8, 0x66u8, 0x6cu8, 0x61u8, 0x67u8, 0x73u8, 0x22u8, 0x3au8]
}

/// Appends `,"blue_flags":`.
pub fn emit_key_blue_flags(out: &mut Vec<u8>)
    ensures
        final(out)@ == old(out)@ + lit_key_blue_flags(),
{
    out.push(0x2c);
    out.push(0x22);
    out.push(0x62);
    out.push(0x6c);
    out.push(0x75);
    out.push(0x65);
    out.push(0x5f);
    out.push(0x66);
    out.push(0x6c);
    out.push(0x61);
    out.push(0x67);
    out.push(0x73);
    out.push(0x22);
    out.push(0x3a);
    proof {
        assert(out@ =~= old(out)@ + lit_key_blue_flags());
    }
}

/// Consumes `,"blue_flags":` at `pos`, if it stands there.
pub fn eat_key_blue_flags(s: &Vec<u8>, pos: usize) -> (r: Option<usize>)
    requires
        pos <= s@.len(),
    ensures
        r is Some <==> starts_with(s@, pos as int, lit_key_blue_flags()),
        r is Some ==> r.unwrap() as int == pos + lit_key_blue_flags().len(),
{
    if s.len() - pos >= 14 && s[pos + 0] == 0x2c && s[pos + 1] == 0x22 && s[pos + 2] == 0x62 && s[pos + 3] == 0x6c && s[pos + 4] == 0x75 && s[pos + 5] == 0x65 && s[pos + 6] == 0x5f && s[pos + 7] == 0x66 && s[pos + 8] == 0x6c && s[pos + 9] == 0x61 && s[pos + 10] == 0x67 && s[pos + 11] == 0x73 && s[pos + 12] == 0x22 && s[pos + 13] == 0x3a {
        proof {
            assert(s@.subrange(pos as int, pos as int + 14) =~= lit_key_blue_flags());
        }
        Some(pos + 14)
    } else {
        proof {
            if starts_with(s@, pos as int, lit_key_blue_flags()) {
                assert forall|i: int| 0 <= i < 14 implies s@[pos + i] == #[trigger] lit_key_blue_flags()[i] by {
                    assert(s@.subrange(pos as int, pos as int + 14)[i] == lit_key_blue_flags()[i]);
                }
                assert(s@[pos + 0] == 0x2c);
                assert(s@[pos + 1] == 0x22);
                assert(s@[pos + 2] == 0x62);
                assert(s@[pos + 3] == 0x6c);
                assert(s@[pos + 4] == 0x75);
                assert(s@[pos + 5] == 0x65);
                assert(s@[pos + 6] == 0x5f);
                assert(s@[pos + 7] == 0x66);
                assert(s@[pos + 8] == 0x6c);
                assert(s@[pos + 9] == 0x61);
                assert(s@[pos + 10] == 0x67);
                assert(s@[pos + 11] == 0x73);
                assert(s@[pos + 12] == 0x22);
                assert(s@[pos + 13] == 0x3a);
            }
        }
        None
    }
}

/// The bytes of `,"num_flags_per_team":`.
pub open spec fn lit_key_num_flags() -> Seq<u8> {
    seq![0x2cu8, 0x22u8, 0x6eu8, 0x75u8, 0x6du8, 0x5fu8, 0x66u8, 0x6cu8, 0x61u8, 0x67u8, 0x73u8, 0x5fu8, 0x70u8, 0x65u8, 0x72u8, 0x5fu8, 0x74u8, 0x65u8, 0x61u8, 0x6du8, 0x22u8, 0x3au8]
}

/// Appends `,"num_flags_per_team":`.
pub fn emit_key_num_flags(out: &mut Vec<u8>)
    ensures
        final(out)@ == old(out)@ + lit_key_num_flags(),
{
    out.push(0x2c);
    out.push(0x22);
    out.push(0x6e);
    out.push(0x75);
    out.push(0x6d);
    out.push(0x5f);
    out.push(0x66);
    out.push(0x6c);
    out.push(0x61);
    out.push(0x67);
    out.push(0x73);
    out.push(0x5f);
    out.push(0x70);
    out.push(0x65);
    out.push(0x72);
    out.push(0x5f);
    out.push(0x74);
    out.push(0x65);
    out.push(0x61);
    out.push(0x6d);
    out.push(0x22);
    out.push(0x3a);
    proof {
        assert(out@ =~= old(out)@ + lit_key_num_flags());
    }
}

/// Consumes `,"num_flags_per_team":` at `pos`, if it stands there.
pub fn eat_key_num_flags(s: &Vec<u8>, pos: usize) -> (r: Option<usize>)
    requires
        pos <= s@.len(),
    ensures
        r is Some <==> starts_with(s@, pos as int, lit_key_num_flags()),
        r is Some ==> r.unwrap() as int == pos + lit_key_num_flags().len(),
{
    if s.len() - pos >= 22 && s[pos + 0] == 0x2c && s[pos + 1] == 0x22 && s[pos + 2] == 0x6e && s[pos + 3] == 0x75 && s[pos + 4] == 0x6d && s[pos + 5] == 0x5f && s[pos + 6] == 0x66 && s[pos + 7] == 0x6c && s[pos + 8] == 0x61 && s[pos + 9] == 0x67 && s[pos + 10] == 0x73 && s[pos + 11] == 0x5f && s[pos + 12] == 0x70 && s[pos + 13] == 0x65 && s[pos + 14] == 0x72 && s[pos + 15] == 0x5f && s[pos + 16] == 0x74 && s[pos + 17] == 0x65 && s[pos + 18] == 0x61 && s[pos + 19] == 0x6d && s[pos + 20] == 0x22 && s[pos + 21] == 0x3a {
        proof {
            assert(s@.subrange(pos as int, pos as int + 22) =~= lit_key_num_flags());
        }
        Some(pos + 22)
    } else {
        proof {
            if starts_with(s@, pos as int, lit_key_num_flags()) {
                assert forall|i: int| 0 <= i < 22 implies s@[pos + i] == #[trigger] lit_key_num_flags()[i] by {
                    assert(s@.subrange(pos as int, pos as int + 22)[i] == lit_key_num_flags()[i]);
                }
                assert(s@[pos + 0] == 0x2c);
                assert(s@[pos + 1] == 0x22);
                assert(s@[pos + 2] == 0x6e);
                assert(s@[pos + 3] == 0x75);
                assert(s@[pos + 4] == 0x6d);
                assert(s@[pos + 5] == 0x5f);
                assert(s@[pos + 6] == 0x66);
                assert(s@[pos + 7] == 0x6c);
                assert(s@[pos + 8] == 0x61);
                assert(s@[pos + 9] == 0x67);
                assert(s@[pos + 10] == 0x73);
                assert(s@[pos + 11] == 0x5f);
                assert(s@[pos + 12] == 0x70);
                assert(s@[pos + 13] == 0x65);
                assert(s@[pos + 14] == 0x72);
                assert(s@[pos + 15] == 0x5f);
                assert(s@[pos + 16] == 0x74);
                assert(s@[pos + 17] == 0x65);
                assert(s@[pos + 18] == 0x61);
                assert(s@[pos + 19] == 0x6d);
                assert(s@[pos + 20] == 0x22);
                assert(s@[pos + 21] == 0x3a);
            }
        }
        None
    }
}

/// The bytes of `,"red_capture_points":`.
pub open spec fn lit_key_red_cps() -> Seq<u8> {
    seq![0x2cu8, 0x22u8, 0x72u8, 0x65u8, 0x64u8, 0x5fu8, 0x63u8, 0x61u8, 0x70u8, 0x74u8, 0x75u8, 0x72u8, 0x65u8, 0x5fu8, 0x70u8, 0x6fu8, 0x69u8, 0x6eu8, 0x74u8, 0x73u8, 0x22u8, 0x3au8]
}

/// Appends `,"red_capture_points":`.
pub fn emit_key_red_cps(out: &mut Vec<u8>)
    ensures
        final(out)@ == old(out)@ + lit_key_red_cps(),
{
    out.push(0x2c);
    out.push(0x22);
    out.push(0x72);
    out.push(0x65);
    out.push(0x64);
    out.push(0x5f);
    out.push(0x63);
    out.push(0x61);
    out.push(0x70);
    out.push(0x74);
    out.push(0x75);
    out.push(0x72);
    out.push(0x65);
    out.push(0x5f);
    out.push(0x70);
    out.push(0x6f);
    out.push(0x69);
    out.push(0x6e);
    out.push(0x74);
    out.push(0x73);
    out.push(0x22);
    out.push(0x3a);
    proof {
        assert(out@ =~= old(out)@ + lit_key_red_cps());
    }
}

/// Consumes `,"red_capture_points":` at `pos`, if it stands there.
pub fn eat_key_red_cps(s: &Vec<u8>, pos: usize) -> (r: Option<usize>)
    requires
        pos <= s@.len(),
    ensures
        r is Some <==> starts_with(s@, pos as int, lit_key_red_cps()),
        r is Some ==> r.unwrap() as int == pos + lit_key_red_cps().len(),
{
    if s.len() - pos >= 22 && s[pos + 0] == 0x2c && s[pos + 1] == 0x22 && s[pos + 2] == 0x72 && s[pos + 3] == 0x65 && s[pos + 4] == 0x64 && s[pos + 5] == 0x5f && s[pos + 6] == 0x63 && s[pos + 7] == 0x61 && s[pos + 8] == 0x70 && s[pos + 9] == 0x74 && s[pos + 10] == 0x75 && s[pos + 11] == 0x72 && s[pos + 12] == 0x65 && s[pos + 13] == 0x5f && s[pos + 14] == 0x70 && s[pos + 15] == 0x6f && s[pos + 16] == 0x69 && s[pos + 17] == 0x6e && s[pos + 18] == 0x74 && s[pos + 19] == 0x73 && s[pos + 20] == 0x22 && s[pos + 21] == 0x3a {
        proof {
            assert(s@.subrange(pos as int, pos as int + 22) =~= lit_key_red_cps());
        }
        Some(pos + 22)
    } else {
        proof {
            if starts_with(s@, pos as int, lit_key_red_cps()) {
                assert forall|i: int| 0 <= i < 22 implies s@[pos + i] == #[trigger] lit_key_red_cps()[i] by {
                    assert(s@.subrange(pos as int, pos as int + 22)[i] == lit_key_red_cps()[i]);
                }
                assert(s@[pos + 0] == 0x2c);
                assert(s@[pos + 1] == 0x22);
                assert(s@[pos + 2] == 0x72);
                assert(s@[pos + 3] == 0x65);
                assert(s@[pos + 4] == 0x64);
                assert(s@[pos + 5] == 0x5f);
                assert(s@[pos + 6] == 0x63);
                assert(s@[pos + 7] == 0x61);
                assert(s@[pos + 8] == 0x70);
                assert(s@[pos + 9] == 0x74);
                assert(s@[pos + 10] == 0x75);
                assert(s@[pos + 11] == 0x72);
                assert(s@[pos + 12] == 0x65);
                assert(s@[pos + 13] == 0x5f);
                assert(s@[pos + 14] == 0x70);
                assert(s@[pos + 15] == 0x6f);
                assert(s@[pos + 16] == 0x69);
                assert(s@[pos + 17] == 0x6e);
                assert(s@[pos + 18] == 0x74);
                assert(s@[pos + 19] == 0x73);
                assert(s@[pos + 20] == 0x22);
                assert(s@[pos + 21] == 0x3a);
            }
        }
        None
    }
}

/// The bytes of `,"blue_capture_points":`.
pub open spec fn lit_key_blue_cps() -> Seq<u8> {
    seq![0x2cu8, 0x22u8, 0x62u8, 0x6cu8, 0x75u8, 0x65u8, 0x5fu8, 0x63u8, 0x61u8, 0x70u8, 0x74u8, 0x75u8, 0x72u8, 0x65u8, 0x5fu8, 0x70u8, 0x6fu8, 0x69u8, 0x6eu8, 0x74u8, 0x73u8, 0x22u8, 0x3au8]
}

/// Appends `,"blue_capture_points":`.
pub fn emit_key_blue_cps(out: &mut Vec<u8>)
    ensures
        final(out)@ == old(out)@ + lit_key_blue_cps(),
{
    out.push(0x2c);
    out.push(0x22);
    out.push(0x62);
    out.push(0x6c);
    out.push(0x75);
    out.push(0x65);
    out.push(0x5f);
    out.push(0x63);
    out.push(0x61);
    out.push(0x70);
    out.push(0x74);
    out.push(0x75);
    out.push(0x72);
    out.push(0x65);
    out.push(0x5f);
    out.push(0x70);
    out.push(0x6f);
    out.push(0x69);
    out.push(0x6e);
    out.push(0x74);
    out.push(0x73);
    out.push(0x22);
    out.push(0x3a);
    proof {
        assert(out@ =~= old(out)@ + lit_key_blue_cps());
    }
}

/// Consumes `,"blue_capture_points":` at `pos`, if it stands there.
pub fn eat_key_blue_cps(s: &Vec<u8>, pos: usize) -> (r: Option<usize>)
    requires
        pos <= s@.len(),
    ensures
        r is Some <==> starts_with(s@, pos as int, lit_key_blue_cps()),
        r is Some ==> r.unwrap() as int == pos + lit_key_blue_cps().len(),
{
    if s.len() - pos >= 23 && s[pos + 0] == 0x2c && s[pos + 1] == 0x22 && s[pos + 2] == 0x62 && s[pos + 3] == 0x6c && s[pos + 4] == 0x75 && s[pos + 5] == 0x65 && s[pos + 6] == 0x5f && s[pos + 7] == 0x63 && s[pos + 8] == 0x61 && s[pos + 9] == 0x70 && s[pos + 10] == 0x74 && s[pos + 11] == 0x75 && s[pos + 12] == 0x72 && s[pos + 13] == 0x65 && s[pos + 14] == 0x5f && s[pos + 15] == 0x70 && s[pos + 16] == 0x6f && s[pos + 17] == 0x69 && s[pos + 18] == 0x6e && s[pos + 19] == 0x74 && s[pos + 20] == 0x73 && s[pos + 21] == 0x22 && s[pos + 22] == 0x3a {
        proof {
            assert(s@.subrange(pos as int, pos as int + 23) =~= lit_key_blue_cps());
        }
        Some(pos + 23)
    } else {
        proof {
            if starts_with(s@, pos as int, lit_key_blue_cps()) {
                assert forall|i: int| 0 <= i < 23 implies s@[pos + i] == #[trigger] lit_key_blue_cps()[i] by {
                    assert(s@.subrange(pos as int, pos as int + 23)[i] == lit_key_blue_cps()[i]);
                }
                assert(s@[pos + 0] == 0x2c);
                assert(s@[pos + 1] == 0x22);
                assert(s@[pos + 2] == 0x62);
                assert(s@[pos + 3] == 0x6c);
                assert(s@[pos + 4] == 0x75);
                assert(s@[pos + 5] == 0x65);
                assert(s@[pos + 6] == 0x5f);
                assert(s@[pos + 7] == 0x63);
                assert(s@[pos + 8] == 0x61);
                assert(s@[pos + 9] == 0x70);
                assert(s@[pos + 10] == 0x74);
                assert(s@[pos + 11] == 0x75);
                assert(s@[pos + 12] == 0x72);
                assert(s@[pos + 13] == 0x65);
                assert(s@[pos + 14] == 0x5f);
                assert(s@[pos + 15] == 0x70);
                assert(s@[pos + 16] == 0x6f);
                assert(s@[pos + 17] == 0x69);
                assert(s@[pos + 18] == 0x6e);
                assert(s@[pos + 19] == 0x74);
                assert(s@[pos + 20] == 0x73);
                assert(s@[pos + 21] == 0x22);
                assert(s@[pos + 22] == 0x3a);
            }
        }
        None
    }
}

/// The bytes of `,"velocity":`.
pub open spec fn lit_key_velocity() -> Seq<u8> {
    seq![0x2cu8, 0x22u8, 0x76u8, 0x65u8, 0x6cu8, 0x6fu8, 0x63u8, 0x69u8, 0x74u8, 0x79u8, 0x22u8, 0x3au8]
}

/// Appends `,"velocity":`.
pub fn emit_key_velocity(out: &mut Vec<u8>)
    ensures
        final(out)@ == old(out)@ + lit_key_velocity(),
{
    out.push(0x2c);
    out.push(0x22);
    out.push(0x76);
    out.push(0x65);
    out.push(0x6c);
    out.push(0x6f);
    out.push(0x63);
    out.push(0x69);
    out.push(0x74);
    out.push(0x79);
    out.push(0x22);
    out.push(0x3a);
    proof {
        assert(out@ =~= old(out)@ + lit_key_velocity());
    }
}

/// Consumes `,"velocity":` at `pos`, if it stands there.
pub fn eat_key_velocity(s: &Vec<u8>, pos: usize) -> (r: Option<usize>)
    requires
        pos <= s@.len(),
    ensures
        r is Some <==> starts_with(s@, pos as int, lit_key_velocity()),
        r is Some ==> r.unwrap() as int == pos + lit_key_velocity().len(),
{
    if s.len() - pos >= 12 && s[pos + 0] == 0x2c && s[pos + 1] == 0x22 && s[pos + 2] == 0x76 && s[pos + 3] == 0x65 && s[pos + 4] == 0x6c && s[pos + 5] == 0x6f && s[pos + 6] == 0x63 && s[pos + 7] == 0x69 && s[pos + 8] == 0x74 && s[pos + 9] == 0x79 && s[pos + 10] == 0x22 && s[pos + 11] == 0x3a {
        proof {
            assert(s@.subrange(pos as int, pos as int + 12) =~= lit_key_velocity());
        }
        Some(pos + 12)
    } else {
        proof {
            if starts_with(s@, pos as int, lit_key_velocity()) {
                assert forall|i: int| 0 <= i < 12 implies s@[pos + i] == #[trigger] lit_key_velocity()[i] by {
                    assert(s@.subrange(pos as int, pos as int + 12)[i] == lit_key_velocity()[i]);
                }
                assert(s@[pos + 0] == 0x2c);
                assert(s@[pos + 1] == 0x22);
                assert(s@[pos + 2] == 0x76);
                assert(s@[pos + 3] == 0x65);
                assert(s@[pos + 4] == 0x6c);
                assert(s@[pos + 5] == 0x6f);
                assert(s@[pos + 6] == 0x63);
                assert(s@[pos + 7] == 0x69);
                assert(s@[pos + 8] == 0x74);
                assert(s@[pos + 9] == 0x79);
                assert(s@[pos + 10] == 0x22);
                assert(s@[pos + 11] == 0x3a);
            }
        }
        None
    }
}

/// The bytes of `,"start":`.
pub open spec fn lit_key_start() -> Seq<u8> {
    seq![0x2cu8, 0x22u8, 0x73u8, 0x74u8, 0x61u8, 0x72u8, 0x74u8, 0x22u8, 0x3au8]
}

/// Appends `,"start":`.
pub fn emit_key_start(out: &mut Vec<u8>)
    ensures
        final(out)@ == old(out)@ + lit_key_start(),
{
    out.push(0x2c);
    out.push(0x22);
    out.push(0x73);
    out.push(0x74);
    out.push(0x61);
    out.push(0x72);
    out.push(0x74);
    out.push(0x22);
    out.push(0x3a);
    proof {
        assert(out@ =~= old(out)@ + lit_key_start());
    }
}

/// Consumes `,"start":` at `pos`, if it stands there.
pub fn eat_key_start(s: &Vec<u8>, pos: usize) -> (r: Option<usize>)
    requires
        pos <= s@.len(),
    ensures
        r is Some <==> starts_with(s@, pos as int, lit_key_start()),
        r is Some ==> r.unwrap() as int == pos + lit_key_start().len(),
{
    if s.len() - pos >= 9 && s[pos + 0] == 0x2c && s[pos + 1] == 0x22 && s[pos + 2] == 0x73 && s[pos + 3] == 0x74 && s[pos + 4] == 0x61 && s[pos + 5] == 0x72 && s[pos + 6] == 0x74 && s[pos + 7] == 0x22 && s[pos + 8] == 0x3a {
        proof {
            assert(s@.subrange(pos as int, pos as int + 9) =~= lit_key_start());
        }
        Some(pos + 9)
    } else {
        proof {
            if starts_with(s@, pos as int, lit_key_start()) {
                assert forall|i: int| 0 <= i < 9 implies s@[pos + i] == #[trigger] lit_key_start()[i] by {
                    assert(s@.subrange(pos as int, pos as int + 9)[i] == lit_key_start()[i]);
                }
                assert(s@[pos + 0] == 0x2c);
                assert(s@[pos + 1] == 0x22);
                assert(s@[pos + 2] == 0x73);
                assert(s@[pos + 3] == 0x74);
                assert(s@[pos + 4] == 0x61);
                assert(s@[pos + 5] == 0x72);
                assert(s@[pos + 6] == 0x74);
                assert(s@[pos + 7] == 0x22);
                assert(s@[pos + 8] == 0x3a);
            }
        }
        None
    }
}

/// The bytes of `,"end":`.
pub open spec fn lit_key_end() -> Seq<u8> {
    seq![0x2cu8, 0x22u8, 0x65u8, 0x6eu8, 0x64u8, 0x22u8, 0x3au8]
}

/// Appends `,"end":`.
pub fn emit_key_end(out: &mut Vec<u8>)
    ensures
        final(out)@ == old(out)@ + lit_key_end(),
{
    out.push(0x2c);
    out.push(0x22);
    out.push(0x65);
    out.push(0x6e);
    out.push(0x64);
    out.push(0x22);
    out.push(0x3a);
    proof {
        assert(out@ =~= old(out)@ + lit_key_end());
    }
}

/// Consumes `,"end":` at `pos`, if it stands there.
pub fn eat_key_end(s: &Vec<u8>, pos: usize) -> (r: Option<usize>)
    requires
        pos <= s@.len(),
    ensures
        r is Some <==> starts_with(s@, pos as int, lit_key_end()),
        r is Some ==> r.unwrap() as int == pos + lit_key_end().len(),
{
    if s.len() - pos >= 7 && s[pos + 0] == 0x2c && s[pos + 1] == 0x22 && s[pos + 2] == 0x65 && s[pos + 3] == 0x6e && s[pos + 4] == 0x64 && s[pos + 5] == 0x22 && s[pos + 6] == 0x3a {
        proof {
            assert(s@.subrange(pos as int, pos as int + 7) =~= lit_key_end());
        }
        Some(pos + 7)
    } else {
        proof {
            if starts_with(s@, pos as int, lit_key_end()) {
                assert forall|i: int| 0 <= i < 7 implies s@[pos + i] == #[trigger] lit_key_end()[i] by {
                    assert(s@.subrange(pos as int, pos as int + 7)[i] == lit_key_end()[i]);
                }
                assert(s@[pos + 0] == 0x2c);
                assert(s@[pos + 1] == 0x22);
                assert(s@[pos + 2] == 0x65);
                assert(s@[pos + 3] == 0x6e);
                assert(s@[pos + 4] == 0x64);
                assert(s@[pos + 5] == 0x22);
                assert(s@[pos + 6] == 0x3a);
            }
        }
        None
    }
}

/// The bytes of `,"free":`.
pub open spec fn lit_key_free() -> Seq<u8> {
    seq![0x2cu8, 0x22u8, 0x66u8, 0x72u8, 0x65u8, 0x65u8, 0x22u8, 0x3au8]
}

/// Appends `,"free":`.
pub fn emit_key_free(out: &mut Vec<u8>)
    ensures
        final(out)@ == old(out)@ + lit_key_free(),
{
    out.push(0x2c);
    out.push(0x22);
    out.push(0x66);
    out.push(0x72);
    out.push(0x65);
    out.push(0x65);
    out.push(0x22);
    out.push(0x3a);
    proof {
        assert(out@ =~= old(out)@ + lit_key_free());
    }
}

/// Consumes `,"free":` at `pos`, if it stands there.
pub fn eat_key_free(s: &Vec<u8>, pos: usize) -> (r: Option<usize>)
    requires
        pos <= s@.len(),
    ensures
        r is Some <==> starts_with(s@, pos as int, lit_key_free()),
        r is Some ==> r.unwrap() as int == pos + lit_key_free().len(),
{
    if s.len() - pos >= 8 && s[pos + 0] == 0x2c && s[pos + 1] == 0x22 && s[pos + 2] == 0x66 && s[pos + 3] == 0x72 && s[pos + 4] == 0x65 && s[pos + 5] == 0x65 && s[pos + 6] == 0x22 && s[pos + 7] == 0x3a {
        proof {
            assert(s@.subrange(pos as int, pos as int + 8) =~= lit_key_free());
        }
        Some(pos + 8)
    } else {
        proof {
            if starts_with(s@, pos as int, lit_key_free()) {
                assert forall|i: int| 0 <= i < 8 implies s@[pos + i] == #[trigger] lit_key_free()[i] by {
                    assert(s@.subrange(pos as int, pos as int + 8)[i] == lit_key_free()[i]);
                }
                assert(s@[pos + 0] == 0x2c);
                assert(s@[pos + 1] == 0x22);
                assert(s@[pos + 2] == 0x66);
                assert(s@[pos + 3] == 0x72);
                assert(s@[pos + 4] == 0x65);
                assert(s@[pos + 5] == 0x65);
                assert(s@[pos + 6] == 0x22);
                assert(s@[pos + 7] == 0x3a);
            }
        }
        None
    }
}

/// The bytes of `"Red"`.
pub open spec fn lit_team_red() -> Seq<u8> {
    seq![0x22u8, 0x52u8, 0x65u8, 0x64u8, 0x22u8]
}

/// Appends `"Red"`.
pub fn emit_team_red(out: &mut Vec<u8>)
    ensures
        final(out)@ == old(out)@ + lit_team_red(),
{
    out.push(0x22);
    out.push(0x52);
    out.push(0x65);
    out.push(0x64);
    out.push(0x22);
    proof {
        assert(out@ =~= old(out)@ + lit_team_red());
    }
}

/// Consumes `"Red"` at `pos`, if it stands there.
pub fn eat_team_red(s: &Vec<u8>, pos: usize) -> (r: Option<usize>)
    requires
        pos <= s@.len(),
    ensures
        r is Some <==> starts_with(s@, pos as int, lit_team_red()),
        r is Some ==> r.unwrap() as int == pos + lit_team_red().len(),
{
    if s.len() - pos >= 5 && s[pos + 0] == 0x22 && s[pos + 1] == 0x52 && s[pos + 2] == 0x65 && s[pos + 3] == 0x64 && s[pos + 4] == 0x22 {
        proof {
            assert(s@.subrange(pos as int, pos as int + 5) =~= lit_team_red());
        }
        Some(pos + 5)
    } else {
        proof {
            if starts_with(s@, pos as int, lit_team_red()) {
                assert forall|i: int| 0 <= i < 5 implies s@[pos + i] == #[trigger] lit_team_red()[i] by {
                    assert(s@.subrange(pos as int, pos as int + 5)[i] == lit_team_red()[i]);
                }
                assert(s@[pos + 0] == 0x22);
                assert(s@[pos + 1] == 0x52);
                assert(s@[pos + 2] == 0x65);
                assert(s@[pos + 3] == 0x64);
                assert(s@[pos + 4] == 0x22);
            }
        }
        None
    }
}

/// The bytes of `"Blue"`.
pub open spec fn lit_team_blue() -> Seq<u8> {
    seq![0x22u8, 0x42u8, 0x6cu8, 0x75u8, 0x65u8, 0x22u8]
}

/// Appends `"Blue"`.
pub fn emit_team_blue(out: &mut Vec<u8>)
    ensures
        final(out)@ == old(out)@ + lit_team_blue(),
{
    out.push(0x22);
    out.push(0x42);
    out.push(0x6c);
    out.push(0x75);
    out.push(0x65);
    out.push(0x22);
    proof {
        assert(out@ =~= old(out)@ + lit_team_blue());
    }
}

/// Consumes `"Blue"` at `pos`, if it stands there.
pub fn eat_team_blue(s: &Vec<u8>, pos: usize) -> (r: Option<usize>)
    requires
        pos <= s@.len(),
    ensures
        r is Some <==> starts_with(s@, pos as int, lit_team_blue()),
        r is Some ==> r.unwrap() as int == pos + lit_team_blue().len(),
{
    if s.len() - pos >= 6 && s[pos + 0] == 0x22 && s[pos + 1] == 0x42 && s[pos + 2] == 0x6c && s[pos + 3] == 0x75 && s[pos + 4] == 0x65 && s[pos + 5] == 0x22 {
        proof {
            assert(s@.subrange(pos as int, pos as int + 6) =~= lit_team_blue());
        }
        Some(pos + 6)
    } else {
        proof {
            if starts_with(s@, pos as int, lit_team_blue()) {
                assert forall|i: int| 0 <= i < 6 implies s@[pos + i] == #[trigger] lit_team_blue()[i] by {
                    assert(s@.subrange(pos as int, pos as int + 6)[i] == lit_team_blue()[i]);
                }
                assert(s@[pos + 0] == 0x22);
                assert(s@[pos + 1] == 0x42);
                assert(s@[pos + 2] == 0x6c);
                assert(s@[pos + 3] == 0x75);
                assert(s@[pos + 4] == 0x65);
                assert(s@[pos + 5] == 0x22);
            }
        }
        None
    }
}

/// The bytes of `"Dropped"`.
pub open spec fn lit_st_dropped() -> Seq<u8> {
    seq![0x22u8, 0x44u8, 0x72u8, 0x6fu8, 0x70u8, 0x70u8, 0x65u8, 0x64u8, 0x22u8]
}

/// Appends `"Dropped"`.
pub fn emit_st_dropped(out: &mut Vec<u8>)
    ensures
        final(out)@ == old(out)@ + lit_st_dropped(),
{
    out.push(0x22);
    out.push(0x44);
    out.push(0x72);
    out.push(0x6f);
    out.push(0x70);
    out.push(0x70);
    out.push(0x65);
    out.push(0x64);
    out.push(0x22);
    proof {
        assert(out@ =~= old(out)@ + lit_st_dropped());
    }
}

/// Consumes `"Dropped"` at `pos`, if it stands there.
pub fn eat_st_dropped(s: &Vec<u8>, pos: usize) -> (r: Option<usize>)
    requires
        pos <= s@.len(),
    ensures
        r is Some <==> starts_with(s@, pos as int, lit_st_dropped()),
        r is Some ==> r.unwrap() as int == pos + lit_st_dropped().len(),
{
    if s.len() - pos >= 9 && s[pos + 0] == 0x22 && s[pos + 1] == 0x44 && s[pos + 2] == 0x72 && s[pos + 3] == 0x6f && s[pos + 4] == 0x70 && s[pos + 5] == 0x70 && s[pos + 6] == 0x65 && s[pos + 7] == 0x64 && s[pos + 8] == 0x22 {
        proof {
            assert(s@.subrange(pos as int, pos as int + 9) =~= lit_st_dropped());
        }
        Some(pos + 9)
    } else {
        proof {
            if starts_with(s@, pos as int, lit_st_dropped()) {
                assert forall|i: int| 0 <= i < 9 implies s@[pos + i] == #[trigger] lit_st_dropped()[i] by {
                    assert(s@.subrange(pos as int, pos as int + 9)[i] == lit_st_dropped()[i]);
                }
                assert(s@[pos + 0] == 0x22);
                assert(s@[pos + 1] == 0x44);
                assert(s@[pos + 2] == 0x72);
                assert(s@[pos + 3] == 0x6f);
                assert(s@[pos + 4] == 0x70);
                assert(s@[pos + 5] == 0x70);
                assert(s@[pos + 6] == 0x65);
                assert(s@[pos + 7] == 0x64);
                assert(s@[pos + 8] == 0x22);
            }
        }
        None
    }
}

/// The bytes of `"PickedUp"`.
pub open spec fn lit_st_picked_up() -> Seq<u8> {
    seq![0x22u8, 0x50u8, 0x69u8, 0x63u8, 0x6bu8, 0x65u8, 0x64u8, 0x55u8, 0x70u8, 0x22u8]
}

/// Appends `"PickedUp"`.
pub fn emit_st_picked_up(out: &mut Vec<u8>)
    ensures
        final(out)@ == old(out)@ + lit_st_picked_up(),
{
    out.push(0x22);
    out.push(0x50);
    out.push(0x69);
    out.push(0x63);
    out.push(0x6b);
    out.push(0x65);
    out.push(0x64);
    out.push(0x55);
    out.push(0x70);
    out.push(0x22);
    proof {
        assert(out@ =~= old(out)@ + lit_st_picked_up());
    }
}

/// Consumes `"PickedUp"` at `pos`, if it stands there.
pub fn eat_st_picked_up(s: &Vec<u8>, pos: usize) -> (r: Option<usize>)
    requires
        pos <= s@.len(),
    ensures
        r is Some <==> starts_with(s@, pos as int, lit_st_picked_up()),
        r is Some ==> r.unwrap() as int == pos + lit_st_picked_up().len(),
{
    if s.len() - pos >= 10 && s[pos + 0] == 0x22 && s[pos + 1] == 0x50 && s[pos + 2] == 0x69 && s[pos + 3] == 0x63 && s[pos + 4] == 0x6b && s[pos + 5] == 0x65 && s[pos + 6] == 0x64 && s[pos + 7] == 0x55 && s[pos + 8] == 0x70 && s[pos + 9] == 0x22 {
        proof {
            assert(s@.subrange(pos as int, pos as int + 10) =~= lit_st_picked_up());
        }
        Some(pos + 10)
    } else {
        proof {
            if starts_with(s@, pos as int, lit_st_picked_up()) {
                assert forall|i: int| 0 <= i < 10 implies s@[pos + i] == #[trigger] lit_st_picked_up()[i] by {
                    assert(s@.subrange(pos as int, pos as int + 10)[i] == lit_st_picked_up()[i]);
                }
                assert(s@[pos + 0] == 0x22);
                assert(s@[pos + 1] == 0x50);
                assert(s@[pos + 2] == 0x69);
                assert(s@[pos + 3] == 0x63);
                assert(s@[pos + 4] == 0x6b);
                assert(s@[pos + 5] == 0x65);
                assert(s@[pos + 6] == 0x64);
                assert(s@[pos + 7] == 0x55);
                assert(s@[pos + 8] == 0x70);
                assert(s@[pos + 9] == 0x22);
            }
        }
        None
    }
}

/// The bytes of `"Captured"`.
pub open spec fn lit_st_captured() -> Seq<u8> {
    seq![0x22u8, 0x43u8, 0x61u8, 0x70u8, 0x74u8, 0x75u8, 0x72u8, 0x65u8, 0x64u8, 0x22u8]
}

/// Appends `"Captured"`.
pub fn emit_st_captured(out: &mut Vec<u8>)
    ensures
        final(out)@ == old(out)@ + lit_st_captured(),
{
    out.push(0x22);
    out.push(0x43);
    out.push(0x61);
    out.push(0x70);
    out.push(0x74);
    out.push(0x75);
    out.push(0x72);
    out.push(0x65);
    out.push(0x64);
    out.push(0x22);
    proof {
        assert(out@ =~= old(out)@ + lit_st_captured());
    }
}

/// Consumes `"Captured"` at `pos`, if it stands there.
pub fn eat_st_captured(s: &Vec<u8>, pos: usize) -> (r: Option<usize>)
    requires
        pos <= s@.len(),
    ensures
        r is Some <==> starts_with(s@, pos as int, lit_st_captured()),
        r is Some ==> r.unwrap() as int == pos + lit_st_captured().len(),
{
    if s.len() - pos >= 10 && s[pos + 0] == 0x22 && s[pos + 1] == 0x43 && s[pos + 2] == 0x61 && s[pos + 3] == 0x70 && s[pos + 4] == 0x74 && s[pos + 5] == 0x75 && s[pos + 6] == 0x72 && s[pos + 7] == 0x65 && s[pos + 8] == 0x64 && s[pos + 9] == 0x22 {
        proof {
            assert(s@.subrange(pos as int, pos as int + 10) =~= lit_st_captured());
        }
        Some(pos + 10)
    } else {
        proof {
            if starts_with(s@, pos as int, lit_st_captured()) {
                assert forall|i: int| 0 <= i < 10 implies s@[pos + i] == #[trigger] lit_st_captured()[i] by {
                    assert(s@.subrange(pos as int, pos as int + 10)[i] == lit_st_captured()[i]);
                }
                assert(s@[pos + 0] == 0x22);
                assert(s@[pos + 1] == 0x43);
                assert(s@[pos + 2] == 0x61);
                assert(s@[pos + 3] == 0x70);
                assert(s@[pos + 4] == 0x74);
                assert(s@[pos + 5] == 0x75);
                assert(s@[pos + 6] == 0x72);
                assert(s@[pos + 7] == 0x65);
                assert(s@[pos + 8] == 0x64);
                assert(s@[pos + 9] == 0x22);
            }
        }
        None
    }
}

/// The bytes of `}}`.
pub open spec fn lit_close_move() -> Seq<u8> {
    seq![0x7du8, 0x7du8]
}

/// Appends `}}`.
pub fn emit_close_move(out: &mut Vec<u8>)
    ensures
        final(out)@ == old(out)@ + lit_close_move(),
{
    out.push(0x7d);
    out.push(0x7d);
    proof {
        assert(out@ =~= old(out)@ + lit_close_move());
    }
}

/// Consumes `}}` at `pos`, if it stands there.
pub fn eat_close_move(s: &Vec<u8>, pos: usize) -> (r: Option<usize>)
    requires
        pos <= s@.len(),
    ensures
        r is Some <==> starts_with(s@, pos as int, lit_close_move()),
        r is Some ==> r.unwrap() as int == pos + lit_close_move().len(),
{
    if s.len() - pos >= 2 && s[pos + 0] == 0x7d && s[pos + 1] == 0x7d {
        proof {
            assert(s@.subrange(pos as int, pos as int + 2) =~= lit_close_move());
        }
        Some(pos + 2)
    } else {
        proof {
            if starts_with(s@, pos as int, lit_close_move()) {
                assert forall|i: int| 0 <= i < 2 implies s@[pos + i] == #[trigger] lit_close_move()[i] by {
                    assert(s@.subrange(pos as int, pos as int + 2)[i] == lit_close_move()[i]);
                }
                assert(s@[pos + 0] == 0x7d);
                assert(s@[pos + 1] == 0x7d);
            }
        }
        None
    }
}

} // verus!
