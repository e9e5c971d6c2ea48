//! Movement commands from a worker, and the speed limit the scheduler
//! enforces before applying them.
//!
//! An action names an agent by id and asks for a velocity. A requested
//! speed above the agent's maximum is rescaled to the maximum — the move is
//! kept, never dropped — and an action naming an unknown agent is skipped.
//! All of it is exact fixed-point integer arithmetic.

use vstd::arithmetic::div_mod::lemma_fundamental_div_mod;
use vstd::prelude::*;

use crate::state::{coord_wf, vec2_wf, Vec2Fx, COORD_LIMIT};

verus! {

/// One command produced by a decision worker.
#[derive(Debug, Clone, Copy, PartialEq, Eq, Structural)]
pub enum Action {
    Move { id: u32, velocity: Vec2Fx },
}

/// What the scheduler hands to the movement integrator.
#[derive(Debug, Clone, Copy, PartialEq, Eq, Structural)]
pub enum MovementEvent {
    TranslateById(u32, Vec2Fx),
}

/// What the scheduler knows of one live agent: its id and speed limit.
#[derive(Debug, Clone, Copy, PartialEq, Eq, Structural)]
pub struct AgentInfo {
    pub id: u32,
    pub max_speed: i64,
}

/// The squared length of a velocity.
pub open spec fn norm_sq(v: Vec2Fx) -> int {
    (v.x as int) * (v.x as int) + (v.y as int) * (v.y as int)
}

/// Magnitude of a fixed-point component.
pub open spec fn fx_abs(x: i64) -> int {
    if x < 0 {
        -(x as int)
    } else {
        x as int
    }
}

/// Carries the sign of `sign_of` onto the magnitude `mag`.
pub open spec fn fx_signed(sign_of: i64, mag: int) -> int {
    if sign_of < 0 {
        -mag
    } else {
        mag
    }
}

/// `n` is the integer square root of `s`, rounded up.
pub open spec fn sqrt_ceil_ok(n: int, s: int) -> bool {
    &&& n >= 0
    &&& n * n >= s
    &&& n == 0 || (n - 1) * (n - 1) < s
}

/// The integer square root of `s`, rounded up.
pub open spec fn sqrt_ceil(s: int) -> int {
    choose|n: int| sqrt_ceil_ok(n, s)
}

/// There is exactly one rounded-up integer square root.
pub proof fn lemma_sqrt_ceil_unique(n1: int, n2: int, s: int)
    requires
        sqrt_ceil_ok(n1, s),
        sqrt_ceil_ok(n2, s),
    ensures
        n1 == n2,
{
    if n1 < n2 {
        assert((n2 - 1) * (n2 - 1) >= n1 * n1) by (nonlinear_arith)
            requires
                0 <= n1 <= n2 - 1,
        ;
    }
    if n2 < n1 {
        assert((n1 - 1) * (n1 - 1) >= n2 * n2) by (nonlinear_arith)
            requires
                0 <= n2 <= n1 - 1,
        ;
    }
}

/// The velocity the scheduler actually applies: the request itself when it
/// is within the limit, otherwise the request rescaled so that each
/// component keeps its sign and its share of a magnitude of at most `max`.
pub open spec fn clamp_velocity_spec(v: Vec2Fx, max: i64) -> Vec2Fx {
    if norm_sq(v) <= (max as int) * (max as int) {
        v
    } else {
        let n = sqrt_ceil(norm_sq(v));
        Vec2Fx {
            x: fx_signed(v.x, fx_abs(v.x) * (max as int) / n) as i64,
            y: fx_signed(v.y, fx_abs(v.y) * (max as int) / n) as i64,
        }
    }
}

/// The integer square root of `s`, rounded up, by binary search.
fn isqrt_ceil(s: u64) -> (n: u64)
    requires
        s <= 8_000_000_000_000_000_000,
    ensures
        sqrt_ceil_ok(n as int, s as int),
{
    let mut lo: u64 = 0;
    let mut hi: u64 = 3_000_000_000;
    proof {
        assert(3_000_000_000 * 3_000_000_000 >= s as int) by (nonlinear_arith)
            requires
                s <= 8_000_000_000_000_000_000,
        ;
    }
    while lo < hi
        invariant
            0 <= lo <= hi <= 3_000_000_000,
            hi as int * hi as int >= s as int,
            lo == 0 || (lo as int - 1) * (lo as int - 1) < s as int,
        decreases hi - lo,
    {
        let mid = lo + (hi - lo) / 2;
        proof {
            assert(mid as int * mid as int <= 9_000_000_000_000_000_000) by (nonlinear_arith)
                requires
                    0 <= mid as int <= 3_000_000_000,
            ;
        }
        if mid * mid >= s {
            hi = mid;
        } else {
            lo = mid + 1;
        }
    }
    lo
}

/// Floored scaling by `m/n` cannot grow a vector past `m` when `n` bounds
/// its length: the core of the speed limit.
proof fn lemma_scaled_norm_bound(ax: int, ay: int, m: int, n: int)
    requires
        0 <= ax,
        0 <= ay,
        0 <= m,
        0 < n,
        ax * ax + ay * ay <= n * n,
    ensures
        (ax * m / n) * (ax * m / n) + (ay * m / n) * (ay * m / n) <= m * m,
{
    let qx = ax * m / n;
    let qy = ay * m / n;
    lemma_fundamental_div_mod(ax * m, n);
    lemma_fundamental_div_mod(ay * m, n);
    assert(ax * m >= 0) by (nonlinear_arith)
        requires
            ax >= 0 && m >= 0,
    ;
    assert(ay * m >= 0) by (nonlinear_arith)
        requires
            ay >= 0 && m >= 0,
    ;
    assert(qx >= 0 && qx * n <= ax * m) by {
        assert(ax * m == n * qx + (ax * m) % n);
        assert(0 <= (ax * m) % n < n);
        assert(qx >= 0) by (nonlinear_arith)
            requires
                n * qx + (ax * m) % n >= 0 && 0 <= (ax * m) % n < n,
        ;
        assert(qx * n <= ax * m) by (nonlinear_arith)
            requires
                ax * m == n * qx + (ax * m) % n && (ax * m) % n >= 0,
        ;
    }
    assert(qy >= 0 && qy * n <= ay * m) by {
        assert(ay * m == n * qy + (ay * m) % n);
        assert(0 <= (ay * m) % n < n);
        assert(qy >= 0) by (nonlinear_arith)
            requires
                n * qy + (ay * m) % n >= 0 && 0 <= (ay * m) % n < n,
        ;
        assert(qy * n <= ay * m) by (nonlinear_arith)
            requires
                ay * m == n * qy + (ay * m) % n && (ay * m) % n >= 0,
        ;
    }
    assert((qx * qx + qy * qy) * (n * n) <= (ax * ax + ay * ay) * (m * m)) by (nonlinear_arith)
        requires
            0 <= qx && 0 <= qy && 0 <= ax && 0 <= ay && 0 <= m && 0 < n && qx * n <= ax * m && qy
                * n <= ay * m,
    ;
    assert((ax * ax + ay * ay) * (m * m) <= (n * n) * (m * m)) by (nonlinear_arith)
        requires
            ax * ax + ay * ay <= n * n && m * m >= 0,
    ;
    assert(qx * qx + qy * qy <= m * m) by (nonlinear_arith)
        requires
            (qx * qx + qy * qy) * (n * n) <= (n * n) * (m * m) && n > 0,
    ;
}

/// The clamped velocity never exceeds the limit, whatever was requested.
pub proof fn lemma_clamp_within_limit(v: Vec2Fx, max: i64)
    requires
        vec2_wf(v),
        0 <= max <= COORD_LIMIT,
    ensures
        norm_sq(clamp_velocity_spec(v, max)) <= (max as int) * (max as int),
{
    let s = norm_sq(v);
    let mm = (max as int) * (max as int);
    if s <= mm {
    } else {
        let n = sqrt_ceil(s);
        assert(s <= 8_000_000_000_000_000_000) by (nonlinear_arith)
            requires
                -2_000_000_000 <= v.x as int <= 2_000_000_000 && -2_000_000_000 <= v.y as int
                    <= 2_000_000_000 && s == (v.x as int) * (v.x as int) + (v.y as int) * (v.y
                    as int),
        ;
        assert(exists|k: int| sqrt_ceil_ok(k, s)) by {
            lemma_sqrt_exists(s);
        }
        assert(sqrt_ceil_ok(n, s));
        assert(mm >= 0) by (nonlinear_arith)
            requires
                mm == (max as int) * (max as int),
        ;
        assert(n > 0) by (nonlinear_arith)
            requires
                n >= 0 && n * n >= s && s > mm && mm >= 0,
        ;
        let ax = fx_abs(v.x);
        let ay = fx_abs(v.y);
        assert(ax * ax + ay * ay == s) by (nonlinear_arith)
            requires
                (ax == v.x as int || ax == -(v.x as int)) && (ay == v.y as int || ay == -(v.y
                    as int)) && s == (v.x as int) * (v.x as int) + (v.y as int) * (v.y as int),
        ;
        lemma_scaled_norm_bound(ax, ay, max as int, n);
        let qx = ax * (max as int) / n;
        let qy = ay * (max as int) / n;
        let r = clamp_velocity_spec(v, max);
        assert(r.x as int == fx_signed(v.x, qx) && r.y as int == fx_signed(v.y, qy)) by {
            lemma_clamp_components_in_range(v, max);
        }
        assert(norm_sq(r) == qx * qx + qy * qy) by (nonlinear_arith)
            requires
                (r.x as int == qx || r.x as int == -qx) && (r.y as int == qy || r.y as int == -qy)
                    && norm_sq(r) == (r.x as int) * (r.x as int) + (r.y as int) * (r.y as int),
        ;
    }
}

/// A rounded-up integer square root exists for every bounded argument.
proof fn lemma_sqrt_exists(s: int)
    requires
        s <= 8_000_000_000_000_000_000,
    ensures
        exists|k: int| sqrt_ceil_ok(k, s),
    decreases (if s > 0 {
        s
    } else {
        0
    }),
{
    if s <= 0 {
        assert(sqrt_ceil_ok(0, s));
    } else {
        lemma_sqrt_exists(s - 1);
        let k = choose|k: int| #[trigger] sqrt_ceil_ok(k, s - 1);
        if k * k >= s {
            assert(sqrt_ceil_ok(k, s));
        } else {
            assert(k * k == s - 1);
            assert(sqrt_ceil_ok(k + 1, s)) by (nonlinear_arith)
                requires
                    k >= 0 && k * k == s - 1,
            ;
        }
    }
}

/// The scaled components stay within the fixed-point range.
proof fn lemma_clamp_components_in_range(v: Vec2Fx, max: i64)
    requires
        vec2_wf(v),
        0 <= max <= COORD_LIMIT,
        norm_sq(v) > (max as int) * (max as int),
    ensures
        ({
            let n = sqrt_ceil(norm_sq(v));
            let qx = fx_abs(v.x) * (max as int) / n;
            let qy = fx_abs(v.y) * (max as int) / n;
            &&& 0 <= qx <= fx_abs(v.x)
            &&& 0 <= qy <= fx_abs(v.y)
            &&& clamp_velocity_spec(v, max).x as int == fx_signed(v.x, qx)
            &&& clamp_velocity_spec(v, max).y as int == fx_signed(v.y, qy)
        }),
{
    let s = norm_sq(v);
    assert(s <= 8_000_000_000_000_000_000) by (nonlinear_arith)
        requires
            -2_000_000_000 <= v.x as int <= 2_000_000_000 && -2_000_000_000 <= v.y as int
                <= 2_000_000_000 && s == (v.x as int) * (v.x as int) + (v.y as int) * (v.y as int),
    ;
    lemma_sqrt_exists(s);
    let n = sqrt_ceil(s);
    assert(sqrt_ceil_ok(n, s));
    assert(n > 0) by (nonlinear_arith)
        requires
            n >= 0 && n * n >= s && s > (max as int) * (max as int) && max >= 0,
    ;
    assert(max as int <= n) by (nonlinear_arith)
        requires
            n > 0 && n * n >= s && s > (max as int) * (max as int) && max >= 0,
    ;
    let ax = fx_abs(v.x);
    let ay = fx_abs(v.y);
    lemma_div_scale_le(ax, max as int, n);
    lemma_div_scale_le(ay, max as int, n);
}

/// For nonnegative `a` and `0 <= m <= n`, the floored scaling `a*m/n`
/// stays between zero and `a`.
proof fn lemma_div_scale_le(a: int, m: int, n: int)
    requires
        0 <= a,
        0 <= m <= n,
        0 < n,
    ensures
        0 <= a * m / n <= a,
{
    lemma_fundamental_div_mod(a * m, n);
    let q = a * m / n;
    assert(a * m >= 0) by (nonlinear_arith)
        requires
            a >= 0 && m >= 0,
    ;
    assert(q >= 0) by (nonlinear_arith)
        requires
            n * q + (a * m) % n >= 0 && 0 <= (a * m) % n < n,
    ;
    assert(a * m <= a * n) by (nonlinear_arith)
        requires
            a >= 0 && m <= n,
    ;
    assert(q <= a) by (nonlinear_arith)
        requires
            a * m == n * q + (a * m) % n && (a * m) % n >= 0 && a * m <= a * n && n > 0,
    ;
}

/// Rescales a requested velocity to the agent's speed limit; a request
/// already within the limit is returned unchanged.
pub fn clamp_velocity(v: Vec2Fx, max: i64) -> (r: Vec2Fx)
    requires
        vec2_wf(v),
        0 <= max <= COORD_LIMIT,
    ensures
        r == clamp_velocity_spec(v, max),
        vec2_wf(r),
{
    let ax: u64 = if v.x < 0 {
        (-v.x) as u64
    } else {
        v.x as u64
    };
    let ay: u64 = if v.y < 0 {
        (-v.y) as u64
    } else {
        v.y as u64
    };
    proof {
        assert(ax as int == fx_abs(v.x));
        assert(ay as int == fx_abs(v.y));
        assert(ax as int * ax as int <= 4_000_000_000_000_000_000) by (nonlinear_arith)
            requires
                0 <= ax as int <= 2_000_000_000,
        ;
        assert(ay as int * ay as int <= 4_000_000_000_000_000_000) by (nonlinear_arith)
            requires
                0 <= ay as int <= 2_000_000_000,
        ;
    }
    let sx = ax * ax;
    let sy = ay * ay;
    let s = sx + sy;
    proof {
        assert(s as int == norm_sq(v)) by (nonlinear_arith)
            requires
                sx as int == fx_abs(v.x) * fx_abs(v.x) && sy as int == fx_abs(v.y) * fx_abs(v.y)
                    && s as int == sx as int + sy as int && (fx_abs(v.x) == v.x as int || fx_abs(
                    v.x,
                ) == -(v.x as int)) && (fx_abs(v.y) == v.y as int || fx_abs(v.y) == -(v.y as int))
                    && norm_sq(v) == (v.x as int) * (v.x as int) + (v.y as int) * (v.y as int),
        ;
        assert(max as int * max as int <= 4_000_000_000_000_000_000) by (nonlinear_arith)
            requires
                0 <= max as int <= 2_000_000_000,
        ;
    }
    let m = max as u64;
    let mm = m * m;
    if s <= mm {
        return v;
    }
    let n = isqrt_ceil(s);
    proof {
        lemma_sqrt_exists(s as int);
        lemma_sqrt_ceil_unique(n as int, sqrt_ceil(s as int), s as int);
        assert(n > 0) by (nonlinear_arith)
            requires
                n as int * n as int >= s as int && s as int > mm as int && mm as int >= 0,
        ;
        assert(m <= n) by (nonlinear_arith)
            requires
                n as int > 0 && n as int * n as int >= s as int && s as int > m as int * m as int
                    && m as int >= 0,
        ;
        assert(ax as int * m as int <= 4_000_000_000_000_000_000) by (nonlinear_arith)
            requires
                0 <= ax as int <= 2_000_000_000 && 0 <= m as int <= 2_000_000_000,
        ;
        assert(ay as int * m as int <= 4_000_000_000_000_000_000) by (nonlinear_arith)
            requires
                0 <= ay as int <= 2_000_000_000 && 0 <= m as int <= 2_000_000_000,
        ;
    }
    let qx = ax * m / n;
    let qy = ay * m / n;
    proof {
        lemma_div_scale_le(ax as int, m as int, n as int);
        lemma_div_scale_le(ay as int, m as int, n as int);
    }
    let rx: i64 = if v.x < 0 {
        -(qx as i64)
    } else {
        qx as i64
    };
    let ry: i64 = if v.y < 0 {
        -(qy as i64)
    } else {
        qy as i64
    };
    let r = Vec2Fx { x: rx, y: ry };
    proof {
        lemma_clamp_components_in_range(v, max);
        assert(r.x as int == fx_signed(v.x, fx_abs(v.x) * (max as int) / sqrt_ceil(norm_sq(v))));
        assert(r.y as int == fx_signed(v.y, fx_abs(v.y) * (max as int) / sqrt_ceil(norm_sq(v))));
        assert(r == clamp_velocity_spec(v, max));
    }
    r
}

/// The first roster entry with the given id, if any.
pub open spec fn roster_lookup(roster: Seq<AgentInfo>, id: u32) -> Option<AgentInfo>
    decreases roster.len(),
{
    if roster.len() == 0 {
        None
    } else if roster[0].id == id {
        Some(roster[0])
    } else {
        roster_lookup(roster.drop_first(), id)
    }
}

/// A successful roster lookup hands back one of the roster's own entries.
pub proof fn lemma_roster_lookup_contains(roster: Seq<AgentInfo>, id: u32)
    ensures
        roster_lookup(roster, id) is Some ==> roster.contains(roster_lookup(roster, id).unwrap()),
    decreases roster.len(),
{
    if roster.len() > 0 && roster[0].id != id {
        lemma_roster_lookup_contains(roster.drop_first(), id);
        if roster_lookup(roster, id) is Some {
            let a = roster_lookup(roster, id).unwrap();
            assert(roster.drop_first().contains(a));
            let j = choose|j: int| 0 <= j < roster.drop_first().len() && roster.drop_first()[j]
                == a;
            assert(roster[j + 1] == a);
        }
    }
}

/// Every roster entry carries a speed limit in range.
pub open spec fn roster_wf(roster: Seq<AgentInfo>) -> bool {
    forall|i: int| 0 <= i < roster.len() ==> 0 <= #[trigger] roster[i].max_speed <= COORD_LIMIT
}

/// Every action asks for a velocity in range.
pub open spec fn actions_wf(actions: Seq<Action>) -> bool {
    forall|i: int|
        0 <= i < actions.len() ==> match #[trigger] actions[i] {
            Action::Move { id, velocity } => vec2_wf(velocity),
        }
}

/// The movement events one batch of actions produces: unknown agent ids
/// are skipped, everything else is applied at clamped speed, in order.
pub open spec fn resolve_batch_spec(actions: Seq<Action>, roster: Seq<AgentInfo>) -> Seq<
    MovementEvent,
>
    decreases actions.len(),
{
    if actions.len() == 0 {
        Seq::empty()
    } else {
        let rest = resolve_batch_spec(actions.drop_first(), roster);
        match actions[0] {
            Action::Move { id, velocity } => match roster_lookup(roster, id) {
                None => rest,
                Some(info) => seq![
                    MovementEvent::TranslateById(id, clamp_velocity_spec(velocity, info.max_speed)),
                ] + rest,
            },
        }
    }
}

/// Linear search of the roster.
fn find_agent(roster: &Vec<AgentInfo>, id: u32) -> (r: Option<AgentInfo>)
    ensures
        r == roster_lookup(roster@, id),
{
    let mut i: usize = 0;
    proof {
        assert(roster@.skip(0) =~= roster@);
    }
    while i < roster.len()
        invariant
            0 <= i <= roster@.len(),
            roster_lookup(roster@, id) == roster_lookup(roster@.skip(i as int), id),
        decreases roster@.len() - i,
    {
        if roster[i].id == id {
            assert(roster@.skip(i as int)[0] == roster@[i as int]);
            return Some(roster[i]);
        }
        proof {
            assert(roster@.skip(i as int).drop_first() =~= roster@.skip(i as int + 1));
        }
        i += 1;
    }
    proof {
        assert(roster@.skip(i as int).len() == 0);
    }
    None
}

/// Turns one action batch into movement events: ids not in the roster are
/// skipped, and every applied velocity is clamped to that agent's maximum.
pub fn resolve_batch(actions: &Vec<Action>, roster: &Vec<AgentInfo>) -> (r: Vec<MovementEvent>)
    requires
        actions_wf(actions@),
        roster_wf(roster@),
    ensures
        r@ == resolve_batch_spec(actions@, roster@),
{
    let mut out: Vec<MovementEvent> = Vec::new();
    let mut i: usize = 0;
    proof {
        assert(actions@.skip(0) =~= actions@);
    }
    while i < actions.len()
        invariant
            0 <= i <= actions@.len(),
            actions_wf(actions@),
            roster_wf(roster@),
            resolve_batch_spec(actions@, roster@) == out@ + resolve_batch_spec(
                actions@.skip(i as int),
                roster@,
            ),
        decreases actions@.len() - i,
    {
        let ghost pre = out@;
        let Action::Move { id, velocity } = actions[i];
        proof {
            assert(actions@.skip(i as int)[0] == actions@[i as int]);
            assert(actions@.skip(i as int).drop_first() =~= actions@.skip(i as int + 1));
        }
        match find_agent(roster, id) {
            None => {},
            Some(info) => {
                proof {
                    lemma_roster_lookup_contains(roster@, id);
                    assert(roster@.contains(info));
                    let j = choose|j: int| 0 <= j < roster@.len() && roster@[j] == info;
                    assert(0 <= roster@[j].max_speed <= COORD_LIMIT);
                }
                let clamped = clamp_velocity(velocity, info.max_speed);
                out.push(MovementEvent::TranslateById(id, clamped));
                proof {
                    assert(out@ =~= pre + seq![
                        MovementEvent::TranslateById(
                            id,
                            clamp_velocity_spec(velocity, info.max_speed),
                        ),
                    ]);
                }
            },
        }
        proof {
            assert(resolve_batch_spec(actions@, roster@) == out@ + resolve_batch_spec(
                actions@.skip(i as int + 1),
                roster@,
            ));
        }
        i += 1;
    }
    proof {
        assert(actions@.skip(actions@.len() as int).len() == 0);
        assert(resolve_batch_spec(actions@, roster@) =~= out@);
    }
    out
}

/// Whether every roster entry carries a speed limit in range: the
/// runtime check an unverified host makes before resolving actions.
pub fn roster_in_range(roster: &Vec<AgentInfo>) -> (r: bool)
    ensures
        r == roster_wf(roster@),
{
    let mut i: usize = 0;
    while i < roster.len()
        invariant
            0 <= i <= roster@.len(),
            forall|t: int| 0 <= t < i ==> 0 <= #[trigger] roster@[t].max_speed <= COORD_LIMIT,
        decreases roster@.len() - i,
    {
        let m = roster[i].max_speed;
        if !(0 <= m && m <= 2_000_000_000) {
            return false;
        }
        i += 1;
    }
    true
}


/// Rescaling preserves the request's direction: no component changes
/// sign, none grows, and a request already within the limit is applied
/// exactly as made.
pub proof fn lemma_clamp_preserves_direction(v: Vec2Fx, max: i64)
    requires
        vec2_wf(v),
        0 <= max <= COORD_LIMIT,
    ensures
        norm_sq(v) <= (max as int) * (max as int) ==> clamp_velocity_spec(v, max) == v,
        fx_abs(clamp_velocity_spec(v, max).x) <= fx_abs(v.x),
        fx_abs(clamp_velocity_spec(v, max).y) <= fx_abs(v.y),
        clamp_velocity_spec(v, max).x == 0 || (clamp_velocity_spec(v, max).x < 0) == (v.x < 0),
        clamp_velocity_spec(v, max).y == 0 || (clamp_velocity_spec(v, max).y < 0) == (v.y < 0),
{
    if norm_sq(v) > (max as int) * (max as int) {
        lemma_clamp_components_in_range(v, max);
    }
}


} // verus!
