//! Card positions: the resting position of each slot, the smoothing step that
//! eases a card toward it, and the pointer follow of a held card.
//!
//! Positions are whole world units. A smoothing step moves a coordinate by a
//! share of its distance to the target, given in thousandths (`blend`) and
//! rounded up, so that every step with a positive share makes progress and no
//! step passes the target.
use vstd::prelude::*;

verus! {

/// Horizontal distance between neighbouring slots.
pub const SLOT_SPACING: i64 = 100;

/// Height of the row of slots.
pub const HAND_Y: i64 = -500;

/// The denominator of a blend share: `blend` thousandths of the distance.
pub const BLEND_SCALE: u32 = 1000;

/// The largest slot whose horizontal position fits in an `i64`.
pub const MAX_SLOT: u64 = 9223372036854775807 / 100;

/// A position in world units.
#[derive(PartialEq, Eq, Structural, Clone, Copy, Debug)]
pub struct Position {
    pub x: i64,
    pub y: i64,
    pub z: i64,
}

/// The resting position of slot `slot`.
pub open spec fn slot_position(slot: int) -> Position {
    Position { x: (slot * SLOT_SPACING) as i64, y: HAND_Y, z: 0 }
}

/// `a / b`, rounded up.
pub open spec fn ceil_div(a: int, b: int) -> int {
    (a + b - 1) / b
}

/// One smoothing step of coordinate `cur` toward `target`: it moves by
/// `blend` thousandths of the distance, rounded up.
pub open spec fn approach_spec(cur: int, target: int, blend: int) -> int {
    if cur <= target {
        cur + ceil_div((target - cur) * blend, BLEND_SCALE as int)
    } else {
        cur - ceil_div((cur - target) * blend, BLEND_SCALE as int)
    }
}

/// One smoothing step of every coordinate of `pos` toward `target`.
pub open spec fn settle_spec(pos: Position, target: Position, blend: int) -> Position {
    Position {
        x: approach_spec(pos.x as int, target.x as int, blend) as i64,
        y: approach_spec(pos.y as int, target.y as int, blend) as i64,
        z: approach_spec(pos.z as int, target.z as int, blend) as i64,
    }
}

/// A held card's position under the pointer: `x` and `y` from the pointer's
/// world coordinates where they are known, the depth kept.
pub open spec fn follow_spec(pos: Position, pointer: Option<(i64, i64)>) -> Position {
    match pointer {
        Some((x, y)) => Position { x, y, z: pos.z },
        None => pos,
    }
}

/// The distance between two coordinates.
pub open spec fn dist(a: int, b: int) -> int {
    if a <= b {
        b - a
    } else {
        a - b
    }
}

/// Coordinate `cur` after `n` smoothing steps toward a fixed target.
pub open spec fn approach_n(cur: int, target: int, blend: int, n: nat) -> int
    decreases n,
{
    if n == 0 {
        cur
    } else {
        approach_spec(approach_n(cur, target, blend, (n - 1) as nat), target, blend)
    }
}

/// The share rounded up of a distance is at most the distance, and is
/// positive when both the distance and the share are.
proof fn lemma_ceil_share(d: int, blend: int)
    requires
        0 <= d,
        0 <= blend <= BLEND_SCALE,
    ensures
        0 <= ceil_div(d * blend, BLEND_SCALE as int) <= d,
        d > 0 && blend > 0 ==> ceil_div(d * blend, BLEND_SCALE as int) >= 1,
        blend == BLEND_SCALE ==> ceil_div(d * blend, BLEND_SCALE as int) == d,
{
    assert(0 <= d * blend <= d * 1000) by (nonlinear_arith)
        requires
            0 <= d,
            0 <= blend <= 1000,
    ;
    assert(d > 0 && blend > 0 ==> d * blend >= 1) by (nonlinear_arith);
    assert(blend == 1000 ==> d * blend == d * 1000);
}

/// One smoothing step lands between the coordinate and its target, moves
/// strictly closer when the share is positive and the target is not yet
/// reached, and lands on the target when the share is whole.
pub proof fn lemma_approach_step(cur: int, target: int, blend: int)
    requires
        0 <= blend <= BLEND_SCALE,
    ensures
        dist(approach_spec(cur, target, blend), target) <= dist(cur, target),
        dist(cur, approach_spec(cur, target, blend)) <= dist(cur, target),
        blend > 0 && cur != target ==> dist(approach_spec(cur, target, blend), target) < dist(
            cur,
            target,
        ),
        blend == BLEND_SCALE ==> approach_spec(cur, target, blend) == target,
{
    if cur <= target {
        lemma_ceil_share(target - cur, blend);
    } else {
        lemma_ceil_share(cur - target, blend);
    }
}

/// Settling toward a fixed target with a constant positive share never ends
/// farther from the target than it started, comes at least one unit closer
/// each frame until it arrives, and so reaches the target within as many
/// frames as the starting distance.
pub proof fn lemma_settle_converges(cur: int, target: int, blend: int, n: nat)
    requires
        0 < blend <= BLEND_SCALE,
    ensures
        dist(approach_n(cur, target, blend, n), target) <= dist(cur, target),
        dist(approach_n(cur, target, blend, n), target) <= if n <= dist(cur, target) {
            dist(cur, target) - n
        } else {
            0
        },
        n >= dist(cur, target) ==> approach_n(cur, target, blend, n) == target,
    decreases n,
{
    if n > 0 {
        lemma_settle_converges(cur, target, blend, (n - 1) as nat);
        lemma_approach_step(approach_n(cur, target, blend, (n - 1) as nat), target, blend);
    }
}

/// The resting position of slot `slot`.
pub fn slot_target(slot: usize) -> (r: Position)
    requires
        slot as int <= MAX_SLOT as int,
    ensures
        r == slot_position(slot as int),
        r.x == slot as int * SLOT_SPACING,
{
    Position { x: slot as i64 * SLOT_SPACING, y: HAND_Y, z: 0 }
}

/// One smoothing step of coordinate `cur` toward `target`.
pub fn approach(cur: i64, target: i64, blend: u32) -> (r: i64)
    requires
        blend <= BLEND_SCALE,
    ensures
        r as int == approach_spec(cur as int, target as int, blend as int),
{
    proof {
        lemma_approach_step(cur as int, target as int, blend as int);
    }
    let c = cur as i128;
    let t = target as i128;
    let b = blend as i128;
    if c <= t {
        let d: i128 = t - c;
        assert(d * b <= d * 1000) by (nonlinear_arith)
            requires
                0 <= d,
                b <= 1000,
        ;
        assert(0 <= d * b) by (nonlinear_arith)
            requires
                0 <= d,
                0 <= b,
        ;
        let step: i128 = (d * b + 999) / 1000;
        (c + step) as i64
    } else {
        let d: i128 = c - t;
        assert(d * b <= d * 1000) by (nonlinear_arith)
            requires
                0 <= d,
                b <= 1000,
        ;
        assert(0 <= d * b) by (nonlinear_arith)
            requires
                0 <= d,
                0 <= b,
        ;
        let step: i128 = (d * b + 999) / 1000;
        (c - step) as i64
    }
}

/// One smoothing step of every coordinate of `pos` toward `target`.
pub fn settle(pos: Position, target: Position, blend: u32) -> (r: Position)
    requires
        blend <= BLEND_SCALE,
    ensures
        r.x == approach_spec(pos.x as int, target.x as int, blend as int),
        r.y == approach_spec(pos.y as int, target.y as int, blend as int),
        r.z == approach_spec(pos.z as int, target.z as int, blend as int),
        r == settle_spec(pos, target, blend as int),
{
    Position {
        x: approach(pos.x, target.x, blend),
        y: approach(pos.y, target.y, blend),
        z: approach(pos.z, target.z, blend),
    }
}

/// A held card's position under the pointer: where the pointer's world
/// coordinates are known, they replace `x` and `y` and the depth is kept;
/// otherwise the position stays as it was.
pub fn follow_pointer(pos: Position, pointer: Option<(i64, i64)>) -> (r: Position)
    ensures
        r == follow_spec(pos, pointer),
{
    match pointer {
        Some((x, y)) => Position { x, y, z: pos.z },
        None => pos,
    }
}

} // verus!
