use vstd::prelude::*;

verus! {

/// A point (or an accumulated offset) on the 2D play plane, in integer units.
#[derive(Clone, Copy, PartialEq, Eq, Structural, Debug)]
pub struct Pos2 {
    pub x: i64,
    pub y: i64,
}

/// Width and height of an axis-aligned bounding box, in integer units.
#[derive(Clone, Copy, PartialEq, Eq, Structural, Debug)]
pub struct Size2 {
    pub x: u32,
    pub y: u32,
}

pub open spec fn abs_val(v: int) -> int {
    if v < 0 { -v } else { v }
}

/// Two boxes centered at `a` and `b` overlap when, on both axes, twice the
/// distance between the centers stays strictly under the sum of the extents.
pub open spec fn overlaps(a: Pos2, a_size: Size2, b: Pos2, b_size: Size2) -> bool {
    &&& 2 * abs_val(a.x - b.x) < a_size.x + b_size.x
    &&& 2 * abs_val(a.y - b.y) < a_size.y + b_size.y
}

/// Axis-aligned bounding-box test between a box at `a` and a box at `b`.
pub fn boxes_overlap(a: Pos2, a_size: Size2, b: Pos2, b_size: Size2) -> (r: bool)
    ensures
        r == overlaps(a, a_size, b, b_size),
{
    let dx: i128 = (a.x as i128) - (b.x as i128);
    let dx_abs: i128 = if dx < 0 { -dx } else { dx };
    let sum_x: i128 = (a_size.x as i128) + (b_size.x as i128);
    let dy: i128 = (a.y as i128) - (b.y as i128);
    let dy_abs: i128 = if dy < 0 { -dy } else { dy };
    let sum_y: i128 = (a_size.y as i128) + (b_size.y as i128);
    2 * dx_abs < sum_x && 2 * dy_abs < sum_y
}

/// `i64` addition clamped at the ends of the representable range.
pub open spec fn spec_sat_add_i64(a: int, b: int) -> int {
    if a + b > i64::MAX {
        i64::MAX as int
    } else if a + b < i64::MIN {
        i64::MIN as int
    } else {
        a + b
    }
}

pub fn sat_add_i64(a: i64, b: i64) -> (r: i64)
    ensures
        r == spec_sat_add_i64(a as int, b as int),
{
    if b >= 0 {
        if a <= i64::MAX - b {
            a + b
        } else {
            i64::MAX
        }
    } else {
        if a >= i64::MIN - b {
            a + b
        } else {
            i64::MIN
        }
    }
}

/// `u64` addition clamped at the top of the representable range.
pub open spec fn spec_sat_add_u64(a: int, b: int) -> int {
    if a + b > u64::MAX {
        u64::MAX as int
    } else {
        a + b
    }
}

pub fn sat_add_u64(a: u64, b: u64) -> (r: u64)
    ensures
        r == spec_sat_add_u64(a as int, b as int),
{
    if a <= u64::MAX - b {
        a + b
    } else {
        u64::MAX
    }
}

} // verus!
