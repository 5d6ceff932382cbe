//! Saturating 32-bit arithmetic for battle statistics.
//!
//! Hit points, attack, defense and action points are `i32` values.  Every
//! mutation of such a statistic goes through the helpers here, which saturate
//! at the `i32` bounds; the contracts state the result exactly over `int`.

use vstd::prelude::*;

verus! {

/// Clamps a mathematical integer into the `i32` range.
pub open spec fn clip_i32(x: int) -> int {
    if x < -0x8000_0000 {
        -0x8000_0000
    } else if x > 0x7fff_ffff {
        0x7fff_ffff
    } else {
        x
    }
}

/// The damage one combatant deals to another: attack minus defense, never
/// negative, saturated into the `i32` range.
pub open spec fn damage_of(atk: int, def: int) -> int {
    if atk - def > 0 {
        clip_i32(atk - def)
    } else {
        0
    }
}

/// Saturating addition on `i32`.
pub fn sat_add(a: i32, b: i32) -> (r: i32)
    ensures
        r as int == clip_i32(a + b),
{
    let wide: i64 = a as i64 + b as i64;
    if wide < i32::MIN as i64 {
        i32::MIN
    } else if wide > i32::MAX as i64 {
        i32::MAX
    } else {
        wide as i32
    }
}

/// Saturating subtraction on `i32`.
pub fn sat_sub(a: i32, b: i32) -> (r: i32)
    ensures
        r as int == clip_i32(a - b),
{
    let wide: i64 = a as i64 - b as i64;
    if wide < i32::MIN as i64 {
        i32::MIN
    } else if wide > i32::MAX as i64 {
        i32::MAX
    } else {
        wide as i32
    }
}

/// Attack-minus-defense damage, never negative.
pub fn damage(atk: i32, def: i32) -> (r: i32)
    ensures
        r as int == damage_of(atk as int, def as int),
        r >= 0,
{
    let wide: i64 = atk as i64 - def as i64;
    if wide <= 0 {
        0
    } else if wide > i32::MAX as i64 {
        i32::MAX
    } else {
        wide as i32
    }
}

} // verus!
