//! The volume decision for one audio session.
//!
//! The platform reports a session's level as an IEEE 754 binary32 number in
//! `0.0..=1.0`. The library takes such a number by its bit pattern (what
//! `f32::to_bits` gives) and returns bit patterns, so that the decision is
//! made on plain integers. Two facts of the binary32 format carry the model:
//! a pattern is finite exactly when its exponent field is not all ones, and
//! among patterns whose sign bit is clear the numeric order is the order of
//! the patterns as unsigned integers.
use vstd::prelude::*;

verus! {

/// The pattern of the sign bit.
pub const SIGN_BIT: u32 = 0x8000_0000;

/// The pattern of positive infinity: the smallest pattern, sign bit cleared,
/// whose exponent field is all ones.
pub const INFINITY_BITS: u32 = 0x7F80_0000;

/// The pattern of `1.0`, the full session level.
pub const ONE_BITS: u32 = 0x3F80_0000;

/// The pattern of `0.995_f32`: a session at or above it is taken to be at the
/// platform's initial full level.
pub const FULL_LEVEL_THRESHOLD_BITS: u32 = 0x3F7E_B852;

/// The pattern holds a finite number (not an infinity and not a NaN).
pub open spec fn is_finite(bits: u32) -> bool {
    bits % SIGN_BIT < INFINITY_BITS
}

/// The sign bit of the pattern is set.
pub open spec fn is_sign_negative(bits: u32) -> bool {
    bits >= SIGN_BIT
}

/// The pattern that `f32::clamp(x, 0.0, 1.0)` returns for a finite `x`:
/// `-0.0` is kept, any other negative number becomes `0.0`, a number above
/// `1.0` becomes `1.0`.
pub open spec fn clamp_unit(bits: u32) -> u32 {
    if bits == SIGN_BIT {
        SIGN_BIT
    } else if is_sign_negative(bits) {
        0
    } else if bits > ONE_BITS {
        ONE_BITS
    } else {
        bits
    }
}

/// The position of a finite number, once clamped to `0.0..=1.0`, on the
/// level scale: of two finite patterns, the first clamps to a smaller number
/// exactly when its level is smaller, and to an equal number exactly when the
/// levels are equal.
pub open spec fn level(bits: u32) -> nat {
    if is_sign_negative(bits) {
        0
    } else if bits > ONE_BITS {
        ONE_BITS as nat
    } else {
        bits as nat
    }
}

/// What a session at `current` is set to, with `target` as the configured
/// level: nothing unless both are finite and `current` lies above `target`;
/// then `target`, clamped, where `cap` is set or `current` is at the full
/// level, and nothing otherwise.
pub open spec fn lowered_level(current: u32, target: u32, cap: bool) -> Option<u32> {
    if is_finite(current) && is_finite(target) && level(target) < level(current) && (cap
        || level(current) >= FULL_LEVEL_THRESHOLD_BITS) {
        Some(clamp_unit(target))
    } else {
        None
    }
}

/// The level to set a session to, or `None` to leave it as it is.
///
/// In default mode only a session that is effectively at the platform's
/// initial full level is touched; with `cap`, every session above the target
/// is lowered. The result is never above the session's level.
pub fn desired_volume(current: u32, target: u32, cap: bool) -> (r: Option<u32>)
    ensures
        r == lowered_level(current, target, cap),
        r is Some <==> (is_finite(current) && is_finite(target) && level(target) < level(current)
            && (cap || level(current) >= FULL_LEVEL_THRESHOLD_BITS)),
        r matches Some(v) ==> v == clamp_unit(target),
{
    if current % SIGN_BIT >= INFINITY_BITS || target % SIGN_BIT >= INFINITY_BITS {
        return None;
    }
    let current = clamp_bits(current);
    let target = clamp_bits(target);
    let current_level = if current >= SIGN_BIT {
        0
    } else {
        current
    };
    let target_level = if target >= SIGN_BIT {
        0
    } else {
        target
    };
    if current_level <= target_level {
        return None;
    }
    if cap || current_level >= FULL_LEVEL_THRESHOLD_BITS {
        Some(target)
    } else {
        None
    }
}

/// `f32::clamp(x, 0.0, 1.0)` on the pattern of a finite `x`.
fn clamp_bits(bits: u32) -> (r: u32)
    ensures
        r == clamp_unit(bits),
{
    if bits == SIGN_BIT {
        SIGN_BIT
    } else if bits > SIGN_BIT {
        0
    } else if bits > ONE_BITS {
        ONE_BITS
    } else {
        bits
    }
}

/// Whether a session is left alone before its level is read: the system
/// sounds session is, unless `include_system` asks for it. `system_sounds` is
/// what the platform answered when asked whether the session is the system
/// sounds session, or `None` where it could not be asked.
pub fn skips_session(include_system: bool, system_sounds: Option<bool>) -> (r: bool)
    ensures
        r == (!include_system && system_sounds == Some(true)),
{
    if include_system {
        return false;
    }
    match system_sounds {
        Some(is_system) => is_system,
        None => false,
    }
}

/// A session is never raised: where a level is set, it lies below the level
/// the session had.
pub proof fn law_never_raises(current: u32, target: u32, cap: bool)
    ensures
        lowered_level(current, target, cap) matches Some(v) ==> level(v) < level(current)
            && is_finite(v),
{
}

/// A session at or below the target is left alone, in either mode.
pub proof fn law_quiet_session_kept(current: u32, target: u32, cap: bool)
    requires
        level(current) <= level(target),
    ensures
        lowered_level(current, target, cap) is None,
{
}

/// A session that was lowered is not lowered again: the new level, seen as
/// the session's level, asks for no further change in either mode.
pub proof fn law_lowering_settles(current: u32, target: u32, cap: bool, cap_again: bool)
    ensures
        lowered_level(current, target, cap) matches Some(v) ==> lowered_level(
            v,
            target,
            cap_again,
        ) is None,
{
}

/// Cap mode lowers every session that default mode lowers, to the same
/// level.
pub proof fn law_cap_extends_default(current: u32, target: u32)
    ensures
        lowered_level(current, target, false) is Some ==> lowered_level(current, target, true)
            == lowered_level(current, target, false),
{
}

/// In cap mode, every finite session above a finite target is brought down
/// to the target.
pub proof fn law_cap_bounds_every_session(current: u32, target: u32)
    requires
        is_finite(current),
        is_finite(target),
        level(target) < level(current),
    ensures
        lowered_level(current, target, true) == Some(clamp_unit(target)),
        level(clamp_unit(target)) == level(target),
{
}

/// A number that is not finite, in either place, changes nothing.
pub proof fn law_non_finite_ignored(current: u32, target: u32, cap: bool)
    requires
        !is_finite(current) || !is_finite(target),
    ensures
        lowered_level(current, target, cap) is None,
{
}

/// Within the level scale `0.0..=1.0` the decision reads the numbers as they
/// are: a session at `current` with the configured `target`, both patterns of
/// non-negative numbers not above `1.0` (`0x3F80_0000`), is set to `target`
/// exactly when `current` is the larger number and either `cap` is set or
/// `current` is at least `0.995_f32` (`0x3F7E_B852`); otherwise it is left
/// alone.
pub proof fn law_unit_range_decision(current: u32, target: u32, cap: bool)
    requires
        current <= 0x3F80_0000,
        target <= 0x3F80_0000,
    ensures
        lowered_level(current, target, cap) == (if target < current && (cap || current
            >= 0x3F7E_B852) {
            Some(target)
        } else {
            None
        }),
{
    law_level_follows_number(current);
    law_level_follows_number(target);
    law_finite_is_exponent_not_all_ones(current);
    law_finite_is_exponent_not_all_ones(target);
}

/// The level of a non-negative number not above `1.0` is its pattern, a
/// larger non-negative pattern never has a smaller level, a negative number
/// has level zero and a number above `1.0` has the level of `1.0`. Clamping
/// keeps a number of `0.0..=1.0` as it is.
pub proof fn law_level_follows_number(bits: u32)
    ensures
        bits <= 0x3F80_0000 ==> level(bits) == bits && clamp_unit(bits) == bits,
        0x3F80_0000 < bits < 0x8000_0000 ==> level(bits) == 0x3F80_0000 && clamp_unit(bits)
            == 0x3F80_0000,
        bits >= 0x8000_0000 ==> level(bits) == 0,
        forall|other: u32| bits <= other < 0x8000_0000 ==> level(bits) <= #[trigger] level(other),
{
}

/// A pattern is finite exactly when its exponent field (bits 23 to 30) is
/// not all ones.
pub proof fn law_finite_is_exponent_not_all_ones(bits: u32)
    ensures
        is_finite(bits) <==> (bits & 0x7F80_0000) != 0x7F80_0000,
{
    assert(bits % 0x8000_0000 == bits & 0x7FFF_FFFF) by (bit_vector);
    assert(((bits & 0x7FFF_FFFF) < 0x7F80_0000) <==> ((bits & 0x7F80_0000) != 0x7F80_0000))
        by (bit_vector);
}

} // verus!
