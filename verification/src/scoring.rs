//! Penalties and how they grow with repeated offences.
//!
//! All amounts are in thousandths of a point. The `n`-th offence of a peer
//! costs the base penalty times `1 + scale * (n - 1)`, where `scale` is given
//! in thousandths; the product is rounded toward zero and kept within `i64`.

use vstd::prelude::*;

verus! {

/// Base penalty for a message over the size gate.
pub const OVERSIZE_PENALTY: i64 = -60_000;

/// Base penalty for a message from a forwarder whose bucket is empty.
pub const RATE_LIMIT_PENALTY: i64 = -5_000;

/// Base penalty for bytes that are no message.
pub const DECODE_PENALTY: i64 = -30_000;

/// Base penalty for a `Good` message without payload.
pub const EMPTY_PAYLOAD_PENALTY: i64 = -30_000;

/// Base penalty for a `Bad` message.
pub const MALICIOUS_PENALTY: i64 = -80_000;

/// The nearest `i64` to `x`.
pub open spec fn clamp_i64(x: int) -> i64 {
    if x > i64::MAX {
        i64::MAX
    } else if x < i64::MIN {
        i64::MIN
    } else {
        x as i64
    }
}

/// Thousandths by which the base penalty of offence number `offences` is
/// multiplied.
pub open spec fn escalation_factor(offences: u32, scale: u32) -> int {
    if offences == 0 {
        1000
    } else {
        1000 + scale * (offences - 1)
    }
}

/// Size of the penalty for offence number `offences`, before it is fitted
/// into `i64`.
pub open spec fn scaled_magnitude(base: i64, offences: u32, scale: u32) -> int {
    let magnitude: int = if base >= 0 {
        base as int
    } else {
        -base
    };
    magnitude * escalation_factor(offences, scale) / 1000
}

/// Change of score for offence number `offences` with base penalty `base`.
pub open spec fn effective_delta(base: i64, offences: u32, scale: u32) -> i64 {
    if base >= 0 {
        clamp_i64(scaled_magnitude(base, offences, scale))
    } else {
        clamp_i64(-scaled_magnitude(base, offences, scale))
    }
}

/// Computes [`effective_delta`].
pub fn escalate(base: i64, offences: u32, scale: u32) -> (delta: i64)
    ensures
        delta == effective_delta(base, offences, scale),
{
    let magnitude: u128 = if base >= 0 {
        base as u128
    } else {
        (-(base as i128)) as u128
    };
    let earlier: u128 = if offences == 0 {
        0
    } else {
        (offences - 1) as u128
    };
    assert(scale * earlier <= 0xffff_ffff * 0xffff_ffff) by (nonlinear_arith)
        requires
            0 <= scale <= 0xffff_ffff,
            0 <= earlier <= 0xffff_ffff,
    ;
    let factor: u128 = 1000 + scale as u128 * earlier;
    assert(factor == escalation_factor(offences, scale));
    assert(0 <= magnitude * factor <= 0x8000_0000_0000_0000 * 0x1_0000_0000_0000_0000)
        by (nonlinear_arith)
        requires
            0 <= magnitude <= 0x8000_0000_0000_0000,
            0 <= factor <= 0x1_0000_0000_0000_0000,
    ;
    let scaled: u128 = magnitude * factor / 1000;
    assert(scaled == scaled_magnitude(base, offences, scale));
    if base >= 0 {
        if scaled > i64::MAX as u128 {
            i64::MAX
        } else {
            scaled as i64
        }
    } else {
        if scaled >= 0x8000_0000_0000_0000 {
            i64::MIN
        } else {
            -(scaled as i64)
        }
    }
}

/// Adds a change to a score, stopping at the ends of `i64`.
pub fn add_to_score(score: i64, delta: i64) -> (sum: i64)
    ensures
        sum == clamp_i64(score + delta),
{
    let wide: i128 = score as i128 + delta as i128;
    if wide > i64::MAX as i128 {
        i64::MAX
    } else if wide < i64::MIN as i128 {
        i64::MIN
    } else {
        wide as i64
    }
}

/// A penalty never turns into a reward, nor a reward into a penalty.
pub proof fn law_delta_keeps_sign(base: i64, offences: u32, scale: u32)
    ensures
        base <= 0 ==> effective_delta(base, offences, scale) <= 0,
        base >= 0 ==> effective_delta(base, offences, scale) >= 0,
        offences <= 1 ==> effective_delta(base, offences, scale) == base,
{
    let magnitude: int = if base >= 0 {
        base as int
    } else {
        -base
    };
    let factor = escalation_factor(offences, scale);
    assert(factor >= 1000) by (nonlinear_arith)
        requires
            factor == escalation_factor(offences, scale),
    ;
    assert(magnitude * factor >= 0) by (nonlinear_arith)
        requires
            magnitude >= 0,
            factor >= 0,
    ;
    assert(magnitude * factor / 1000 >= 0);
    if base == 0 {
        assert(magnitude * factor == 0) by (nonlinear_arith)
            requires
                magnitude == 0,
        ;
    }
    if offences <= 1 {
        assert(factor == 1000) by (nonlinear_arith)
            requires
                factor == escalation_factor(offences, scale),
                offences <= 1,
        ;
        assert(magnitude * 1000 / 1000 == magnitude);
    }
}

/// With the same base penalty, a later offence costs at least as much as
/// an earlier one.
pub proof fn law_escalation_is_monotonic(base: i64, earlier: u32, later: u32, scale: u32)
    requires
        1 <= earlier <= later,
    ensures
        scaled_magnitude(base, earlier, scale) <= scaled_magnitude(base, later, scale),
        base <= 0 ==> effective_delta(base, later, scale) <= effective_delta(
            base,
            earlier,
            scale,
        ) <= 0,
        base >= 0 ==> effective_delta(base, later, scale) >= effective_delta(
            base,
            earlier,
            scale,
        ) >= 0,
{
    let magnitude: int = if base >= 0 {
        base as int
    } else {
        -base
    };
    let f1 = escalation_factor(earlier, scale);
    let f2 = escalation_factor(later, scale);
    assert(0 <= f1 <= f2) by (nonlinear_arith)
        requires
            f1 == 1000 + scale * (earlier - 1),
            f2 == 1000 + scale * (later - 1),
            1 <= earlier <= later,
            scale >= 0,
    ;
    assert(0 <= magnitude * f1 <= magnitude * f2) by (nonlinear_arith)
        requires
            magnitude >= 0,
            0 <= f1 <= f2,
    ;
    assert(magnitude * f1 / 1000 <= magnitude * f2 / 1000) by (nonlinear_arith)
        requires
            0 <= magnitude * f1 <= magnitude * f2,
    ;
    law_delta_keeps_sign(base, earlier, scale);
    law_delta_keeps_sign(base, later, scale);
}

/// With the default scale, offence number `n` costs `(n + 1) / 2` base
/// penalties.
pub proof fn law_default_escalation(base: i64, offences: u32)
    requires
        offences >= 1,
        -1_000_000_000 <= base <= 1_000_000_000,
        base % 1000 == 0,
    ensures
        effective_delta(base, offences, 500) == (base / 1000) * 500 * (offences + 1),
{
    let magnitude: int = if base >= 0 {
        base as int
    } else {
        -base
    };
    let points = magnitude / 1000;
    assert(magnitude == points * 1000);
    let factor = escalation_factor(offences, 500);
    assert(factor == 500 * (offences + 1));
    assert(magnitude * factor == (points * 500 * (offences + 1)) * 1000) by (nonlinear_arith)
        requires
            magnitude == points * 1000,
            factor == 500 * (offences + 1),
    ;
    assert(magnitude * factor / 1000 == points * 500 * (offences + 1));
    assert(0 <= points * 500 * (offences + 1) <= 1_000_000 * 500 * 0x1_0000_0000)
        by (nonlinear_arith)
        requires
            0 <= points <= 1_000_000,
            1 <= offences <= 0xffff_ffff,
    ;
    if base < 0 {
        assert(base / 1000 == -points);
        assert((base / 1000) * 500 * (offences + 1) == -(points * 500 * (offences + 1)))
            by (nonlinear_arith)
            requires
                base / 1000 == -points,
        ;
    } else {
        assert(base / 1000 == points);
    }
}

} // verus!
