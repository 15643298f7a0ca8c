//! From beats at a tempo to milliseconds.

use vstd::prelude::*;
use crate::error::KeyboardError;
use crate::score::Beats;

verus! {

/// Milliseconds in a minute.
pub const MS_PER_MINUTE: u64 = 60_000;

/// Thousandths in a beat.
pub const PARTS_PER_BEAT: u64 = 1000;

/// The integer nearest to `n / d`; a value halfway between two integers goes up.
pub open spec fn nearest(n: int, d: int) -> int {
    (2 * n + d) / (2 * d)
}

/// The hold, in milliseconds, for `beats` at `bpm` beats per minute: one beat
/// lasts `60000 / bpm` ms, and the product is rounded to the nearest millisecond.
pub open spec fn hold_ms(bpm: u8, beats: Beats) -> int {
    nearest(MS_PER_MINUTE * beats.thousandths, PARTS_PER_BEAT * bpm)
}

/// `nearest(n, d)` is the one integer within half a unit of `n / d`, the upper
/// one of the two where `n / d` lies halfway.
pub proof fn lemma_nearest(n: int, d: int, h: int)
    requires
        0 <= n,
        0 < d,
    ensures
        2 * n - d < 2 * d * nearest(n, d) <= 2 * n + d,
        0 <= nearest(n, d),
        (2 * n - d < 2 * d * h <= 2 * n + d) ==> h == nearest(n, d),
{
    let q = nearest(n, d);
    let m = 2 * d;
    vstd::arithmetic::div_mod::lemma_fundamental_div_mod(2 * n + d, m);
    vstd::arithmetic::div_mod::lemma_mod_bound(2 * n + d, m);
    vstd::arithmetic::div_mod::lemma_div_pos_is_pos(2 * n + d, m);
    assert(2 * d * q == m * q);
    if 2 * n - d < 2 * d * h <= 2 * n + d {
        assert(2 * d * h == m * h);
        assert(h == q) by (nonlinear_arith)
            requires
                0 < m,
                m * q <= 2 * n + d < m * q + m,
                m * h <= 2 * n + d < m * h + m,
        ;
    }
}

/// The hold for `beats` at `bpm` beats per minute, in milliseconds.
///
/// A tempo of zero is refused before anything is computed.
pub fn hold_millis(bpm: u8, beats: Beats) -> (r: Result<u64, KeyboardError>)
    ensures
        match r {
            Ok(ms) => bpm > 0 && ms == hold_ms(bpm, beats),
            Err(e) => bpm == 0 && e == KeyboardError::InvalidTempo,
        },
{
    if bpm == 0 {
        return Err(KeyboardError::InvalidTempo);
    }
    let exact: u64 = MS_PER_MINUTE * (beats.thousandths as u64);
    let unit: u64 = PARTS_PER_BEAT * (bpm as u64);
    proof {
        lemma_nearest(exact as int, unit as int, 0);
        assert(2 * unit * hold_ms(bpm, beats) <= 2 * exact + unit);
        assert(hold_ms(bpm, beats) <= 2 * exact + unit) by (nonlinear_arith)
            requires
                0 <= hold_ms(bpm, beats),
                0 < unit,
                2 * unit * hold_ms(bpm, beats) <= 2 * exact + unit,
        ;
    }
    Ok((2 * exact + unit) / (2 * unit))
}

} // verus!
