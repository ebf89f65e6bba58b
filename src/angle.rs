//! Angles in tenths of a degree, and a fixed-point sine and cosine.
use vstd::prelude::*;

verus! {

/// One full turn, in tenths of a degree.
pub const FULL_TURN: u32 = 3600;

/// Half a turn, in tenths of a degree.
pub const HALF_TURN: u32 = 1800;

/// A quarter turn, in tenths of a degree.
pub const QUARTER_TURN: u32 = 900;

/// The fixed-point value that stands for 1.
pub const TRIG_ONE: i64 = 16384;

/// An angle in its canonical range `[0, FULL_TURN)`.
pub open spec fn angle_in_range(a: int) -> bool {
    0 <= a < FULL_TURN
}

/// `a + delta` brought into `[0, FULL_TURN)`.
pub open spec fn normalized(a: int, delta: int) -> int {
    (a + delta) % (FULL_TURN as int)
}

/// Bhaskara's rational approximation of the sine on the first half turn,
/// for `t` in `[0, HALF_TURN]` tenths of a degree, scaled by `TRIG_ONE`.
pub open spec fn sine_half_turn(t: int) -> int {
    let p = t * (HALF_TURN - t);
    (TRIG_ONE * 4 * p) / (4050000 - p)
}

/// The fixed-point sine of an angle in `[0, FULL_TURN)`.
pub open spec fn sine_of(a: int) -> int {
    if a < HALF_TURN {
        sine_half_turn(a)
    } else {
        -sine_half_turn(a - HALF_TURN)
    }
}

/// The fixed-point cosine of an angle in `[0, FULL_TURN)`.
pub open spec fn cosine_of(a: int) -> int {
    sine_of((a + QUARTER_TURN) % (FULL_TURN as int))
}

proof fn lemma_sine_half_turn_bounds(t: int)
    requires
        0 <= t <= HALF_TURN,
    ensures
        0 <= t * (HALF_TURN - t) <= 810000,
        0 <= sine_half_turn(t) <= TRIG_ONE,
{
    let p = t * (HALF_TURN - t);
    assert(0 <= p) by (nonlinear_arith)
        requires
            0 <= t <= 1800,
            p == t * (1800 - t),
    ;
    assert(p <= 810000) by (nonlinear_arith)
        requires
            p == t * (1800 - t),
    {
        assert(p == 810000 - (t - 900) * (t - 900));
    }
    let num = TRIG_ONE * 4 * p;
    let den = 4050000 - p;
    assert(num <= TRIG_ONE * den) by (nonlinear_arith)
        requires
            num == 16384 * 4 * p,
            den == 4050000 - p,
            p <= 810000,
    ;
    assert(0 <= num / den <= TRIG_ONE) by (nonlinear_arith)
        requires
            0 <= num <= 16384 * den,
            den > 0,
    {
        vstd::arithmetic::div_mod::lemma_div_is_ordered(num, TRIG_ONE * den, den);
        vstd::arithmetic::div_mod::lemma_div_by_multiple(TRIG_ONE as int, den);
        vstd::arithmetic::div_mod::lemma_div_pos_is_pos(num, den);
    }
}

/// The sine and cosine of every angle lie in `[-TRIG_ONE, TRIG_ONE]`.
pub proof fn lemma_trig_bounds(a: int)
    requires
        angle_in_range(a),
    ensures
        -TRIG_ONE <= sine_of(a) <= TRIG_ONE,
        -TRIG_ONE <= cosine_of(a) <= TRIG_ONE,
{
    if a < HALF_TURN {
        lemma_sine_half_turn_bounds(a);
    } else {
        lemma_sine_half_turn_bounds(a - HALF_TURN);
    }
    let c = (a + QUARTER_TURN) % (FULL_TURN as int);
    if c < HALF_TURN {
        lemma_sine_half_turn_bounds(c);
    } else {
        lemma_sine_half_turn_bounds(c - HALF_TURN);
    }
}

fn sine_half_turn_exec(t: u32) -> (r: i64)
    requires
        t <= HALF_TURN,
    ensures
        r == sine_half_turn(t as int),
        0 <= r <= TRIG_ONE,
{
    proof {
        lemma_sine_half_turn_bounds(t as int);
    }
    let p: u64 = (t as u64) * ((HALF_TURN - t) as u64);
    assert(65536 * p <= 65536 * 810000) by (nonlinear_arith)
        requires
            p <= 810000,
    ;
    let num: u64 = 65536 * p;
    let den: u64 = 4050000 - p;
    (num / den) as i64
}

/// The fixed-point sine of `a`.
pub fn sine(a: u32) -> (r: i64)
    requires
        angle_in_range(a as int),
    ensures
        r == sine_of(a as int),
        -TRIG_ONE <= r <= TRIG_ONE,
{
    proof {
        lemma_trig_bounds(a as int);
    }
    if a < HALF_TURN {
        sine_half_turn_exec(a)
    } else {
        -sine_half_turn_exec(a - HALF_TURN)
    }
}

/// The fixed-point cosine of `a`.
pub fn cosine(a: u32) -> (r: i64)
    requires
        angle_in_range(a as int),
    ensures
        r == cosine_of(a as int),
        -TRIG_ONE <= r <= TRIG_ONE,
{
    proof {
        lemma_trig_bounds(a as int);
    }
    sine((a + QUARTER_TURN) % FULL_TURN)
}

/// Adds a signed offset of less than a full turn to an angle and brings the
/// sum back into `[0, FULL_TURN)`.
pub fn rotate_angle(a: u32, delta: i32) -> (r: u32)
    requires
        angle_in_range(a as int),
        -(FULL_TURN as int) < delta < FULL_TURN,
    ensures
        r == normalized(a as int, delta as int),
        angle_in_range(r as int),
{
    let shifted: u32 = ((a as i64) + (FULL_TURN as i64) + (delta as i64)) as u32;
    proof {
        vstd::arithmetic::div_mod::lemma_mod_add_multiples_vanish(a + delta, FULL_TURN as int);
    }
    shifted % FULL_TURN
}

} // verus!
