use vstd::prelude::*;

verus! {

/// One, in parts per million.
pub const ONE_PPM: u64 = 1_000_000;

/// `q` raised to the power `n` in parts per million, rounding down after
/// every multiplication.
pub open spec fn pow_ppm(q: int, n: nat) -> int
    decreases n,
{
    if n == 0 {
        ONE_PPM as int
    } else {
        pow_ppm(q, (n - 1) as nat) * q / (ONE_PPM as int)
    }
}

/// Survival over a partial period that covers `frac` parts per million of a
/// whole one, interpolated linearly between `1` and `q`; a certain event
/// leaves no survival over any part of a period.
pub open spec fn partial_ppm(q: int, frac: int) -> int {
    if q == 0 && frac > 0 {
        0
    } else {
        ONE_PPM - ((ONE_PPM - q) * frac) / (ONE_PPM as int)
    }
}

/// The chance, in parts per million, that an event with chance `p` per
/// `period` milliseconds happens at least once in `frame` milliseconds:
/// `1 - (1 - p) ^ (frame / period)`, compounded over whole periods and
/// interpolated over the last partial one.
pub open spec fn frame_chance(p: int, frame: int, period: int) -> int {
    let q = ONE_PPM - p;
    let whole = (frame / period) as nat;
    let frac = (frame % period) * ONE_PPM / period;
    ONE_PPM - pow_ppm(q, whole) * partial_ppm(q, frac) / (ONE_PPM as int)
}

proof fn lemma_pow_bounded(q: int, n: nat)
    requires
        0 <= q <= ONE_PPM,
    ensures
        0 <= pow_ppm(q, n) <= ONE_PPM,
    decreases n,
{
    if n > 0 {
        lemma_pow_bounded(q, (n - 1) as nat);
        let a = pow_ppm(q, (n - 1) as nat);
        assert(0 <= a * q <= 1_000_000 * 1_000_000) by (nonlinear_arith)
            requires 0 <= a <= 1_000_000, 0 <= q <= 1_000_000;
        assert(0 <= a * q / 1_000_000 <= 1_000_000) by (nonlinear_arith)
            requires 0 <= a * q <= 1_000_000 * 1_000_000;
    }
}

proof fn lemma_pow_one(n: nat)
    ensures
        pow_ppm(ONE_PPM as int, n) == ONE_PPM,
    decreases n,
{
    if n > 0 {
        lemma_pow_one((n - 1) as nat);
    }
}

proof fn lemma_pow_stays_zero(q: int, k: nat, n: nat)
    requires
        k <= n,
        pow_ppm(q, k) == 0,
    ensures
        pow_ppm(q, n) == 0,
    decreases n - k,
{
    if k < n {
        lemma_pow_stays_zero(q, k, (n - 1) as nat);
    }
}

/// A chance of zero stays zero over every frame, and a certain event is
/// certain over every frame of at least a millionth of a period.
pub proof fn lemma_frame_chance_extremes(frame: int, period: int)
    requires
        frame >= 0,
        period > 0,
    ensures
        frame_chance(0, frame, period) == 0,
        frame * ONE_PPM >= period ==> frame_chance(ONE_PPM as int, frame, period) == ONE_PPM,
{
    let whole = (frame / period) as nat;
    let frac = (frame % period) * ONE_PPM / period;
    lemma_pow_one(whole);
    assert(0 * frac == 0);
    assert(partial_ppm(ONE_PPM as int, frac) == ONE_PPM);
    if frame >= period {
        assert(frame / period >= 1) by (nonlinear_arith)
            requires frame >= period, period > 0;
        assert(pow_ppm(0, 1) == 0);
        lemma_pow_stays_zero(0, 1, whole);
        assert(pow_ppm(0, whole) * partial_ppm(0, frac) == 0);
    } else if frame * ONE_PPM >= period {
        assert(frame % period == frame) by (nonlinear_arith)
            requires 0 <= frame < period;
        assert(frac >= 1) by (nonlinear_arith)
            requires frac == frame * 1_000_000 / period, frame * 1_000_000 >= period, period > 0;
        assert(partial_ppm(0, frac) == 0);
        assert(pow_ppm(0, whole) * 0 == 0);
    }
}

/// Fixed-point `q ^ n` in parts per million, where `q` is at most one.
fn pow_fixed(q: u64, n: u64) -> (r: u64)
    requires
        q <= ONE_PPM,
    ensures
        r == pow_ppm(q as int, n as nat),
{
    if q == ONE_PPM {
        proof { lemma_pow_one(n as nat); }
        return ONE_PPM;
    }
    let mut acc: u64 = ONE_PPM;
    let mut k: u64 = 0;
    while k < n && acc != 0
        invariant
            q < ONE_PPM,
            k <= n,
            acc == pow_ppm(q as int, k as nat),
            acc <= ONE_PPM,
        decreases acc + (n - k),
    {
        assert(acc * q < acc * ONE_PPM) by (nonlinear_arith)
            requires 0 < acc, q < ONE_PPM;
        assert(acc * q / 1_000_000 < acc) by (nonlinear_arith)
            requires acc * q < acc * 1_000_000;
        acc = acc * q / ONE_PPM;
        k = k + 1;
    }
    if acc == 0 {
        proof { lemma_pow_stays_zero(q as int, k as nat, n as nat); }
    }
    acc
}

/// Turns a chance `p_ppm` per `period_ms` milliseconds into the chance for a
/// frame of `frame_ms` milliseconds, so that long frames compound the way a
/// run of short ones does.
pub fn frame_probability(p_ppm: u32, frame_ms: u64, period_ms: u64) -> (r: u32)
    requires
        p_ppm <= ONE_PPM,
        0 < period_ms,
    ensures
        r == frame_chance(p_ppm as int, frame_ms as int, period_ms as int),
        r <= ONE_PPM,
        p_ppm == 0 ==> r == 0,
        p_ppm == ONE_PPM && frame_ms * ONE_PPM >= period_ms ==> r == ONE_PPM,
{
    let q: u64 = ONE_PPM - p_ppm as u64;
    let whole = frame_ms / period_ms;
    let rem = frame_ms % period_ms;
    assert(rem * 1_000_000 < period_ms * 1_000_000) by (nonlinear_arith)
        requires rem < period_ms;
    assert(rem * 1_000_000 / (period_ms as int) <= 1_000_000) by (nonlinear_arith)
        requires rem * 1_000_000 < period_ms * 1_000_000, 0 < period_ms;
    let frac: u64 = ((rem as u128) * (ONE_PPM as u128) / (period_ms as u128)) as u64;
    assert((ONE_PPM - q) * frac <= ONE_PPM * ONE_PPM) by (nonlinear_arith)
        requires q <= ONE_PPM, frac <= ONE_PPM;
    assert((ONE_PPM - q) * frac / 1_000_000 <= 1_000_000) by (nonlinear_arith)
        requires (ONE_PPM - q) * frac <= ONE_PPM * ONE_PPM;
    let part: u64 = if q == 0 && frac > 0 { 0 } else { ONE_PPM - (ONE_PPM - q) * frac / ONE_PPM };
    let pw = pow_fixed(q, whole);
    proof {
        lemma_pow_bounded(q as int, whole as nat);
    }
    assert(pw * part <= ONE_PPM * ONE_PPM) by (nonlinear_arith)
        requires pw <= ONE_PPM, part <= ONE_PPM;
    assert(pw * part / 1_000_000 <= 1_000_000) by (nonlinear_arith)
        requires pw * part <= ONE_PPM * ONE_PPM;
    let surv: u64 = pw * part / ONE_PPM;
    proof {
        if p_ppm == 0 {
            lemma_pow_one(whole as nat);
            assert(q == ONE_PPM);
            assert((ONE_PPM - q) == 0);
            assert(0 * frac == 0);
            assert(part == ONE_PPM);
        }
        lemma_frame_chance_extremes(frame_ms as int, period_ms as int);
        if p_ppm == ONE_PPM && frame_ms >= period_ms {
            assert(whole >= 1) by (nonlinear_arith)
                requires frame_ms >= period_ms, whole == frame_ms / period_ms, 0 < period_ms;
            assert(pow_ppm(0, 1) == 0);
            lemma_pow_stays_zero(0, 1, whole as nat);
            assert(pw == 0);
            assert(pw * part == 0);
        }
    }
    (ONE_PPM - surv) as u32
}

} // verus!
