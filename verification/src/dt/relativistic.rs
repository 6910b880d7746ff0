//! The rate conversions between TT and TCG and between TDB and TCB, in
//! fixed point: `L_G = 6.969290134e-10` and `L_B = 1.550519768e-8` (the IAU
//! defining constants), elapsed time counted from 1977-01-01 00:00:32.184 TT,
//! and `TDB0 = -65.5 µs`.
use vstd::prelude::*;
use crate::arith::{clamp128, sat_add, sat_sub, abs_u128};

verus! {

/// `L_G` numerator over `LG_DEN`.
pub const LG_NUM: i128 = 6_969_290_134;
/// `L_G` denominator.
pub const LG_DEN: i128 = 10_000_000_000_000_000_000;
/// `L_B` numerator over `LB_DEN`.
pub const LB_NUM: i128 = 1_550_519_768;
/// `L_B` denominator.
pub const LB_DEN: i128 = 100_000_000_000_000_000;
/// `TDB0` in attoseconds.
pub const TDB0_ATTOS: i128 = -65_500_000_000_000;
/// The common TCG/TCB/TT epoch, 1977-01-01 00:00:32.184 TT, as a count
/// from 2000-01-01 12:00.
pub const TCG_TCB_REF_ATTOS: i128 = -725_803_167_816_000_000_000_000_000;

/// `e * num / den`, truncated toward zero, computed as whole multiples of
/// `den` times `num` plus the remainder times `num` over `den`.
pub open spec fn rate_of(e: int, num: int, den: int) -> int {
    let m = if e < 0 { -e } else { e };
    let p = (m / den) * num + ((m % den) * num) / den;
    if e < 0 { -p } else { p }
}

/// TT of TCG count `a`: `TCG - L_G/(1+L_G) * (TCG - t0)`, saturating.
pub open spec fn tcg_to_tt_spec(a: int) -> int {
    clamp128(a - rate_of(clamp128(a - TCG_TCB_REF_ATTOS), LG_NUM as int, (LG_DEN + LG_NUM) as int))
}

/// TCG of TT count `t`: `TT + L_G * (TT - t0)`, saturating.
pub open spec fn tt_to_tcg_spec(t: int) -> int {
    clamp128(t + rate_of(clamp128(t - TCG_TCB_REF_ATTOS), LG_NUM as int, LG_DEN as int))
}

/// TDB of TCB count `a`: `TCB - L_B/(1+L_B) * (TCB - t0) - TDB0`, saturating.
pub open spec fn tcb_to_tdb_spec(a: int) -> int {
    clamp128(clamp128(a - rate_of(clamp128(a - TCG_TCB_REF_ATTOS), LB_NUM as int, (LB_DEN + LB_NUM) as int)) - TDB0_ATTOS)
}

/// TCB of TDB count `t`: `TDB + L_B * (TDB - t0) + TDB0`, saturating.
pub open spec fn tdb_to_tcb_spec(t: int) -> int {
    clamp128(clamp128(t + rate_of(clamp128(t - TCG_TCB_REF_ATTOS), LB_NUM as int, LB_DEN as int)) + TDB0_ATTOS)
}

/// `attos * num / den`, truncated toward zero (see `rate_of`).
pub fn mul_rate(attos: i128, num: i128, den: i128) -> (r: i128)
    requires
        0 <= num <= den,
        1 <= den < 0x1_0000_0000_0000_0000,
    ensures
        r == rate_of(attos as int, num as int, den as int),
{
    let m = abs_u128(attos);
    let n = num as u128;
    let d = den as u128;
    let q = m / d;
    let rem = m % d;
    proof {
        let mi = m as int;
        let ni = n as int;
        let di = d as int;
        vstd::arithmetic::div_mod::lemma_fundamental_div_mod(mi, di);
        assert(q as int * ni <= q as int * di) by (nonlinear_arith) requires ni <= di, q >= 0;
        assert(rem as int * ni <= rem as int * di) by (nonlinear_arith) requires ni <= di, rem >= 0;
        assert(rem as int * ni < 0x1_0000_0000_0000_0000_0000_0000_0000_0000int) by (nonlinear_arith)
            requires ni <= di, 0 <= rem < di, di < 0x1_0000_0000_0000_0000int;
        vstd::arithmetic::div_mod::lemma_div_is_ordered(rem as int * ni, rem as int * di, di);
        vstd::arithmetic::div_mod::lemma_div_multiples_vanish(rem as int, di);
        assert(q as int * di + rem as int == mi) by (nonlinear_arith)
            requires di * (mi / di) + mi % di == mi, q == mi / di, rem == mi % di;
    }
    let p: u128 = q * n + (rem * n) / d;
    proof { assert(p <= m); }
    if attos >= 0 {
        p as i128
    } else if p == 0x8000_0000_0000_0000_0000_0000_0000_0000u128 {
        i128::MIN
    } else {
        -(p as i128)
    }
}

/// TT of a TCG count.
pub fn tcg_to_tt(a: i128) -> (r: i128)
    ensures
        r == tcg_to_tt_spec(a as int),
{
    let elapsed = sat_sub(a, TCG_TCB_REF_ATTOS);
    sat_sub(a, mul_rate(elapsed, LG_NUM, LG_DEN + LG_NUM))
}

/// TCG of a TT count.
pub fn tt_to_tcg(t: i128) -> (r: i128)
    ensures
        r == tt_to_tcg_spec(t as int),
{
    let elapsed = sat_sub(t, TCG_TCB_REF_ATTOS);
    sat_add(t, mul_rate(elapsed, LG_NUM, LG_DEN))
}

/// TDB of a TCB count.
pub fn tcb_to_tdb(a: i128) -> (r: i128)
    ensures
        r == tcb_to_tdb_spec(a as int),
{
    let elapsed = sat_sub(a, TCG_TCB_REF_ATTOS);
    sat_sub(sat_sub(a, mul_rate(elapsed, LB_NUM, LB_DEN + LB_NUM)), TDB0_ATTOS)
}

/// TCB of a TDB count.
pub fn tdb_to_tcb(t: i128) -> (r: i128)
    ensures
        r == tdb_to_tcb_spec(t as int),
{
    let elapsed = sat_sub(t, TCG_TCB_REF_ATTOS);
    sat_add(sat_add(t, mul_rate(elapsed, LB_NUM, LB_DEN)), TDB0_ATTOS)
}

} // verus!
