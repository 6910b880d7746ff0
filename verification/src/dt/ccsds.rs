//! CCSDS binary time codes. The Unsegmented Time Code (CUC): a P-field
//! describing the layout, then whole TAI seconds since 1958-01-01 as
//! big-endian octets, then the binary fraction of the second, truncated. The
//! Day Segmented Time Code (CDS): UTC days since 1958-01-01, milliseconds of
//! the day and an optional sub-millisecond counter. The Calendar Segmented
//! Time Code (CCS): the UTC calendar fields in binary-coded decimal.
use vstd::prelude::*;
use crate::arith::{clamp64, div_floor, rem_floor};
use crate::dt::{Dt, ATTOS_PER_SEC};
use crate::dt::gregorian::{jd_of, jd_1958};
use crate::error::{DtErr, DtErrKind};

verus! {

/// The largest CUC/CDS encoding in octets.
pub const CCSDS_C_AND_D_MAX_SIZE: usize = 32;

/// `true` when the P-field needs its second octet.
pub open spec fn cuc_needs_ext(nc: int, nf: int, ext: bool) -> bool {
    nc > 4 || nf > 3 || ext
}

/// The P-field octets for `nc` coarse and `nf` fine octets.
pub open spec fn cuc_pfield(nc: int, nf: int, ext: bool) -> Seq<u8> {
    let base_c = if nc <= 4 { nc - 1 } else { 3 };
    let base_f = if nf <= 3 { nf } else { 3 };
    let p1 = (16 + 4 * base_c + base_f + if cuc_needs_ext(nc, nf, ext) { 128int } else { 0int }) as u8;
    if cuc_needs_ext(nc, nf, ext) {
        seq![p1, (32 * ((if nc > 4 { nc - 4 } else { 0 }) % 4) + 4 * ((if nf > 3 { nf - 3 } else { 0 }) % 8)) as u8]
    } else {
        seq![p1]
    }
}

/// `x` as `n` big-endian octets (its value modulo `256^n`).
pub open spec fn be_octets(x: int, n: nat) -> Seq<u8> {
    Seq::new(n, |k: int| ((x / p256((n - 1 - k) as nat)) % 256) as u8)
}

/// The first `n` octets of the binary fraction `rem / 10^18`, truncated.
pub open spec fn frac_octets(rem: int, n: nat) -> Seq<u8>
    decreases n,
{
    if n == 0 {
        Seq::empty()
    } else {
        seq![((rem * 256) / (ATTOS_PER_SEC as int)) as u8] + frac_octets((rem * 256) % (ATTOS_PER_SEC as int), (n - 1) as nat)
    }
}

/// The CUC octets for `t` TAI attoseconds since 1958-01-01, or the error:
/// `nc` must be 1..=7 and `nf` at most 10, the count must not be negative,
/// and the whole seconds must fit `nc` octets.
pub open spec fn cuc_result(t: int, nc: int, nf: int, ext: bool) -> Result<Seq<u8>, DtErrKind> {
    if !(1 <= nc <= 7) {
        Err(DtErrKind::OutOfRange)
    } else if nf > 10 {
        Err(DtErrKind::FracOutOfRange)
    } else {
        let secs = clamp64(t / (ATTOS_PER_SEC as int));
        if secs < 0 {
            Err(DtErrKind::YearOutOfRange)
        } else if secs >= p256(nc as nat) {
            Err(DtErrKind::OutOfRange)
        } else {
            Ok(cuc_pfield(nc, nf, ext) + be_octets(secs, nc as nat) + frac_octets(t % (ATTOS_PER_SEC as int), nf as nat))
        }
    }
}

/// `256^k`.
pub open spec fn p256(k: nat) -> int
    decreases k,
{
    if k == 0 { 1 } else { 256 * p256((k - 1) as nat) }
}

proof fn lemma_p256_bound(i: nat)
    requires
        i <= 7,
    ensures
        1 <= p256(i),
        i <= 6 ==> p256(i) <= 0x1_0000_0000_0000,
        p256(i) <= 0x100_0000_0000_0000,
{
    reveal_with_fuel(p256, 8);
    assert(p256(6) == 0x1_0000_0000_0000);
    assert(p256(7) == 0x100_0000_0000_0000);
}

/// `256^k`.
fn pow256(k: u32) -> (r: u64)
    requires
        k <= 7,
    ensures
        r == p256(k as nat),
{
    let mut r: u64 = 1;
    let mut i: u32 = 0;
    while i < k
        invariant
            i <= k <= 7,
            r == p256(i as nat),
        decreases k - i,
    {
        proof { lemma_p256_bound(i as nat); }
        r = r * 256;
        i += 1;
    }
    r
}

impl Dt {
    /// Encodes `tai_attos_since_1958` (TAI attoseconds since 1958-01-01) as a
    /// CCSDS Unsegmented Time Code with `n_coarse` octets of whole seconds
    /// and `n_frac` octets of binary fraction; `extension` forces the second
    /// P-field octet. Returns the buffer and the number of octets used (the
    /// rest are zero).
    pub fn ccsds_cuc_from_tai(tai_attos_since_1958: i128, n_coarse: u8, n_frac: u8, extension: bool)
        -> (r: Result<([u8; 32], usize), DtErr>)
        ensures
            match cuc_result(tai_attos_since_1958 as int, n_coarse as int, n_frac as int, extension) {
                Ok(octets) => r matches Ok((buf, len)) && len == octets.len()
                    && buf@.subrange(0, len as int) == octets
                    && forall|i: int| len <= i < 32 ==> buf@[i] == 0,
                Err(k) => r matches Err(e) && e.kind == k,
            },
    {
        if !(1 <= n_coarse && n_coarse <= 7) {
            return Err(DtErr::new(DtErrKind::OutOfRange));
        }
        if n_frac > 10 {
            return Err(DtErr::new(DtErrKind::FracOutOfRange));
        }
        let total_secs = Dt::to_i64(div_floor(tai_attos_since_1958, ATTOS_PER_SEC));
        let rem_attos = rem_floor(tai_attos_since_1958, ATTOS_PER_SEC);
        if total_secs < 0 {
            return Err(DtErr::new(DtErrKind::YearOutOfRange));
        }
        let coarse = total_secs as u64;
        let limit = pow256(n_coarse as u32);
        if coarse >= limit {
            return Err(DtErr::new(DtErrKind::OutOfRange));
        }
        let ghost pf = cuc_pfield(n_coarse as int, n_frac as int, extension);
        let ghost bo = be_octets(coarse as int, n_coarse as nat);
        let ghost fo = frac_octets(rem_attos as int, n_frac as nat);
        let needs_extension = n_coarse > 4 || n_frac > 3 || extension;
        let base_coarse: u8 = if n_coarse <= 4 { n_coarse - 1 } else { 3 };
        let base_frac: u8 = if n_frac <= 3 { n_frac } else { 3 };
        let mut buf = [0u8; 32];
        let mut pos: usize = 0;
        let p1: u8 = 16 + 4 * base_coarse + base_frac + if needs_extension { 128 } else { 0 };
        buf[pos] = p1;
        pos += 1;
        if needs_extension {
            let add_coarse = if n_coarse > 4 { n_coarse - 4 } else { 0 };
            let add_frac = if n_frac > 3 { n_frac - 3 } else { 0 };
            let p2: u8 = 32 * (add_coarse % 4) + 4 * (add_frac % 8);
            buf[pos] = p2;
            pos += 1;
        }
        proof {
            assert(buf@.subrange(0, pos as int) =~= pf);
        }
        let mut i: u32 = n_coarse as u32;
        while i > 0
            invariant
                0 <= i <= n_coarse <= 7,
                pos == pf.len() + (n_coarse - i),
                pf.len() <= 2,
                buf@.len() == 32,
                buf@.subrange(0, pos as int) == pf + bo.subrange(0, (n_coarse - i) as int),
                forall|j: int| pos <= j < 32 ==> buf@[j] == 0,
                bo == be_octets(coarse as int, n_coarse as nat),
            decreases i,
        {
            i -= 1;
            proof { lemma_p256_bound(i as nat); }
            let p = pow256(i);
            let byte = ((coarse / p) % 256) as u8;
            let ghost before = buf@;
            buf[pos] = byte;
            pos += 1;
            proof {
                let m = (n_coarse - 1 - i) as int;
                assert(bo[m] == byte);
                assert(bo.subrange(0, m + 1) =~= bo.subrange(0, m).push(bo[m]));
                assert(buf@.subrange(0, pos as int) =~= before.subrange(0, pos - 1).push(byte));
                assert(buf@.subrange(0, pos as int) =~= pf + bo.subrange(0, (n_coarse - i) as int));
            }
        }
        proof {
            assert(bo.subrange(0, n_coarse as int) =~= bo);
        }
        let ghost pre = buf@.subrange(0, pos as int);
        let mut rem: u128 = rem_attos as u128;
        let mut k: u8 = 0;
        while k < n_frac
            invariant
                k <= n_frac <= 10,
                pos == pf.len() + n_coarse + k,
                pf.len() <= 2,
                n_coarse <= 7,
                buf@.len() == 32,
                0 <= rem < ATTOS_PER_SEC,
                buf@.subrange(0, pos as int) + frac_octets(rem as int, (n_frac - k) as nat)
                    == pf + bo + fo,
                forall|j: int| pos <= j < 32 ==> buf@[j] == 0,
            decreases n_frac - k,
        {
            let r2 = rem * 256;
            let byte = (r2 / (ATTOS_PER_SEC as u128)) as u8;
            let ghost old_rem = rem as int;
            let ghost prefix = buf@.subrange(0, pos as int);
            buf[pos] = byte;
            pos += 1;
            rem = r2 % (ATTOS_PER_SEC as u128);
            k += 1;
            proof {
                assert(frac_octets(old_rem, (n_frac - k + 1) as nat)
                    == seq![byte] + frac_octets(rem as int, (n_frac - k) as nat));
                assert(buf@.subrange(0, pos as int) =~= prefix.push(byte));
                assert(prefix.push(byte) + frac_octets(rem as int, (n_frac - k) as nat)
                    =~= prefix + (seq![byte] + frac_octets(rem as int, (n_frac - k) as nat)));
            }
        }
        proof {
            assert(frac_octets(rem as int, 0) =~= Seq::<u8>::empty());
            assert(buf@.subrange(0, pos as int) =~= pf + bo + fo);
        }
        Ok((buf, pos))
    }
}

/// Days from 1958-01-01 to a date, as `gregorian_to_days_since_1958` gives them.
pub open spec fn days_1958(y: int, m: int, d: int) -> int {
    clamp64(clamp64(jd_of(y, m, d)) - jd_1958())
}

/// The CDS octets for the UTC fields of a date and time, or the error:
/// `n_day` must be 2 or 3, `sub_ms_code` at most 2, the date not before
/// 1958-01-01, and its day count must fit `n_day` octets. The milliseconds
/// of the day and the sub-millisecond counter are truncated.
pub open spec fn cds_result(yr: int, mo: int, day: int, hr: int, min: int, sec: int, attos: int,
    n_day: int, code: int, ext: bool) -> Result<Seq<u8>, DtErrKind>
{
    if !(n_day == 2 || n_day == 3) {
        Err(DtErrKind::InvalidNumber)
    } else if code > 2 {
        Err(DtErrKind::InvalidSubmillisecond)
    } else {
        let dc = days_1958(yr, mo, day);
        if dc < 0 {
            Err(DtErrKind::YearOutOfRange)
        } else if dc >= p256(n_day as nat) {
            Err(DtErrKind::OutOfRange)
        } else {
            let ms = (hr * 3600 + min * 60 + sec) * 1000 + attos / 1_000_000_000_000_000;
            let in_ms = attos % 1_000_000_000_000_000;
            let frac = if code == 1 { in_ms / 1_000_000_000_000 } else { in_ms / 1_000_000 };
            let n_frac: nat = if code == 0 { 0 } else if code == 1 { 2 } else { 4 };
            let p1 = (64 + (if ext { 128int } else { 0 }) + (if n_day == 3 { 4int } else { 0 }) + code) as u8;
            Ok(seq![p1] + (if ext { seq![0u8] } else { Seq::<u8>::empty() }) + be_octets(dc, n_day as nat)
                + be_octets(ms, 4) + be_octets(frac, n_frac))
        }
    }
}

/// Appends `x` as `n` big-endian octets.
fn push_be(v: &mut Vec<u8>, x: u64, n: u32)
    requires
        n <= 7,
    ensures
        final(v)@ == old(v)@ + be_octets(x as int, n as nat),
{
    let ghost bo = be_octets(x as int, n as nat);
    let ghost v0 = v@;
    let mut i: u32 = n;
    proof { assert(v0 + bo.subrange(0, 0) =~= v0); }
    while i > 0
        invariant
            i <= n <= 7,
            v@ == v0 + bo.subrange(0, (n - i) as int),
            bo == be_octets(x as int, n as nat),
        decreases i,
    {
        i -= 1;
        proof { lemma_p256_bound(i as nat); }
        let p = pow256(i);
        let byte = ((x / p) % 256) as u8;
        v.push(byte);
        proof {
            let m = (n - 1 - i) as int;
            assert(bo[m] == byte);
            assert(bo.subrange(0, m + 1) =~= bo.subrange(0, m).push(bo[m]));
            assert(v@ =~= v0 + bo.subrange(0, m + 1));
        }
    }
    proof { assert(bo.subrange(0, n as int) =~= bo); }
}

/// The octets of `v` at the front of a zeroed 32-octet buffer.
fn into_buf32(v: &Vec<u8>) -> (r: [u8; 32])
    requires
        v.len() <= 32,
    ensures
        r@.subrange(0, v.len() as int) == v@,
        forall|i: int| v.len() <= i < 32 ==> r@[i] == 0,
{
    let mut buf = [0u8; 32];
    let mut i: usize = 0;
    while i < v.len()
        invariant
            i <= v.len() <= 32,
            buf@.len() == 32,
            forall|j: int| 0 <= j < i ==> buf@[j] == v@[j],
            forall|j: int| i <= j < 32 ==> buf@[j] == 0,
        decreases v.len() - i,
    {
        buf[i] = v[i];
        i += 1;
    }
    proof { assert(buf@.subrange(0, v.len() as int) =~= v@); }
    buf
}

impl Dt {
    /// Encodes UTC calendar fields as a CCSDS Day Segmented Time Code with
    /// `n_day` octets of days since 1958-01-01, four octets of milliseconds
    /// of the day and, by `sub_ms_code`, no further counter (0), two octets of
    /// microseconds of the millisecond (1) or four octets of picoseconds of the
    /// millisecond (2); `extension` adds a second, zero P-field octet. Returns
    /// the buffer and the number of octets used (the rest are zero).
    pub fn ccsds_cds_from_utc_fields(yr: i64, mo: u8, day: u8, hr: u8, min: u8, sec: u8, attos: u64,
        n_day: u8, sub_ms_code: u8, extension: bool) -> (r: Result<([u8; 32], usize), DtErr>)
        ensures
            match cds_result(yr as int, mo as int, day as int, hr as int, min as int, sec as int, attos as int,
                n_day as int, sub_ms_code as int, extension) {
                Ok(octets) => r matches Ok((buf, len)) && len == octets.len()
                    && buf@.subrange(0, len as int) == octets
                    && forall|i: int| len <= i < 32 ==> buf@[i] == 0,
                Err(k) => r matches Err(e) && e.kind == k,
            },
    {
        if !(n_day == 2 || n_day == 3) {
            return Err(DtErr::new(DtErrKind::InvalidNumber));
        }
        if sub_ms_code > 2 {
            return Err(DtErr::new(DtErrKind::InvalidSubmillisecond));
        }
        let day_count_i = Dt::gregorian_to_days_since_1958(yr, mo, day);
        if day_count_i < 0 {
            return Err(DtErr::new(DtErrKind::YearOutOfRange));
        }
        let day_count = day_count_i as u64;
        proof { lemma_p256_bound(n_day as nat); }
        if day_count >= pow256(n_day as u32) {
            return Err(DtErr::new(DtErrKind::OutOfRange));
        }
        let sec_of_day: u64 = hr as u64 * 3600 + min as u64 * 60 + sec as u64;
        let ms_in_sec: u64 = attos / 1_000_000_000_000_000;
        let millis_of_day: u64 = sec_of_day * 1000 + ms_in_sec;
        let attos_in_ms: u64 = attos % 1_000_000_000_000_000;
        let frac_scaled: u64 = if sub_ms_code == 0 {
            0
        } else if sub_ms_code == 1 {
            attos_in_ms / 1_000_000_000_000
        } else {
            attos_in_ms / 1_000_000
        };
        let n_frac: u32 = if sub_ms_code == 0 { 0 } else if sub_ms_code == 1 { 2 } else { 4 };
        let p1: u8 = 64 + (if extension { 128u8 } else { 0u8 }) + (if n_day == 3 { 4u8 } else { 0u8 }) + sub_ms_code;
        let mut v: Vec<u8> = Vec::new();
        v.push(p1);
        if extension {
            v.push(0u8);
        }
        let ghost head = v@;
        proof {
            assert(head =~= seq![p1] + (if extension { seq![0u8] } else { Seq::<u8>::empty() }));
        }
        push_be(&mut v, day_count, n_day as u32);
        push_be(&mut v, millis_of_day, 4);
        push_be(&mut v, frac_scaled, n_frac);
        let len = v.len();
        let buf = into_buf32(&v);
        proof {
            assert(be_octets(frac_scaled as int, n_frac as nat).len() == n_frac);
        }
        Ok((buf, len))
    }
}

/// The largest CCS encoding in octets.
pub const CCSDS_CCS_MAX_SIZE: usize = 14;

/// `100^k`.
pub open spec fn p100(k: nat) -> int
    decreases k,
{
    if k == 0 { 1 } else { 100 * p100((k - 1) as nat) }
}

/// The binary-coded-decimal octet of `v`: its tens digit (taken modulo 16)
/// in the high nibble and its units digit in the low one.
pub open spec fn bcd_octet(v: int) -> u8 {
    (((v / 10) % 16) * 16 + v % 10) as u8
}

/// The last `2n` decimal digits of `x`, two to an octet, most significant first.
pub open spec fn bcd_pairs(x: int, n: nat) -> Seq<u8> {
    Seq::new(n, |k: int| bcd_octet((x / p100((n - 1 - k) as nat)) % 100))
}

/// The day of the year, as `_day_of_yr` gives it.
pub open spec fn day_of_yr_spec(y: int, m: int, d: int) -> u16 {
    (clamp64(clamp64(clamp64(jd_of(y, m, d)) - clamp64(jd_of(y, 1, 1))) + 1) as i64) as u16
}

/// The CCS octets for the UTC fields of a date and time, or the error:
/// `n_subsec` must be at most 6 and the year in `1..=9999`. The fraction of
/// the second is truncated to `2 * n_subsec` decimal digits.
pub open spec fn ccs_result(yr: int, mo: int, day: int, hr: int, min: int, sec: int, attos: int,
    use_doy: bool, n: int) -> Result<Seq<u8>, DtErrKind>
{
    if n > 6 {
        Err(DtErrKind::FracOutOfRange)
    } else if !(1 <= yr <= 9999) {
        Err(DtErrKind::YearOutOfRange)
    } else {
        let p1 = (80 + (if use_doy { 8int } else { 0 }) + n) as u8;
        let doy = day_of_yr_spec(yr, mo, day) as int;
        let date = if use_doy { seq![bcd_octet(doy / 100), bcd_octet(doy % 100)] } else { seq![bcd_octet(mo), bcd_octet(day)] };
        let frac = (attos * p100(n as nat)) / (ATTOS_PER_SEC as int);
        Ok(seq![p1, bcd_octet(yr / 100), bcd_octet(yr % 100)] + date
            + seq![bcd_octet(hr), bcd_octet(min), bcd_octet(sec)] + bcd_pairs(frac, n as nat))
    }
}

proof fn lemma_p100_bound(i: nat)
    requires
        i <= 6,
    ensures
        1 <= p100(i) <= 1_000_000_000_000,
{
    reveal_with_fuel(p100, 7);
}

/// `100^k`.
fn pow100(k: u32) -> (r: u128)
    requires
        k <= 6,
    ensures
        r == p100(k as nat),
{
    let mut r: u128 = 1;
    let mut i: u32 = 0;
    while i < k
        invariant
            i <= k <= 6,
            r == p100(i as nat),
        decreases k - i,
    {
        proof { lemma_p100_bound(i as nat); }
        r = r * 100;
        i += 1;
    }
    r
}

/// The binary-coded-decimal octet of `val`.
fn to_bcd(val: u32) -> (r: u8)
    ensures
        r == bcd_octet(val as int),
{
    let hi = val / 10;
    let lo = val % 10;
    ((hi % 16) * 16 + lo) as u8
}

/// Appends the last `2n` decimal digits of `x` as `n` BCD octets.
fn push_bcd_pairs(v: &mut Vec<u8>, x: u128, n: u32)
    requires
        n <= 6,
    ensures
        final(v)@ == old(v)@ + bcd_pairs(x as int, n as nat),
{
    let ghost bp = bcd_pairs(x as int, n as nat);
    let ghost v0 = v@;
    let mut i: u32 = n;
    proof { assert(v0 + bp.subrange(0, 0) =~= v0); }
    while i > 0
        invariant
            i <= n <= 6,
            v@ == v0 + bp.subrange(0, (n - i) as int),
            bp == bcd_pairs(x as int, n as nat),
        decreases i,
    {
        i -= 1;
        proof { lemma_p100_bound(i as nat); }
        let p = pow100(i);
        let pair = ((x / p) % 100) as u32;
        let octet = to_bcd(pair);
        v.push(octet);
        proof {
            let m = (n - 1 - i) as int;
            assert(bp[m] == octet);
            assert(bp.subrange(0, m + 1) =~= bp.subrange(0, m).push(bp[m]));
            assert(v@ =~= v0 + bp.subrange(0, m + 1));
        }
    }
    proof { assert(bp.subrange(0, n as int) =~= bp); }
}

/// The octets of `v` at the front of a zeroed 14-octet buffer.
fn into_buf14(v: &Vec<u8>) -> (r: [u8; 14])
    requires
        v.len() <= 14,
    ensures
        r@.subrange(0, v.len() as int) == v@,
        forall|i: int| v.len() <= i < 14 ==> r@[i] == 0,
{
    let mut buf = [0u8; 14];
    let mut i: usize = 0;
    while i < v.len()
        invariant
            i <= v.len() <= 14,
            buf@.len() == 14,
            forall|j: int| 0 <= j < i ==> buf@[j] == v@[j],
            forall|j: int| i <= j < 14 ==> buf@[j] == 0,
        decreases v.len() - i,
    {
        buf[i] = v[i];
        i += 1;
    }
    proof { assert(buf@.subrange(0, v.len() as int) =~= v@); }
    buf
}

impl Dt {
    /// Encodes UTC calendar fields as a CCSDS Calendar Segmented Time Code:
    /// the year, month and day (or, with `use_doy`, the day of the year), hour,
    /// minute and second in binary-coded decimal, then `n_subsec` octets of
    /// two decimal digits of the fraction of the second each. Returns the
    /// buffer and the number of octets used (the rest are zero).
    pub fn ccsds_ccs_from_utc_fields(yr: i64, mo: u8, day: u8, hr: u8, min: u8, sec: u8, attos: u64,
        use_doy: bool, n_subsec: u8) -> (r: Result<([u8; 14], usize), DtErr>)
        ensures
            match ccs_result(yr as int, mo as int, day as int, hr as int, min as int, sec as int, attos as int,
                use_doy, n_subsec as int) {
                Ok(octets) => r matches Ok((buf, len)) && len == octets.len()
                    && buf@.subrange(0, len as int) == octets
                    && forall|i: int| len <= i < 14 ==> buf@[i] == 0,
                Err(k) => r matches Err(e) && e.kind == k,
            },
    {
        if n_subsec > 6 {
            return Err(DtErr::new(DtErrKind::FracOutOfRange));
        }
        if !(1 <= yr && yr <= 9999) {
            return Err(DtErr::new(DtErrKind::YearOutOfRange));
        }
        let p1: u8 = 80 + (if use_doy { 8u8 } else { 0u8 }) + n_subsec;
        let year = yr as u32;
        let mut v: Vec<u8> = Vec::new();
        v.push(p1);
        v.push(to_bcd(year / 100));
        v.push(to_bcd(year % 100));
        if !use_doy {
            v.push(to_bcd(mo as u32));
            v.push(to_bcd(day as u32));
        } else {
            let doy = Dt::_day_of_yr(yr, mo, day) as u32;
            v.push(to_bcd(doy / 100));
            v.push(to_bcd(doy % 100));
        }
        v.push(to_bcd(hr as u32));
        v.push(to_bcd(min as u32));
        v.push(to_bcd(sec as u32));
        let ghost head = v@;
        proof { lemma_p100_bound(n_subsec as nat); }
        let scale = pow100(n_subsec as u32);
        proof {
            assert(attos as u128 * scale <= 0xFFFF_FFFF_FFFF_FFFFu128 * 1_000_000_000_000u128) by (nonlinear_arith)
                requires attos <= 0xFFFF_FFFF_FFFF_FFFFu64, scale <= 1_000_000_000_000u128, scale >= 1;
        }
        let frac_scaled: u128 = (attos as u128 * scale) / (ATTOS_PER_SEC as u128);
        push_bcd_pairs(&mut v, frac_scaled, n_subsec as u32);
        let len = v.len();
        let buf = into_buf14(&v);
        proof {
            let doy = day_of_yr_spec(yr as int, mo as int, day as int) as int;
            let date = if use_doy { seq![bcd_octet(doy / 100), bcd_octet(doy % 100)] } else { seq![bcd_octet(mo as int), bcd_octet(day as int)] };
            assert(head =~= seq![p1, bcd_octet(yr as int / 100), bcd_octet(yr as int % 100)] + date
                + seq![bcd_octet(hr as int), bcd_octet(min as int), bcd_octet(sec as int)]);
        }
        Ok((buf, len))
    }
}

} // verus!
