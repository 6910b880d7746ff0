//! Parsing durations written as `D:H:MM:SS` media timestamps, `H:MM[:SS[.frac]]`
//! elapsed times, and ISO 8601 durations.
use vstd::prelude::*;
use crate::arith::{clamp128, tdiv, sat_add, sat_mul};
use crate::dt::{Dt, ATTOS_PER_SEC};
use crate::error::{DtErr, DtErrKind};
use crate::scale::Scale;
use vstd::string::StringSliceAdditionalSpecFns;

verus! {

/// ASCII whitespace: space, tab, line feed, form feed, carriage return.
pub open spec fn is_ws(b: u8) -> bool {
    b == 32 || b == 9 || b == 10 || b == 12 || b == 13
}

/// An ASCII decimal digit.
pub open spec fn is_digit(b: u8) -> bool {
    48 <= b <= 57
}

/// The first position at or after `p` that is not whitespace (or the end).
pub open spec fn skip_ws(s: Seq<u8>, p: int) -> int
    decreases s.len() - p,
{
    if p < 0 || p >= s.len() || !is_ws(s[p]) { p } else { skip_ws(s, p + 1) }
}

/// The first position at or after `p` that is not a digit (or the end).
pub open spec fn digits_end(s: Seq<u8>, p: int) -> int
    decreases s.len() - p,
{
    if p < 0 || p >= s.len() || !is_digit(s[p]) { p } else { digits_end(s, p + 1) }
}

/// The decimal value of the digits `s[p..e]`, accumulated with saturation at `i128::MAX`.
pub open spec fn sat_num(s: Seq<u8>, p: int, e: int) -> int
    decreases e - p,
{
    if e <= p { 0 } else { clamp128(clamp128(10 * sat_num(s, p, e - 1)) + (s[e - 1] - 48)) }
}

proof fn lemma_skip_ws_bounds(s: Seq<u8>, p: int)
    requires
        0 <= p <= s.len(),
    ensures
        p <= skip_ws(s, p) <= s.len(),
        skip_ws(s, p) < s.len() ==> !is_ws(s[skip_ws(s, p)]),
    decreases s.len() - p,
{
    if p < s.len() && is_ws(s[p]) {
        lemma_skip_ws_bounds(s, p + 1);
    }
}

proof fn lemma_digits_end_bounds(s: Seq<u8>, p: int)
    requires
        0 <= p <= s.len(),
    ensures
        p <= digits_end(s, p) <= s.len(),
        digits_end(s, p) < s.len() ==> !is_digit(s[digits_end(s, p)]),
        forall|i: int| p <= i < digits_end(s, p) ==> is_digit(#[trigger] s[i]),
    decreases s.len() - p,
{
    if p < s.len() && is_digit(s[p]) {
        lemma_digits_end_bounds(s, p + 1);
    }
}

proof fn lemma_sat_num_range(s: Seq<u8>, p: int, e: int)
    requires
        forall|i: int| p <= i < e ==> is_digit(#[trigger] s[i]),
    ensures
        0 <= sat_num(s, p, e) <= i128::MAX,
    decreases e - p,
{
    if e > p {
        lemma_sat_num_range(s, p, e - 1);
        assert(is_digit(s[e - 1]));
    }
}

/// The position of the first non-whitespace byte at or after `p`.
fn scan_ws(s: &[u8], p: usize) -> (r: usize)
    requires
        p <= s@.len(),
    ensures
        r == skip_ws(s@, p as int),
        p <= r <= s@.len(),
        r < s@.len() ==> !is_ws(s@[r as int]),
{
    let mut i = p;
    while i < s.len() && (s[i] == 32 || s[i] == 9 || s[i] == 10 || s[i] == 12 || s[i] == 13)
        invariant
            p <= i <= s@.len(),
            skip_ws(s@, p as int) == skip_ws(s@, i as int),
        decreases s@.len() - i,
    {
        i += 1;
    }
    proof { lemma_skip_ws_bounds(s@, p as int); }
    i
}

/// Scans the digits starting at `p`: their end and their saturated value.
fn scan_uint(s: &[u8], p: usize) -> (r: (usize, i128))
    requires
        p <= s@.len(),
    ensures
        r.0 == digits_end(s@, p as int),
        r.1 == sat_num(s@, p as int, r.0 as int),
        p <= r.0 <= s@.len(),
        0 <= r.1,
{
    let mut i = p;
    let mut v: i128 = 0;
    proof { lemma_digits_end_bounds(s@, p as int); }
    while i < s.len() && 48 <= s[i] && s[i] <= 57
        invariant
            p <= i <= s@.len(),
            digits_end(s@, p as int) == digits_end(s@, i as int),
            v == sat_num(s@, p as int, i as int),
            forall|k: int| p <= k < i ==> is_digit(#[trigger] s@[k]),
        decreases s@.len() - i,
    {
        proof { lemma_sat_num_range(s@, p as int, i as int); }
        v = sat_add(sat_mul(v, 10), (s[i] - 48) as i128);
        i += 1;
    }
    proof { lemma_sat_num_range(s@, p as int, i as int); }
    (i, v)
}

/// The components of a media timestamp from position `p`, `n` already read:
/// numbers separated by `:`, at most four in all (a `:` after the fourth is
/// `InvalidSyntax`); with the position after them.
pub open spec fn media_comps(s: Seq<u8>, p: int, n: int) -> Result<(Seq<int>, int), DtErrKind>
    decreases 4 - n,
{
    if n >= 4 {
        Ok((Seq::empty(), p))
    } else if p < 0 || p >= s.len() || !is_digit(s[p]) {
        Err(DtErrKind::ExpectedValue)
    } else {
        let e = digits_end(s, p);
        let v = sat_num(s, p, e);
        if e >= s.len() || s[e] != 58 {
            Ok((seq![v], e))
        } else if n >= 3 {
            Err(DtErrKind::InvalidSyntax)
        } else if e + 1 >= s.len() || !is_digit(s[e + 1]) {
            Err(DtErrKind::ExpectedValue)
        } else {
            match media_comps(s, e + 1, n + 1) {
                Ok((rest, q)) => Ok((seq![v] + rest, q)),
                Err(k) => Err(k),
            }
        }
    }
}

/// Seconds of a media timestamp's components (`M:SS`, `H:MM:SS` or `D:H:MM:SS`),
/// each step saturating.
pub open spec fn media_secs(c: Seq<int>) -> int {
    if c.len() == 2 {
        clamp128(clamp128(c[0] * 60) + c[1])
    } else if c.len() == 3 {
        clamp128(clamp128(clamp128(c[0] * 3600) + clamp128(c[1] * 60)) + c[2])
    } else {
        clamp128(clamp128(clamp128(clamp128(c[0] * 86400) + clamp128(c[1] * 3600)) + clamp128(c[2] * 60)) + c[3])
    }
}

/// The attoseconds of a media timestamp, or the error for it.
pub open spec fn media_parse(s: Seq<u8>) -> Result<int, DtErrKind> {
    let p0 = skip_ws(s, 0);
    if p0 >= s.len() {
        Err(DtErrKind::Empty)
    } else if s[p0] == 45 && p0 + 1 == s.len() {
        Err(DtErrKind::InvalidInput)
    } else {
        let neg = s[p0] == 45;
        let p1 = if neg { p0 + 1 } else { p0 };
        match media_comps(s, p1, 0) {
            Err(k) => Err(k),
            Ok((c, q)) => if c.len() < 2 {
                Err(DtErrKind::InvalidSyntax)
            } else if skip_ws(s, q) != s.len() {
                Err(DtErrKind::TrailingCharacters)
            } else {
                let secs = if neg { -media_secs(c) } else { media_secs(c) };
                Ok(clamp128(secs * ATTOS_PER_SEC))
            },
        }
    }
}

proof fn lemma_media_comps_shape(s: Seq<u8>, p: int, n: int)
    requires
        0 <= n <= 4,
        0 <= p <= s.len(),
    ensures
        media_comps(s, p, n) matches Ok((c, q)) ==> {
            &&& c.len() <= 4 - n
            &&& (n < 4 ==> c.len() >= 1)
            &&& p <= q <= s.len()
            &&& forall|i: int| 0 <= i < c.len() ==> 0 <= #[trigger] c[i] <= i128::MAX
        },
    decreases 4 - n,
{
    if n < 4 && p < s.len() && is_digit(s[p]) {
        let e = digits_end(s, p);
        lemma_digits_end_bounds(s, p);
        lemma_sat_num_range(s, p, e);
        if e < s.len() && s[e] == 58 && e + 1 < s.len() && is_digit(s[e + 1]) {
            lemma_media_comps_shape(s, e + 1, n + 1);
            if let Ok((rest, q)) = media_comps(s, e + 1, n + 1) {
                let c = seq![sat_num(s, p, e)] + rest;
                assert forall|i: int| 0 <= i < c.len() implies 0 <= #[trigger] c[i] <= i128::MAX by {
                    if i > 0 { assert(c[i] == rest[i - 1]); }
                }
            }
        }
    }
}

/// Reads the media components from `p` (`n` already read).
fn parse_media_comps(s: &[u8], p: usize, n: usize) -> (r: Result<(Vec<i128>, usize), DtErrKind>)
    requires
        p <= s@.len(),
        n <= 4,
    ensures
        match media_comps(s@, p as int, n as int) {
            Ok((c, q)) => r matches Ok((v, q2)) && q2 == q && v@.len() == c.len()
                && forall|i: int| 0 <= i < c.len() ==> v@[i] as int == #[trigger] c[i],
            Err(k) => r == Err::<(Vec<i128>, usize), DtErrKind>(k),
        },
    decreases 4 - n,
{
    if n >= 4 {
        return Ok((Vec::new(), p));
    }
    if p >= s.len() || !(48 <= s[p] && s[p] <= 57) {
        return Err(DtErrKind::ExpectedValue);
    }
    let (e, v) = scan_uint(s, p);
    if e >= s.len() || s[e] != 58 {
        let mut out = Vec::new();
        out.push(v);
        return Ok((out, e));
    }
    if n >= 3 {
        return Err(DtErrKind::InvalidSyntax);
    }
    if e + 1 >= s.len() || !(48 <= s[e + 1] && s[e + 1] <= 57) {
        return Err(DtErrKind::ExpectedValue);
    }
    match parse_media_comps(s, e + 1, n + 1) {
        Ok((rest, q)) => {
            let ghost rs = rest@;
            let mut out = rest;
            out.insert(0, v);
            proof {
                if let Ok((c, _)) = media_comps(s@, p as int, n as int) {
                    assert forall|i: int| 0 <= i < c.len() implies out@[i] as int == #[trigger] c[i] by {
                        if i > 0 { assert(out@[i] == rs[i - 1]); }
                    }
                }
            }
            Ok((out, q))
        },
        Err(k) => Err(k),
    }
}

impl Dt {
    /// Parses a media-style duration: `M:SS`, `H:MM:SS` or `D:H:MM:SS`, with an
    /// optional leading `-` and surrounding ASCII whitespace. The fields are
    /// not range-checked, and the arithmetic saturates. The result is a
    /// duration on TAI.
    pub fn from_str_media_duration(input: &str) -> (r: Result<Dt, DtErr>)
        ensures
            match media_parse(input.spec_bytes()) {
                Ok(a) => r matches Ok(d) && d.attos == a && d.scale == Scale::TAI && d.target == Scale::TAI,
                Err(k) => r matches Err(e) && e.kind == k,
            },
    {
        let bytes = input.as_bytes();
        let len = bytes.len();
        let ghost s = bytes@;
        let mut pos = scan_ws(bytes, 0);
        if pos == len {
            return Err(DtErr::new(DtErrKind::Empty));
        }
        let negative = bytes[pos] == 45;
        if negative {
            pos += 1;
            if pos == len {
                return Err(DtErr::new(DtErrKind::InvalidInput));
            }
        }
        let comps = match parse_media_comps(bytes, pos, 0) {
            Ok(x) => x,
            Err(k) => return Err(DtErr::new(k)),
        };
        let (c, q) = comps;
        proof { lemma_media_comps_shape(s, pos as int, 0); }
        let count = c.len();
        if count < 2 {
            return Err(DtErr::new(DtErrKind::InvalidSyntax));
        }
        let end = scan_ws(bytes, q);
        if end != len {
            return Err(DtErr::new(DtErrKind::TrailingCharacters));
        }
        let total_sec: i128 = if count == 2 {
            sat_add(sat_mul(c[0], 60), c[1])
        } else if count == 3 {
            sat_add(sat_add(sat_mul(c[0], 3600), sat_mul(c[1], 60)), c[2])
        } else {
            sat_add(sat_add(sat_add(sat_mul(c[0], 86400), sat_mul(c[1], 3600)), sat_mul(c[2], 60)), c[3])
        };
        let total_sec = if negative { -total_sec } else { total_sec };
        Ok(Dt::new(Dt::sec_to_attos(total_sec), Scale::TAI, Scale::TAI))
    }
}

/// `10^k`.
pub open spec fn pow10(k: nat) -> int
    decreases k,
{
    if k == 0 { 1 } else { 10 * pow10((k - 1) as nat) }
}

/// The optional `:SS[.frac]` that follows the minutes at position `p`: the
/// seconds, the fraction in attoseconds (digits past the 18th are read and
/// dropped), and the position after them.
pub open spec fn h_mm_tail(s: Seq<u8>, p: int) -> Result<(int, int, int), DtErrKind> {
    if 0 <= p < s.len() && s[p] == 58 {
        let p3 = p + 1;
        if p3 >= s.len() || !is_digit(s[p3]) {
            Err(DtErrKind::ExpectedValue)
        } else {
            let e3 = digits_end(s, p3);
            let se = sat_num(s, p3, e3);
            if se > 59 {
                Err(DtErrKind::InvalidInput)
            } else if e3 < s.len() && s[e3] == 46 {
                let p4 = e3 + 1;
                if p4 >= s.len() || !is_digit(s[p4]) {
                    Err(DtErrKind::ExpectedValue)
                } else {
                    let e4 = digits_end(s, p4);
                    let n = if e4 - p4 < 18 { e4 - p4 } else { 18 };
                    Ok((se, clamp128(sat_num(s, p4, p4 + n) * pow10((18 - n) as nat)), e4))
                }
            } else {
                Ok((se, 0, e3))
            }
        }
    } else if 0 <= p < s.len() && s[p] == 46 {
        Err(DtErrKind::InvalidSyntax)
    } else {
        Ok((0, 0, p))
    }
}

/// The attoseconds of an `H:MM[:SS[.frac]]` elapsed time, or the error for it.
pub open spec fn h_mm_parse(s: Seq<u8>) -> Result<int, DtErrKind> {
    let p0 = skip_ws(s, 0);
    if p0 >= s.len() {
        Err(DtErrKind::Empty)
    } else if s[p0] == 45 && p0 + 1 == s.len() {
        Err(DtErrKind::InvalidInput)
    } else {
        let neg = s[p0] == 45;
        let p1 = if neg { p0 + 1 } else { p0 };
        if p1 >= s.len() || !is_digit(s[p1]) {
            Err(DtErrKind::ExpectedValue)
        } else {
            let e1 = digits_end(s, p1);
            let h = sat_num(s, p1, e1);
            if e1 >= s.len() || s[e1] != 58 {
                Err(DtErrKind::InvalidSyntax)
            } else if e1 + 1 >= s.len() || !is_digit(s[e1 + 1]) {
                Err(DtErrKind::ExpectedValue)
            } else {
                let e2 = digits_end(s, e1 + 1);
                let mi = sat_num(s, e1 + 1, e2);
                if mi > 59 {
                    Err(DtErrKind::InvalidInput)
                } else {
                    match h_mm_tail(s, e2) {
                        Err(k) => Err(k),
                        Ok((se, fa, q)) => if skip_ws(s, q) != s.len() {
                            Err(DtErrKind::TrailingCharacters)
                        } else {
                            let a = clamp128(clamp128(clamp128(clamp128(clamp128(h * 3600)
                                + clamp128(mi * 60)) + se) * ATTOS_PER_SEC) + fa);
                            Ok(if neg { -a } else { a })
                        },
                    }
                }
            }
        }
    }
}

/// `10^k` for `k <= 18`.
fn pow10_i128(k: u32) -> (r: i128)
    requires
        k <= 18,
    ensures
        r == pow10(k as nat),
        1 <= r <= 1_000_000_000_000_000_000,
{
    let mut r: i128 = 1;
    let mut i: u32 = 0;
    while i < k
        invariant
            i <= k <= 18,
            r == pow10(i as nat),
        decreases k - i,
    {
        proof {
            lemma_pow10_le((i + 1) as nat);
            assert(pow10((i + 1) as nat) == 10 * pow10(i as nat));
        }
        r = r * 10;
        i += 1;
    }
    proof { lemma_pow10_le(k as nat); }
    r
}

proof fn lemma_pow10_le(k: nat)
    requires
        k <= 18,
    ensures
        1 <= pow10(k),
        pow10(k) * pow10((18 - k) as nat) == 1_000_000_000_000_000_000,
        pow10(k) <= 1_000_000_000_000_000_000,
    decreases 18 - k,
{
    reveal_with_fuel(pow10, 19);
    if k < 18 {
        lemma_pow10_le(k + 1);
        assert(pow10(k + 1) == 10 * pow10(k));
        assert(pow10((18 - k) as nat) == 10 * pow10((18 - (k + 1)) as nat));
        assert(pow10(k) * pow10((18 - k) as nat) == pow10(k + 1) * pow10((18 - (k + 1)) as nat)) by (nonlinear_arith)
            requires pow10(k + 1) == 10 * pow10(k), pow10((18 - k) as nat) == 10 * pow10((18 - (k + 1)) as nat);
        assert(pow10(k) <= pow10(k) * pow10((18 - k) as nat)) by (nonlinear_arith)
            requires pow10(k) >= 1, pow10((18 - k) as nat) >= 1;
    }
}

impl Dt {
    /// The attoseconds of an `H:MM` or `H:MM:SS[.frac]` elapsed time: hours
    /// unbounded, minutes and seconds in `0..=59`, an optional fraction on the
    /// seconds (digits past the 18th dropped), an optional leading `-` and
    /// surrounding ASCII whitespace; the arithmetic saturates.
    pub(crate) fn h_mm_duration_attos(input: &str) -> (r: Result<i128, DtErr>)
        ensures
            match h_mm_parse(input.spec_bytes()) {
                Ok(a) => r matches Ok(x) && x == a,
                Err(k) => r matches Err(e) && e.kind == k,
            },
    {
        let bytes = input.as_bytes();
        let len = bytes.len();
        let ghost s = bytes@;
        let mut pos = scan_ws(bytes, 0);
        if pos == len {
            return Err(DtErr::new(DtErrKind::Empty));
        }
        let neg = bytes[pos] == 45;
        if neg {
            pos += 1;
            if pos == len {
                return Err(DtErr::new(DtErrKind::InvalidInput));
            }
        }
        if pos >= len || !(48 <= bytes[pos] && bytes[pos] <= 57) {
            return Err(DtErr::new(DtErrKind::ExpectedValue));
        }
        let (e1, hours) = scan_uint(bytes, pos);
        if e1 >= len || bytes[e1] != 58 {
            return Err(DtErr::new(DtErrKind::InvalidSyntax));
        }
        let p2 = e1 + 1;
        if p2 >= len || !(48 <= bytes[p2] && bytes[p2] <= 57) {
            return Err(DtErr::new(DtErrKind::ExpectedValue));
        }
        let (e2, minutes) = scan_uint(bytes, p2);
        if minutes > 59 {
            return Err(DtErr::new(DtErrKind::InvalidInput));
        }
        let mut seconds: i128 = 0;
        let mut frac_attos: i128 = 0;
        let mut pos = e2;
        if e2 < len && bytes[e2] == 58 {
            let p3 = e2 + 1;
            if p3 >= len || !(48 <= bytes[p3] && bytes[p3] <= 57) {
                return Err(DtErr::new(DtErrKind::ExpectedValue));
            }
            let (e3, se) = scan_uint(bytes, p3);
            if se > 59 {
                return Err(DtErr::new(DtErrKind::InvalidInput));
            }
            seconds = se;
            pos = e3;
            if e3 < len && bytes[e3] == 46 {
                let p4 = e3 + 1;
                if p4 >= len || !(48 <= bytes[p4] && bytes[p4] <= 57) {
                    return Err(DtErr::new(DtErrKind::ExpectedValue));
                }
                proof { lemma_digits_end_bounds(s, p4 as int); }
                let mut digits: u32 = 0;
                let mut frac: i128 = 0;
                let mut i = p4;
                while i < len && 48 <= bytes[i] && bytes[i] <= 57
                    invariant
                        p4 <= i <= len,
                        len == s.len(),
                        s == bytes@,
                        digits_end(s, p4 as int) == digits_end(s, i as int),
                        digits == (if i - p4 < 18 { i - p4 } else { 18 }),
                        frac == sat_num(s, p4 as int, p4 + digits),
                        0 <= frac,
                        forall|k: int| p4 <= k < i ==> is_digit(#[trigger] s[k]),
                    decreases len - i,
                {
                    if digits < 18 {
                        proof { lemma_sat_num_range(s, p4 as int, p4 + digits); }
                        frac = sat_add(sat_mul(frac, 10), (bytes[i] - 48) as i128);
                        digits += 1;
                    }
                    i += 1;
                }
                proof { lemma_sat_num_range(s, p4 as int, p4 + digits); }
                frac_attos = sat_mul(frac, pow10_i128(18 - digits));
                pos = i;
            }
        } else if e2 < len && bytes[e2] == 46 {
            return Err(DtErr::new(DtErrKind::InvalidSyntax));
        }
        let end = scan_ws(bytes, pos);
        if end != len {
            return Err(DtErr::new(DtErrKind::TrailingCharacters));
        }
        let attos = sat_add(sat_mul(sat_add(sat_add(sat_mul(hours, 3600), sat_mul(minutes, 60)), seconds), ATTOS_PER_SEC), frac_attos);
        proof {
            lemma_sat_num_range(s, pos as int, pos as int);
        }
        let attos = if neg { -attos } else { attos };
        Ok(attos)
    }

    /// Parses an `H:MM` or `H:MM:SS[.frac]` elapsed time (hours unbounded) into a
    /// duration on TAI; see [`Dt::h_mm_duration_attos`] for the grammar.
    pub fn from_str_h_mm_duration(input: &str) -> (r: Result<Dt, DtErr>)
        ensures
            match h_mm_parse(input.spec_bytes()) {
                Ok(a) => r matches Ok(d) && d.attos == a && d.scale == Scale::TAI && d.target == Scale::TAI,
                Err(k) => r matches Err(e) && e.kind == k,
            },
    {
        match Self::h_mm_duration_attos(input) {
            Ok(a) => Ok(Dt::new(a, Scale::TAI, Scale::TAI)),
            Err(e) => Err(e),
        }
    }
}

/// Seconds in the average Julian year (365.25 days) used for `Y`.
pub const SEC_PER_YEAR: i128 = 31_557_600;
/// Seconds in the average month (a twelfth of the Julian year) used for `M` in the date part.
pub const SEC_PER_MONTH: i128 = 2_629_800;

/// One component of an ISO 8601 duration: unit byte, whole number, the
/// whole number with the duration's sign, count of fraction digits and the
/// fraction digits' value.
struct IsoComponent {
    unit: u8,
    int: i64,
    signed_int: i64,
    frac_digits: usize,
    frac_num: i64,
}

/// The component of an ISO duration part `c` that starts at `i` (with `hf`
/// telling whether a fraction was already read), or the error for it.
pub open spec fn iso_component(c: Seq<u8>, i: int, hf: bool) -> Result<(int, int, int, int, int), DtErrKind> {
    if hf {
        Err(DtErrKind::TrailingCharacters)
    } else {
        let e = digits_end(c, i);
        let v = sat_num(c, i, e);
        if e == i {
            Err(DtErrKind::ExpectedValue)
        } else if v > i64::MAX {
            Err(DtErrKind::InvalidNumber)
        } else {
            let has_dot = e < c.len() && (c[e] == 46 || c[e] == 44);
            let fe = if has_dot { digits_end(c, e + 1) } else { e };
            let nd = if has_dot { fe - (e + 1) } else { 0 };
            if has_dot && nd == 0 {
                Err(DtErrKind::ExpectedFractional)
            } else if nd > 9 {
                Err(DtErrKind::FracOutOfRange)
            } else if fe >= c.len() {
                Err(DtErrKind::ExpectedUnit)
            } else if nd > 0 && !(c[fe] == 83 || c[fe] == 115) {
                Err(DtErrKind::InvalidItem)
            } else {
                Ok((c[fe] as int, v, nd, if has_dot { sat_num(c, e + 1, fe) } else { 0 }, fe + 1))
            }
        }
    }
}

/// The nanoseconds one component adds: `Y`, `M`, `W`, `D` in the date part,
/// `H`, `M`, `S` (with its fraction, truncated toward zero) in the time part.
pub open spec fn iso_contrib(is_date: bool, unit: int, v: int, sign: int, nd: int, fnum: int) -> Result<int, DtErrKind> {
    let n = v * sign;
    if is_date && (unit == 89 || unit == 121) {
        Ok(n * SEC_PER_YEAR * 1_000_000_000)
    } else if is_date && (unit == 77 || unit == 109) {
        Ok(n * SEC_PER_MONTH * 1_000_000_000)
    } else if is_date && (unit == 87 || unit == 119) {
        Ok(n * 604_800 * 1_000_000_000)
    } else if is_date && (unit == 68 || unit == 100) {
        Ok(n * 86_400 * 1_000_000_000)
    } else if !is_date && (unit == 72 || unit == 104) {
        Ok(n * 3_600_000_000_000)
    } else if !is_date && (unit == 77 || unit == 109) {
        Ok(n * 60_000_000_000)
    } else if !is_date && (unit == 83 || unit == 115) {
        Ok(n * 1_000_000_000 + if nd > 0 { tdiv(fnum * sign * 1_000_000_000, pow10(nd as nat)) } else { 0 })
    } else {
        Err(DtErrKind::UnknownItem)
    }
}

/// Reads the components of part `c` from `i`, adding their nanoseconds to
/// `total` (saturating); gives the total and whether a fraction was read.
pub open spec fn iso_part(c: Seq<u8>, i: int, is_date: bool, sign: int, hf: bool, total: int) -> Result<(int, bool), DtErrKind>
    decreases c.len() - i,
{
    if i < 0 || i >= c.len() {
        Ok((total, hf))
    } else {
        match iso_component(c, i, hf) {
            Err(k) => Err(k),
            Ok((unit, v, nd, fnum, next)) => match iso_contrib(is_date, unit, v, sign, nd, fnum) {
                Err(k) => Err(k),
                // (a component always ends after it starts; the guard only makes that visible)
                Ok(x) => if next <= i {
                    Ok((total, hf))
                } else {
                    iso_part(c, next, is_date, sign, hf || nd > 0, clamp128(total + x))
                },
            },
        }
    }
}

/// The first position at or after `p` holding `T` or `t` (or the end).
pub open spec fn find_t(s: Seq<u8>, p: int) -> int
    decreases s.len() - p,
{
    if p < 0 || p >= s.len() || s[p] == 84 || s[p] == 116 { p } else { find_t(s, p + 1) }
}

/// The attoseconds of an ISO 8601 duration, or the error for it.
pub open spec fn iso_parse(b: Seq<u8>) -> Result<int, DtErrKind> {
    if b.len() == 0 {
        Err(DtErrKind::Empty)
    } else {
        let has_sign = b[0] == 43 || b[0] == 45;
        let sign: int = if b[0] == 45 { -1 } else { 1 };
        let i: int = if has_sign { 1 } else { 0 };
        if i >= b.len() || !(b[i] == 80 || b[i] == 112) {
            Err(DtErrKind::MustStartWith)
        } else {
            let t = find_t(b, i + 1);
            if t < b.len() && (t == b.len() - 1 || find_t(b, t + 1) < b.len()) {
                Err(DtErrKind::InvalidSyntax)
            } else {
                let date = b.subrange(i + 1, t);
                let time = if t < b.len() { b.subrange(t + 1, b.len() as int) } else { Seq::empty() };
                match iso_part(date, 0, true, sign, false, 0) {
                    Err(k) => Err(k),
                    Ok((tot, hf)) => match iso_part(time, 0, false, sign, hf, tot) {
                        Err(k) => Err(k),
                        Ok((tot2, _)) => if i128::MIN <= tot2 * 1_000_000_000 <= i128::MAX {
                            Ok(tot2 * 1_000_000_000)
                        } else {
                            Err(DtErrKind::OutOfRange)
                        },
                    },
                }
            }
        }
    }
}

/// Reads one component of part `c` at `*i` and moves `*i` past it: `None`
/// at the end of the part (nothing changes); otherwise the component that
/// `iso_component` describes, its whole number also given with `sign`, and
/// `*has_fraction` set once a fraction has been read; or the error for it.
fn parse_next_component(c: &[u8], i: &mut usize, sign: i64, has_fraction: &mut bool)
    -> (r: Result<Option<IsoComponent>, DtErrKind>)
    requires
        sign == 1 || sign == -1,
    ensures
        *old(i) >= c@.len() ==> (r matches Ok(None) && *final(i) == *old(i) && *final(has_fraction) == *old(has_fraction)),
        *old(i) < c@.len() ==> (match iso_component(c@, *old(i) as int, *old(has_fraction)) {
            Ok((unit, v, nd, fnum, next)) => r matches Ok(Some(x)) && x.unit == unit && x.int == v
                && x.signed_int == v * sign && x.frac_digits == nd && x.frac_num == fnum
                && *final(i) == next && *old(i) < *final(i) <= c@.len()
                && *final(has_fraction) == (*old(has_fraction) || nd > 0),
            Err(k) => r matches Err(e) && e == k,
        }),
{
    if *i >= c.len() {
        return Ok(None);
    }
    if *has_fraction {
        return Err(DtErrKind::TrailingCharacters);
    }
    let start = *i;
    let (e, v) = scan_uint(c, start);
    if e == start {
        return Err(DtErrKind::ExpectedValue);
    }
    if v > i64::MAX as i128 {
        return Err(DtErrKind::InvalidNumber);
    }
    proof { lemma_digits_end_bounds(c@, start as int); lemma_sat_num_range(c@, start as int, e as int); }
    let mut frac_num: i64 = 0;
    let mut frac_digits: usize = 0;
    let mut pos = e;
    if e < c.len() && (c[e] == 46 || c[e] == 44) {
        let (fe, fv) = scan_uint(c, e + 1);
        frac_digits = fe - (e + 1);
        if frac_digits == 0 {
            return Err(DtErrKind::ExpectedFractional);
        }
        if frac_digits > 9 {
            return Err(DtErrKind::FracOutOfRange);
        }
        proof {
            lemma_digits_end_bounds(c@, (e + 1) as int);
            lemma_sat_num_small(c@, (e + 1) as int, fe as int);
        }
        frac_num = fv as i64;
        pos = fe;
    }
    if pos >= c.len() {
        return Err(DtErrKind::ExpectedUnit);
    }
    let unit = c[pos];
    if frac_digits > 0 && !(unit == 83 || unit == 115) {
        return Err(DtErrKind::InvalidItem);
    }
    *i = pos + 1;
    if frac_digits > 0 {
        *has_fraction = true;
    }
    let whole = v as i64;
    let signed_int = whole * sign;
    Ok(Some(IsoComponent { unit, int: whole, signed_int, frac_digits, frac_num }))
}

/// At most nine digits have a value below `10^9`.
proof fn lemma_sat_num_small(s: Seq<u8>, p: int, e: int)
    requires
        p <= e <= p + 9,
        forall|i: int| p <= i < e ==> is_digit(#[trigger] s[i]),
    ensures
        0 <= sat_num(s, p, e) < pow10((e - p) as nat),
        pow10((e - p) as nat) <= 1_000_000_000,
    decreases e - p,
{
    reveal_with_fuel(pow10, 10);
    if e > p {
        lemma_sat_num_small(s, p, e - 1);
        assert(is_digit(s[e - 1]));
        assert(pow10((e - p) as nat) == 10 * pow10((e - 1 - p) as nat));
    }
}

/// The nanoseconds one component adds.
fn component_nanos(is_date: bool, comp: &IsoComponent, sign: i64) -> (r: Result<i128, DtErrKind>)
    requires
        sign == 1 || sign == -1,
        0 <= comp.int,
        comp.signed_int == comp.int * sign,
        comp.frac_digits <= 9,
        0 <= comp.frac_num < pow10(comp.frac_digits as nat),
        comp.frac_num < 1_000_000_000,
    ensures
        match iso_contrib(is_date, comp.unit as int, comp.int as int, sign as int, comp.frac_digits as int, comp.frac_num as int) {
            Ok(x) => r == Ok::<i128, DtErrKind>(x as i128) && i128::MIN <= x <= i128::MAX,
            Err(k) => r == Err::<i128, DtErrKind>(k),
        },
{
    let n = comp.signed_int as i128;
    let u = comp.unit;
    if is_date && (u == 89 || u == 121) {
        match n.checked_mul(SEC_PER_YEAR) {
            Some(t) => Ok(t * 1_000_000_000),
            None => Err(DtErrKind::YearOutOfRange),
        }
    } else if is_date && (u == 77 || u == 109) {
        match n.checked_mul(SEC_PER_MONTH) {
            Some(t) => Ok(t * 1_000_000_000),
            None => Err(DtErrKind::MonthOutOfRange),
        }
    } else if is_date && (u == 87 || u == 119) {
        match n.checked_mul(604_800) {
            Some(t) => Ok(t * 1_000_000_000),
            None => Err(DtErrKind::WeekOutOfRange),
        }
    } else if is_date && (u == 68 || u == 100) {
        match n.checked_mul(86_400) {
            Some(t) => Ok(t * 1_000_000_000),
            None => Err(DtErrKind::DayOutOfRange),
        }
    } else if !is_date && (u == 72 || u == 104) {
        Ok(n * 3_600_000_000_000)
    } else if !is_date && (u == 77 || u == 109) {
        Ok(n * 60_000_000_000)
    } else if !is_date && (u == 83 || u == 115) {
        let mut sec_nanos = n * 1_000_000_000;
        if comp.frac_digits > 0 {
            proof { lemma_pow10_le(comp.frac_digits as nat); }
            let frac_ns = crate::arith::div_trunc(
                (comp.frac_num as i128) * (sign as i128) * 1_000_000_000,
                pow10_i128(comp.frac_digits as u32),
            );
            proof {
                let a = (comp.frac_num as int) * (sign as int) * 1_000_000_000;
                let d = pow10(comp.frac_digits as nat);
                assert(-1_000_000_000_000_000_000 <= a <= 1_000_000_000_000_000_000) by (nonlinear_arith)
                    requires a == (comp.frac_num as int) * (sign as int) * 1_000_000_000,
                        0 <= comp.frac_num < 1_000_000_000, sign == 1 || sign == -1;
                crate::arith::lemma_tdiv_bound(a, d);
            }
            sec_nanos = sec_nanos + frac_ns;
        }
        Ok(sec_nanos)
    } else {
        Err(DtErrKind::UnknownItem)
    }
}

/// Copies `b[lo..hi]` into a vector.
fn copy_range(b: &[u8], lo: usize, hi: usize) -> (r: Vec<u8>)
    requires
        lo <= hi <= b@.len(),
    ensures
        r@ == b@.subrange(lo as int, hi as int),
{
    let mut v: Vec<u8> = Vec::new();
    let mut k = lo;
    while k < hi
        invariant
            lo <= k <= hi <= b@.len(),
            v@ == b@.subrange(lo as int, k as int),
        decreases hi - k,
    {
        v.push(b[k]);
        k += 1;
        proof { assert(v@ =~= b@.subrange(lo as int, k as int)); }
    }
    v
}

/// Reads all components of part `c`, adding their nanoseconds to `total`.
fn parse_duration_part(c: &[u8], total: i128, is_date: bool, sign: i64, has_fraction: bool)
    -> (r: Result<(i128, bool), DtErrKind>)
    requires
        sign == 1 || sign == -1,
    ensures
        match iso_part(c@, 0, is_date, sign as int, has_fraction, total as int) {
            Ok((t, hf)) => r matches Ok(x) && x.0 == t && x.1 == hf,
            Err(k) => r matches Err(e) && e == k,
        },
{
    let mut i: usize = 0;
    let mut tot = total;
    let mut hf = has_fraction;
    while i < c.len()
        invariant
            i <= c@.len(),
            sign == 1 || sign == -1,
            iso_part(c@, 0, is_date, sign as int, has_fraction, total as int)
                == iso_part(c@, i as int, is_date, sign as int, hf, tot as int),
        decreases c@.len() - i,
    {
        let ghost i0 = i as int;
        let ghost hf0 = hf;
        let comp = match parse_next_component(c, &mut i, sign, &mut hf) {
            Ok(Some(x)) => x,
            Ok(None) => return Ok((tot, hf)),
            Err(k) => return Err(k),
        };
        proof {
            lemma_digits_end_bounds(c@, i0);
            lemma_sat_num_range(c@, i0, digits_end(c@, i0));
            let e = digits_end(c@, i0);
            if e < c@.len() && (c@[e] == 46 || c@[e] == 44) {
                lemma_digits_end_bounds(c@, e + 1);
                lemma_sat_num_small(c@, e + 1, digits_end(c@, e + 1));
            } else {
                reveal_with_fuel(pow10, 1);
            }
        }
        let x = match component_nanos(is_date, &comp, sign) {
            Ok(x) => x,
            Err(k) => return Err(k),
        };
        tot = sat_add(tot, x);
    }
    Ok((tot, hf))
}

impl Dt {
    /// Parses an ISO 8601 duration such as `P1Y2M3DT4H5M6.5S`, `-PT30M` or
    /// `P7W` into a duration on TAI. An optional leading sign applies to
    /// every component; `Y` is 365.25 days, `M` (date part) a twelfth of
    /// that, `W` 7 days, `D` 86 400 s; only the final seconds component may
    /// carry a fraction, of at most nine digits. Unit letters may be lower case.
    pub fn from_iso_duration(s: &str) -> (r: Result<Dt, DtErr>)
        ensures
            match iso_parse(s.spec_bytes()) {
                Ok(a) => r matches Ok(d) && d.attos == a && d.scale == Scale::TAI && d.target == Scale::TAI,
                Err(k) => r matches Err(e) && e.kind == k,
            },
    {
        let b = s.as_bytes();
        let len = b.len();
        if len == 0 {
            return Err(DtErr::new(DtErrKind::Empty));
        }
        let mut i: usize = 0;
        let mut sign: i64 = 1;
        if b[0] == 43 || b[0] == 45 {
            if b[0] == 45 {
                sign = -1;
            }
            i = 1;
        }
        if i >= len || !(b[i] == 80 || b[i] == 112) {
            return Err(DtErr::new(DtErrKind::MustStartWith));
        }
        i += 1;
        let t = find_t_exec(b, i);
        let date_part;
        let time_part;
        if t < len {
            if t == len - 1 {
                return Err(DtErr::new(DtErrKind::InvalidSyntax));
            }
            if find_t_exec(b, t + 1) < len {
                return Err(DtErr::new(DtErrKind::InvalidSyntax));
            }
            date_part = copy_range(b, i, t);
            time_part = copy_range(b, t + 1, len);
        } else {
            date_part = copy_range(b, i, len);
            time_part = Vec::new();
            proof { assert(time_part@ =~= Seq::<u8>::empty()); }
        }
        let (tot, hf) = match parse_duration_part(date_part.as_slice(), 0, true, sign, false) {
            Ok(x) => x,
            Err(k) => return Err(DtErr::new(k)),
        };
        let (tot2, _) = match parse_duration_part(time_part.as_slice(), tot, false, sign, hf) {
            Ok(x) => x,
            Err(k) => return Err(DtErr::new(k)),
        };
        match tot2.checked_mul(1_000_000_000) {
            Some(a) => Ok(Dt::new(a, Scale::TAI, Scale::TAI)),
            None => Err(DtErr::new(DtErrKind::OutOfRange)),
        }
    }
}

/// The first position at or after `p` holding `T` or `t` (or the end).
fn find_t_exec(s: &[u8], p: usize) -> (r: usize)
    requires
        p <= s@.len(),
    ensures
        r == find_t(s@, p as int),
        p <= r <= s@.len(),
{
    let mut i = p;
    while i < s.len() && s[i] != 84 && s[i] != 116
        invariant
            p <= i <= s@.len(),
            find_t(s@, p as int) == find_t(s@, i as int),
        decreases s@.len() - i,
    {
        i += 1;
    }
    i
}

impl Dt {
    /// The ISO 8601 duration text of the attosecond count, such as
    /// `PT1H23M45.6789S`, `-PT0.5S`, `PT0.000000000000000001S` or `PT0S`; no
    /// time-scale conversion is made.
    pub fn to_iso_duration(&self) -> (r: String)
        ensures
            r@ == crate::delta::ascii_chars(crate::delta::iso_duration_text(self.attos as int)),
    {
        crate::delta::iso_text(self.attos)
    }
}

} // verus!
