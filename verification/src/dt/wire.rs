//! The fixed 19-byte wire form of a `Dt`: a version byte, the attoseconds as
//! 16 little-endian bytes, then the scale and target codes.
use vstd::prelude::*;
use crate::dt::Dt;
use crate::dt_big::{bytes_val, le_bytes_of, lemma_le_bytes_of, limb_to_bytes, limb_from_bytes};
use crate::scale::{Scale, scale_code, scale_of_code, lemma_scale_code_roundtrip};

verus! {

/// The wire format version written in byte 0.
pub const WIRE_VERSION: u8 = 1;
/// The length of the wire form.
pub const WIRE_SIZE: usize = 19;

/// `2^64`.
pub open spec fn two64() -> int {
    0x1_0000_0000_0000_0000int
}

/// `a` read as an unsigned 128-bit number (two's complement).
pub open spec fn as_u128(a: int) -> int {
    if a < 0 { a + two64() * two64() } else { a }
}

/// An unsigned 128-bit number read as a signed one (two's complement).
pub open spec fn as_i128(u: int) -> int {
    if u > i128::MAX { u - two64() * two64() } else { u }
}

/// Eight bytes of `s` from position `p`.
pub open spec fn chunk8(s: Seq<u8>, p: int) -> [u8; 8] {
    [s[p], s[p + 1], s[p + 2], s[p + 3], s[p + 4], s[p + 5], s[p + 6], s[p + 7]]
}

/// The attoseconds held in bytes 1..17 of a wire form.
pub open spec fn wire_attos(s: Seq<u8>) -> int {
    as_i128(bytes_val(chunk8(s, 1)) + bytes_val(chunk8(s, 9)) * two64())
}

/// `true` when `s` is the wire form of `d`.
pub open spec fn is_wire_of(s: Seq<u8>, d: Dt) -> bool {
    &&& s.len() == 19
    &&& s[0] == WIRE_VERSION
    &&& chunk8(s, 1) == le_bytes_of((as_u128(d.attos as int) % two64()) as u64)
    &&& chunk8(s, 9) == le_bytes_of((as_u128(d.attos as int) / two64()) as u64)
    &&& s[17] == scale_code(d.scale)
    &&& s[18] == scale_code(d.target)
}

impl Dt {
    /// The 19-byte wire form of this value.
    pub fn to_wire_bytes(&self) -> (r: [u8; 19])
        ensures
            is_wire_of(r@, *self),
    {
        let u: u128 = if self.attos < 0 {
            (self.attos + 1 + i128::MAX) as u128 + (i128::MAX as u128) + 1
        } else {
            self.attos as u128
        };
        let lo = (u % 0x1_0000_0000_0000_0000u128) as u64;
        let hi = (u / 0x1_0000_0000_0000_0000u128) as u64;
        let a = limb_to_bytes(lo);
        let b = limb_to_bytes(hi);
        let r = [
            WIRE_VERSION,
            a[0], a[1], a[2], a[3], a[4], a[5], a[6], a[7],
            b[0], b[1], b[2], b[3], b[4], b[5], b[6], b[7],
            self.scale.to_u8(),
            self.target.to_u8(),
        ];
        proof {
            assert(chunk8(r@, 1) =~= a);
            assert(chunk8(r@, 9) =~= b);
        }
        r
    }

    /// Reads a wire form: `None` unless `bytes` has exactly 19 bytes and the
    /// version byte is current; unknown scale codes read as [`Scale::Custom`].
    pub fn from_wire_bytes(bytes: &[u8]) -> (r: Option<Dt>)
        ensures
            (bytes@.len() != 19 || bytes@[0] != WIRE_VERSION) ==> r.is_none(),
            (bytes@.len() == 19 && bytes@[0] == WIRE_VERSION) ==> (r matches Some(d) && {
                &&& d.attos == wire_attos(bytes@)
                &&& d.scale == scale_of_code(bytes@[17])
                &&& d.target == scale_of_code(bytes@[18])
            }),
    {
        if bytes.len() != WIRE_SIZE {
            return None;
        }
        if bytes[0] != WIRE_VERSION {
            return None;
        }
        let lo = limb_from_bytes([bytes[1], bytes[2], bytes[3], bytes[4], bytes[5], bytes[6], bytes[7], bytes[8]]);
        let hi = limb_from_bytes([bytes[9], bytes[10], bytes[11], bytes[12], bytes[13], bytes[14], bytes[15], bytes[16]]);
        proof {
            assert(chunk8(bytes@, 1) =~= [bytes@[1], bytes@[2], bytes@[3], bytes@[4], bytes@[5], bytes@[6], bytes@[7], bytes@[8]]);
            assert(chunk8(bytes@, 9) =~= [bytes@[9], bytes@[10], bytes@[11], bytes@[12], bytes@[13], bytes@[14], bytes@[15], bytes@[16]]);
        }
        let u: u128 = (lo as u128) + (hi as u128) * 0x1_0000_0000_0000_0000u128;
        let attos: i128 = if u > i128::MAX as u128 {
            ((u - (i128::MAX as u128) - 1) as i128) - i128::MAX - 1
        } else {
            u as i128
        };
        Some(Dt::new(attos, Scale::from_u8(bytes[17]), Scale::from_u8(bytes[18])))
    }
}

/// Reading back the wire form of a value gives that value.
pub proof fn lemma_wire_roundtrip(s: Seq<u8>, d: Dt)
    requires
        is_wire_of(s, d),
    ensures
        wire_attos(s) == d.attos,
        scale_of_code(s[17]) == d.scale,
        scale_of_code(s[18]) == d.target,
{
    let u = as_u128(d.attos as int);
    let lo = (u % two64()) as u64;
    let hi = (u / two64()) as u64;
    vstd::arithmetic::div_mod::lemma_fundamental_div_mod(u, two64());
    assert(0 <= u / two64() < two64()) by (nonlinear_arith)
        requires 0 <= u < two64() * two64(), two64() > 0, two64() * (u / two64()) + u % two64() == u,
            0 <= u % two64() < two64();
    lemma_le_bytes_of(lo);
    lemma_le_bytes_of(hi);
    assert(bytes_val(chunk8(s, 1)) + bytes_val(chunk8(s, 9)) * two64() == u);
    lemma_scale_code_roundtrip(d.scale);
    lemma_scale_code_roundtrip(d.target);
}

/// The `n` bytes of `s` from `p` read as a little-endian number.
pub open spec fn le_number(s: Seq<u8>, p: int, n: nat) -> int
    decreases n,
{
    if n == 0 { 0 } else { s[p] as int + 256 * le_number(s, p + 1, (n - 1) as nat) }
}

/// The wire form of `d` is byte 0 the version 1, bytes 1 to 16 the
/// attoseconds as a two's-complement number, least significant byte first,
/// byte 17 the scale's and byte 18 the target's position in the declaration
/// of `Scale`.
pub proof fn lemma_wire_layout(s: Seq<u8>, d: Dt)
    requires
        is_wire_of(s, d),
    ensures
        s.len() == 19,
        s[0] == 1,
        le_number(s, 1, 16) == as_u128(d.attos as int),
        s[17] == d.scale as u8,
        s[18] == d.target as u8,
{
    crate::scale::lemma_scale_code_is_declaration_index(d.scale, 0);
    crate::scale::lemma_scale_code_is_declaration_index(d.target, 0);
    let u = as_u128(d.attos as int);
    assert(0 <= u < two64() * two64());
    let lo = u % two64();
    let hi = u / two64();
    vstd::arithmetic::div_mod::lemma_fundamental_div_mod(u, two64());
    assert(0 <= hi < two64()) by {
        vstd::arithmetic::div_mod::lemma_div_pos_is_pos(u, two64());
        vstd::arithmetic::div_mod::lemma_div_is_ordered(u, two64() * two64() - 1, two64());
        assert((two64() * two64() - 1) / two64() == two64() - 1) by {
            vstd::arithmetic::div_mod::lemma_fundamental_div_mod_converse(two64() * two64() - 1, two64(), two64() - 1, two64() - 1);
        }
    }
    lemma_le_bytes_of(lo as u64);
    lemma_le_bytes_of(hi as u64);
    reveal_with_fuel(le_number, 17);
    assert(le_number(s, 1, 16) == bytes_val(chunk8(s, 1)) + bytes_val(chunk8(s, 9)) * two64());
}

} // verus!
