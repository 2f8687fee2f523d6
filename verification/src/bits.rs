//! Word-level arithmetic shared by the interpreter: wrapping addition, the
//! signed reading of a word, sign extension and big-endian byte lanes.

use vstd::arithmetic::power2::{lemma2_to64, lemma_pow2_pos, pow2};
use vstd::bits::{
    lemma_u32_low_bits_mask_is_mod, lemma_u32_pow2_no_overflow, lemma_u32_shl_is_mul,
    lemma_u32_shr_is_div, low_bits_mask,
};
use vstd::prelude::*;

verus! {

/// Sum of two words modulo 2^32.
pub open spec fn add32(a: u32, b: u32) -> u32 {
    ((a + b) % 0x1_0000_0000) as u32
}

/// Difference of two words modulo 2^32.
pub open spec fn sub32(a: u32, b: u32) -> u32 {
    ((a - b) % 0x1_0000_0000) as u32
}

/// The word read as a two's-complement number.
pub open spec fn as_signed(x: u32) -> int {
    if x < 0x8000_0000 {
        x as int
    } else {
        x - 0x1_0000_0000
    }
}

/// The word that stands for an integer modulo 2^32.
pub open spec fn from_int(v: int) -> u32 {
    (v % 0x1_0000_0000) as u32
}

/// The low `idx` bits of `dat`, widened to 32 bits with copies of the sign.
/// The sign is taken as set when `dat` reaches 2^(idx-1), so any bit at or
/// above position `idx - 1` counts.
pub open spec fn sign_extend(dat: u32, idx: u32) -> u32
    recommends
        1 <= idx <= 32,
{
    let low: int = dat as int % pow2(idx as nat) as int;
    if dat >= pow2((idx - 1) as nat) {
        (low + 0x1_0000_0000 - pow2(idx as nat)) as u32
    } else {
        low as u32
    }
}

/// The fields of an instruction word stay within their widths.
pub(crate) proof fn lemma_fields(insn: u32)
    by (bit_vector)
    ensures
        insn >> 26 < 64,
        insn & 0x3f < 64,
        (insn >> 21) & 0x1f < 32,
        (insn >> 16) & 0x1f < 32,
        (insn >> 11) & 0x1f < 32,
        (insn >> 6) & 0x1f < 32,
{
}

proof fn lemma_or_complement(x: u32, mask: u32)
    by (bit_vector)
    ensures
        (x & mask) | !mask == (x & mask) + !mask,
        !mask == 0xffff_ffffu32 - mask,
        x & 0xffff_ffffu32 == x,
{
}

/// Extends the low `idx` bits of `dat` to a full word with sign.
pub fn sign_extension(dat: u32, idx: u32) -> (r: u32)
    requires
        1 <= idx <= 32,
    ensures
        r == sign_extend(dat, idx),
{
    proof {
        lemma2_to64();
        lemma_u32_shr_is_div(dat, (idx - 1) as u32);
        lemma_pow2_pos((idx - 1) as nat);
        lemma_pow2_pos(idx as nat);
        if idx < 32 {
            lemma_u32_pow2_no_overflow(idx as nat);
            lemma_u32_shl_is_mul(1, idx);
            lemma_u32_low_bits_mask_is_mod(dat, idx as nat);
        }
    }
    let is_signed: bool = (dat >> (idx - 1)) != 0;
    let mask: u32 = if idx == 32 {
        0xffff_ffff
    } else {
        (1u32 << idx) - 1
    };
    proof {
        lemma_or_complement(dat, mask);
        assert(is_signed == (dat >= pow2((idx - 1) as nat))) by {
            let p: int = pow2((idx - 1) as nat) as int;
            assert(dat as int / p != 0 <==> dat as int >= p) by (nonlinear_arith)
                requires
                    p > 0,
                    dat >= 0,
            ;
        }
        if idx < 32 {
            assert(mask == low_bits_mask(idx as nat));
        } else {
            assert(dat as int % 0x1_0000_0000 == dat);
        }
    }
    if is_signed {
        (dat & mask) | !mask
    } else {
        dat & mask
    }
}

/// The four bytes of a word, most significant first.
pub open spec fn word_bytes(w: u32) -> Seq<u8> {
    seq![
        (w / 0x100_0000) as u8,
        (w / 0x1_0000 % 0x100) as u8,
        (w / 0x100 % 0x100) as u8,
        (w % 0x100) as u8,
    ]
}

/// The word whose bytes, most significant first, are the first four of `b`.
pub open spec fn bytes_word(b: Seq<u8>) -> u32
    recommends
        b.len() >= 4,
{
    (b[0] * 0x100_0000 + b[1] * 0x1_0000 + b[2] * 0x100 + b[3]) as u32
}

pub(crate) proof fn lemma_split(w: u32)
    by (bit_vector)
    ensures
        (w / 0x100_0000) * 0x100_0000 + (w / 0x1_0000 % 0x100) * 0x1_0000 + (w / 0x100 % 0x100)
            * 0x100 + w % 0x100 == w,
{
}

pub(crate) proof fn lemma_join(b0: u32, b1: u32, b2: u32, b3: u32)
    by (bit_vector)
    requires
        b0 < 0x100,
        b1 < 0x100,
        b2 < 0x100,
        b3 < 0x100,
    ensures
        ({
            let j: u32 = (b0 << 24) | (b1 << 16) | (b2 << 8) | b3;
            &&& j == b0 * 0x100_0000 + b1 * 0x1_0000 + b2 * 0x100 + b3
            &&& j / 0x100_0000 == b0
            &&& j / 0x1_0000 % 0x100 == b1
            &&& j / 0x100 % 0x100 == b2
            &&& j % 0x100 == b3
        }),
{
}

/// A word and its bytes determine each other.
pub proof fn lemma_word_bytes_round_trip(w: u32, b: Seq<u8>)
    ensures
        word_bytes(w).len() == 4,
        bytes_word(word_bytes(w)) == w,
        b.len() == 4 ==> word_bytes(bytes_word(b)) == b,
{
    lemma_split(w);
    if b.len() == 4 {
        lemma_join(b[0] as u32, b[1] as u32, b[2] as u32, b[3] as u32);
        assert(word_bytes(bytes_word(b)) =~= b);
    }
}

/// Splits a word into its bytes, most significant first.
pub fn to_be_bytes(w: u32) -> (b: [u8; 4])
    ensures
        b@ == word_bytes(w),
{
    let b: [u8; 4] = [
        (w / 0x100_0000) as u8,
        (w / 0x1_0000 % 0x100) as u8,
        (w / 0x100 % 0x100) as u8,
        (w % 0x100) as u8,
    ];
    assert(b@ =~= word_bytes(w));
    b
}

/// Joins four bytes, most significant first, into a word.
pub fn from_be_bytes(b: &[u8; 4]) -> (w: u32)
    ensures
        w == bytes_word(b@),
{
    (b[0] as u32) * 0x100_0000 + (b[1] as u32) * 0x1_0000 + (b[2] as u32) * 0x100 + (b[3] as u32)
}

} // verus!
