//! What each arithmetic, logic, load and store instruction computes.

use crate::bits::{
    add32, as_signed, bytes_word, from_int, lemma_fields, lemma_join, lemma_split, sign_extend,
    sign_extension,
    sub32, word_bytes,
};
use crate::memory::Memory;
use crate::preimage::PreimageOracle;
use crate::state::{InstrumentedState, StepError};
use vstd::arithmetic::div_mod::lemma_mod_multiples_vanish;
use vstd::prelude::*;

verus! {

/// Bits 31..26 of an instruction.
pub open spec fn opcode_of(insn: u32) -> u32 {
    insn >> 26
}

/// Bits 5..0 of an instruction.
pub open spec fn funct_of(insn: u32) -> u32 {
    insn & 0x3f
}

/// Bits 10..6 of an instruction.
pub open spec fn shamt_of(insn: u32) -> u32 {
    (insn >> 6) & 0x1f
}

/// The function code that an immediate arithmetic or logic opcode (8 to 14)
/// is evaluated under.
pub open spec fn immediate_funct(opcode: u32) -> u32 {
    if opcode == 0x8 {
        0x20
    } else if opcode == 0x9 {
        0x21
    } else if opcode == 0xa {
        0x2a
    } else if opcode == 0xb {
        0x2b
    } else if opcode == 0xc {
        0x24
    } else if opcode == 0xd {
        0x25
    } else {
        0x26
    }
}

/// Whether the bit of `x` that lies `i` places below the top one is set.
pub open spec fn top_bit(x: u32, i: nat) -> bool {
    (x >> ((31 - i) as u32)) & 1 == 1
}

/// How many of the bits of `x`, from the one `from` places below the top
/// downwards, are set before the first clear one.
pub open spec fn leading_ones_from(x: u32, from: nat) -> nat
    decreases 32 - from,
{
    if from < 32 && top_bit(x, from) {
        1 + leading_ones_from(x, from + 1)
    } else {
        0
    }
}

/// The number of set bits at the top of `x`.
pub open spec fn leading_ones(x: u32) -> nat {
    leading_ones_from(x, 0)
}

/// The position, from the most significant byte, of the byte at `addr` in its word.
pub open spec fn lane(addr: u32) -> int {
    (addr % 4) as int
}

/// The position, from the most significant byte, of the first byte of the
/// halfword at `addr` in its word.
pub open spec fn half_lane(addr: u32) -> int {
    (addr % 4 / 2 * 2) as int
}

/// The halfword of `w` that starts at byte `at`, most significant byte first.
pub open spec fn halfword(w: u32, at: int) -> u32 {
    (word_bytes(w)[at] * 0x100 + word_bytes(w)[at + 1]) as u32
}

/// The result of a register-to-register instruction with function code `fun`.
pub open spec fn special_spec(insn: u32, fun: u32, rs: u32, rt: u32) -> Option<u32> {
    let shamt: u32 = shamt_of(insn);
    let vshamt: u32 = rs & 0x1f;
    if fun == 0x00 {
        Some(rt << shamt)
    } else if fun == 0x02 {
        Some(rt >> shamt)
    } else if fun == 0x03 {
        Some(sign_extend(rt >> shamt, (32 - shamt) as u32))
    } else if fun == 0x04 {
        Some(rt << vshamt)
    } else if fun == 0x06 {
        Some(rt >> vshamt)
    } else if fun == 0x07 {
        Some(sign_extend(rt >> vshamt, (32 - vshamt) as u32))
    } else if 0x08 <= fun < 0x20 {
        Some(rs)
    } else if fun == 0x20 || fun == 0x21 {
        Some(add32(rs, rt))
    } else if fun == 0x22 || fun == 0x23 {
        Some(sub32(rs, rt))
    } else if fun == 0x24 {
        Some(rs & rt)
    } else if fun == 0x25 {
        Some(rs | rt)
    } else if fun == 0x26 {
        Some(rs ^ rt)
    } else if fun == 0x27 {
        Some(!(rs | rt))
    } else if fun == 0x2a {
        Some(
            if as_signed(rs) < as_signed(rt) {
                1u32
            } else {
                0u32
            },
        )
    } else if fun == 0x2b {
        Some(
            if rs < rt {
                1u32
            } else {
                0u32
            },
        )
    } else {
        None
    }
}

/// The result of `mul`, `clz` or `clo`.
pub open spec fn special2_spec(fun: u32, rs: u32, rt: u32) -> Option<u32> {
    if fun == 0x02 {
        Some(from_int(as_signed(rs) * as_signed(rt)))
    } else if fun == 0x20 {
        Some(leading_ones(!rs) as u32)
    } else if fun == 0x21 {
        Some(leading_ones(rs) as u32)
    } else {
        None
    }
}

/// What a load leaves in its register, given the word `mem` at the aligned
/// address, the byte address `addr` and the register's old value `rt`.
/// Bytes lie most significant first. `lwl` takes the bytes from `addr` to
/// the end of the word into the top of the register; `lwr` takes the bytes
/// from the start of the word up to `addr` into its bottom.
pub open spec fn load_spec(opcode: u32, addr: u32, rt: u32, mem: u32) -> Option<u32> {
    if opcode == 0x20 {
        Some(sign_extend(word_bytes(mem)[lane(addr)] as u32, 8))
    } else if opcode == 0x21 {
        Some(sign_extend(halfword(mem, half_lane(addr)), 16))
    } else if opcode == 0x22 {
        Some(bytes_word(word_bytes(mem).skip(lane(addr)) + word_bytes(rt).skip(4 - lane(addr))))
    } else if opcode == 0x23 {
        Some(mem)
    } else if opcode == 0x24 {
        Some(word_bytes(mem)[lane(addr)] as u32)
    } else if opcode == 0x25 {
        Some(halfword(mem, half_lane(addr)))
    } else if opcode == 0x26 {
        Some(bytes_word(word_bytes(rt).take(3 - lane(addr)) + word_bytes(mem).take(lane(addr) + 1)))
    } else {
        None
    }
}

/// The word a store leaves at the aligned address, given the word `mem`
/// there now, the byte address `addr` and the register value `rt`. `sb` and
/// `sh` replace the addressed byte or halfword by the low end of the
/// register. `swl` puts the top bytes of the register from `addr` to the end
/// of the word; `swr` puts its bottom bytes from the start of the word up
/// to `addr`. For the linked load the value is the word read.
pub open spec fn store_spec(opcode: u32, addr: u32, rt: u32, mem: u32) -> Option<u32> {
    if opcode == 0x28 {
        Some(bytes_word(word_bytes(mem).update(lane(addr), word_bytes(rt)[3])))
    } else if opcode == 0x29 {
        Some(
            bytes_word(
                word_bytes(mem).update(half_lane(addr), word_bytes(rt)[2]).update(
                    half_lane(addr) + 1,
                    word_bytes(rt)[3],
                ),
            ),
        )
    } else if opcode == 0x2a {
        Some(bytes_word(word_bytes(mem).take(lane(addr)) + word_bytes(rt).take(4 - lane(addr))))
    } else if opcode == 0x2b {
        Some(rt)
    } else if opcode == 0x2e {
        Some(bytes_word(word_bytes(rt).skip(3 - lane(addr)) + word_bytes(mem).skip(lane(addr) + 1)))
    } else if opcode == 0x30 {
        Some(mem)
    } else if opcode == 0x38 {
        Some(rt)
    } else {
        None
    }
}

/// The value an instruction computes from its operands: `rs` (for loads and
/// stores the byte address), `rt`, and the word `mem` at the aligned address.
/// `None` where the instruction is not one that is evaluated.
pub open spec fn execute_spec(insn: u32, rs: u32, rt: u32, mem: u32) -> Option<u32> {
    let opcode: u32 = opcode_of(insn);
    if opcode == 0 {
        special_spec(insn, funct_of(insn), rs, rt)
    } else if 0x8 <= opcode < 0xf {
        special_spec(insn, immediate_funct(opcode), rs, rt)
    } else if opcode == 0xf {
        Some(rt << 16)
    } else if opcode == 0x1c {
        special2_spec(funct_of(insn), rs, rt)
    } else if 0x20 <= opcode < 0x28 {
        load_spec(opcode, rs, rt, mem)
    } else if opcode >= 0x28 {
        store_spec(opcode, rs, rt, mem)
    } else {
        None
    }
}

proof fn lemma_shift_amounts(addr: u32)
    by (bit_vector)
    ensures
        addr & 0x1f < 32,
        addr & 3 <= 3,
        addr & 2 <= 2,
{
}

proof fn lemma_scan_step(x: u32, i: u32)
    by (bit_vector)
    requires
        i < 32,
    ensures
        ((x << i) & 0x8000_0000 != 0) == ((x >> ((31 - i) as u32)) & 1 == 1),
        (x << i) << 1 == (if i < 31 {
            x << ((i + 1) as u32)
        } else {
            0
        }),
        x << 0 == x,
        0u32 & 0x8000_0000 == 0,
{
}

/// The low word of a product does not depend on whether the factors are
/// read as signed or as unsigned.
proof fn lemma_mul_low_word(a: u32, b: u32)
    ensures
        from_int(as_signed(a) * as_signed(b)) == ((a as nat * b as nat) % 0x1_0000_0000) as u32,
{
    let m: int = 0x1_0000_0000;
    let sa: int = if a < 0x8000_0000 { 0 } else { 1 };
    let sb: int = if b < 0x8000_0000 { 0 } else { 1 };
    let k: int = sa * sb * m - sa * b - sb * a;
    assert(as_signed(a) * as_signed(b) == m * k + a * b) by (nonlinear_arith)
        requires
            as_signed(a) == a - sa * m,
            as_signed(b) == b - sb * m,
            k == sa * sb * m - sa * b - sb * a,
    ;
    lemma_mod_multiples_vanish(k, a * b, m);
    assert(a as nat * b as nat == a * b) by (nonlinear_arith);
}

proof fn lemma_lanes(w: u32, addr: u32)
    by (bit_vector)
    ensures
        w >> 24 == w / 0x100_0000,
        (w >> 16) & 0xff == w / 0x1_0000 % 0x100,
        (w >> 8) & 0xff == w / 0x100 % 0x100,
        w & 0xff == w % 0x100,
        addr & 3 == addr % 4,
        addr & 2 == addr % 4 / 2 * 2,
{
}

proof fn lemma_byte_lane(mem: u32, k: u32)
    by (bit_vector)
    requires
        k <= 3,
    ensures
        (mem >> ((24 - k * 8) as u32)) & 0xff == (if k == 0 {
            mem >> 24
        } else if k == 1 {
            (mem >> 16) & 0xff
        } else if k == 2 {
            (mem >> 8) & 0xff
        } else {
            mem & 0xff
        }),
{
}

proof fn lemma_half_lane(mem: u32, h: u32)
    by (bit_vector)
    requires
        h == 0 || h == 2,
    ensures
        (mem >> ((16 - h * 8) as u32)) & 0xffff == (if h == 0 {
            ((mem >> 24) << 8) | ((mem >> 16) & 0xff)
        } else {
            (((mem >> 8) & 0xff) << 8) | (mem & 0xff)
        }),
        ((mem >> 24) << 8) | ((mem >> 16) & 0xff) == (mem >> 24) * 0x100 + ((mem >> 16) & 0xff),
        (((mem >> 8) & 0xff) << 8) | (mem & 0xff) == ((mem >> 8) & 0xff) * 0x100 + (mem & 0xff),
{
}

proof fn lemma_load_left(mem: u32, rt: u32, k: u32)
    by (bit_vector)
    requires
        k <= 3,
    ensures
        (rt & !(0xffff_ffffu32 << ((k * 8) as u32))) | (mem << ((k * 8) as u32)) == (if k == 0 {
            mem
        } else if k == 1 {
            (((mem >> 16) & 0xff) << 24) | (((mem >> 8) & 0xff) << 16) | ((mem & 0xff) << 8) | (rt
                & 0xff)
        } else if k == 2 {
            (((mem >> 8) & 0xff) << 24) | ((mem & 0xff) << 16) | (((rt >> 8) & 0xff) << 8) | (rt
                & 0xff)
        } else {
            ((mem & 0xff) << 24) | (((rt >> 16) & 0xff) << 16) | (((rt >> 8) & 0xff) << 8) | (rt
                & 0xff)
        }),
{
}

proof fn lemma_load_right(mem: u32, rt: u32, k: u32)
    by (bit_vector)
    requires
        k <= 3,
    ensures
        (rt & !(0xffff_ffffu32 >> ((24 - k * 8) as u32))) | (mem >> ((24 - k * 8) as u32)) == (if k
            == 0 {
            ((rt >> 24) << 24) | (((rt >> 16) & 0xff) << 16) | (((rt >> 8) & 0xff) << 8) | (mem
                >> 24)
        } else if k == 1 {
            ((rt >> 24) << 24) | (((rt >> 16) & 0xff) << 16) | ((mem >> 24) << 8) | ((mem >> 16)
                & 0xff)
        } else if k == 2 {
            ((rt >> 24) << 24) | ((mem >> 24) << 16) | (((mem >> 16) & 0xff) << 8) | ((mem >> 8)
                & 0xff)
        } else {
            mem
        }),
{
}

proof fn lemma_store_byte(mem: u32, rt: u32, k: u32)
    by (bit_vector)
    requires
        k <= 3,
    ensures
        (mem & (0xffff_ffffu32 ^ (0xffu32 << ((24 - k * 8) as u32)))) | ((rt & 0xff) << ((24 - k
            * 8) as u32)) == (if k == 0 {
            ((rt & 0xff) << 24) | (((mem >> 16) & 0xff) << 16) | (((mem >> 8) & 0xff) << 8) | (mem
                & 0xff)
        } else if k == 1 {
            ((mem >> 24) << 24) | ((rt & 0xff) << 16) | (((mem >> 8) & 0xff) << 8) | (mem & 0xff)
        } else if k == 2 {
            ((mem >> 24) << 24) | (((mem >> 16) & 0xff) << 16) | ((rt & 0xff) << 8) | (mem & 0xff)
        } else {
            ((mem >> 24) << 24) | (((mem >> 16) & 0xff) << 16) | (((mem >> 8) & 0xff) << 8) | (rt
                & 0xff)
        }),
{
}

proof fn lemma_store_half(mem: u32, rt: u32, h: u32)
    by (bit_vector)
    requires
        h == 0 || h == 2,
    ensures
        (mem & (0xffff_ffffu32 ^ (0xffffu32 << ((16 - h * 8) as u32)))) | ((rt & 0xffff) << ((16
            - h * 8) as u32)) == (if h == 0 {
            (((rt >> 8) & 0xff) << 24) | ((rt & 0xff) << 16) | (((mem >> 8) & 0xff) << 8) | (mem
                & 0xff)
        } else {
            ((mem >> 24) << 24) | (((mem >> 16) & 0xff) << 16) | (((rt >> 8) & 0xff) << 8) | (rt
                & 0xff)
        }),
{
}

proof fn lemma_store_left(mem: u32, rt: u32, k: u32)
    by (bit_vector)
    requires
        k <= 3,
    ensures
        (mem & !(0xffff_ffffu32 >> ((k * 8) as u32))) | (rt >> ((k * 8) as u32)) == (if k == 0 {
            rt
        } else if k == 1 {
            ((mem >> 24) << 24) | ((rt >> 24) << 16) | (((rt >> 16) & 0xff) << 8) | ((rt >> 8)
                & 0xff)
        } else if k == 2 {
            ((mem >> 24) << 24) | (((mem >> 16) & 0xff) << 16) | ((rt >> 24) << 8) | ((rt >> 16)
                & 0xff)
        } else {
            ((mem >> 24) << 24) | (((mem >> 16) & 0xff) << 16) | (((mem >> 8) & 0xff) << 8) | (rt
                >> 24)
        }),
{
}

proof fn lemma_store_right(mem: u32, rt: u32, k: u32)
    by (bit_vector)
    requires
        k <= 3,
    ensures
        (mem & !(0xffff_ffffu32 << ((24 - k * 8) as u32))) | (rt << ((24 - k * 8) as u32)) == (if k
            == 0 {
            ((rt & 0xff) << 24) | (((mem >> 16) & 0xff) << 16) | (((mem >> 8) & 0xff) << 8) | (mem
                & 0xff)
        } else if k == 1 {
            (((rt >> 8) & 0xff) << 24) | ((rt & 0xff) << 16) | (((mem >> 8) & 0xff) << 8) | (mem
                & 0xff)
        } else if k == 2 {
            (((rt >> 16) & 0xff) << 24) | (((rt >> 8) & 0xff) << 16) | ((rt & 0xff) << 8) | (mem
                & 0xff)
        } else {
            rt
        }),
{
}

/// What the solver needs about the bytes of the two words a load or store
/// merges, and about the word that four bytes spell.
proof fn lemma_merge(mem: u32, rt: u32, addr: u32, merged: Seq<u8>)
    requires
        merged.len() == 4,
    ensures
        word_bytes(mem).len() == 4,
        word_bytes(rt).len() == 4,
        word_bytes(mem)[0] == mem >> 24,
        word_bytes(mem)[1] == (mem >> 16) & 0xff,
        word_bytes(mem)[2] == (mem >> 8) & 0xff,
        word_bytes(mem)[3] == mem & 0xff,
        word_bytes(rt)[0] == rt >> 24,
        word_bytes(rt)[1] == (rt >> 16) & 0xff,
        word_bytes(rt)[2] == (rt >> 8) & 0xff,
        word_bytes(rt)[3] == rt & 0xff,
        addr & 3 == addr % 4,
        addr & 2 == addr % 4 / 2 * 2,
        bytes_word(merged) == ((merged[0] as u32) << 24) | ((merged[1] as u32) << 16) | ((
        merged[2] as u32) << 8) | (merged[3] as u32),
        bytes_word(word_bytes(mem)) == mem,
        bytes_word(word_bytes(rt)) == rt,
{
    lemma_lanes(mem, addr);
    lemma_lanes(rt, addr);
    lemma_join(merged[0] as u32, merged[1] as u32, merged[2] as u32, merged[3] as u32);
    lemma_split(mem);
    lemma_split(rt);
}

/// `lb` and `lbu`: the byte at `addr`.
fn load_byte(mem: u32, addr: u32) -> (byte: u32)
    ensures
        byte == word_bytes(mem)[lane(addr)],
{
    proof {
        lemma_merge(mem, mem, addr, word_bytes(mem));
        lemma_byte_lane(mem, addr & 3);
    }
    (mem >> (24 - (addr & 3) * 8)) & 0xff
}

/// `lh` and `lhu`: the halfword at `addr`.
fn load_half(mem: u32, addr: u32) -> (half: u32)
    ensures
        half == halfword(mem, half_lane(addr)),
{
    proof {
        lemma_merge(mem, mem, addr, word_bytes(mem));
        lemma_half_lane(mem, addr & 2);
    }
    (mem >> (16 - (addr & 2) * 8)) & 0xffff
}

/// `lwl`.
fn load_left(mem: u32, rt: u32, addr: u32) -> (word: u32)
    ensures
        word == bytes_word(word_bytes(mem).skip(lane(addr)) + word_bytes(rt).skip(4 - lane(addr))),
{
    proof {
        lemma_merge(
            mem,
            rt,
            addr,
            word_bytes(mem).skip(lane(addr)) + word_bytes(rt).skip(4 - lane(addr)),
        );
        lemma_load_left(mem, rt, addr & 3);
    }
    let shift: u32 = (addr & 3) * 8;
    (rt & !(0xffff_ffffu32 << shift)) | (mem << shift)
}

/// `lwr`.
fn load_right(mem: u32, rt: u32, addr: u32) -> (word: u32)
    ensures
        word == bytes_word(word_bytes(rt).take(3 - lane(addr)) + word_bytes(mem).take(lane(addr) + 1)),
{
    proof {
        lemma_merge(
            mem,
            rt,
            addr,
            word_bytes(rt).take(3 - lane(addr)) + word_bytes(mem).take(lane(addr) + 1),
        );
        lemma_load_right(mem, rt, addr & 3);
    }
    let shift: u32 = 24 - (addr & 3) * 8;
    (rt & !(0xffff_ffffu32 >> shift)) | (mem >> shift)
}

/// `sb`.
fn store_byte(mem: u32, rt: u32, addr: u32) -> (word: u32)
    ensures
        word == bytes_word(word_bytes(mem).update(lane(addr), word_bytes(rt)[3])),
{
    proof {
        lemma_merge(mem, rt, addr, word_bytes(mem).update(lane(addr), word_bytes(rt)[3]));
        lemma_store_byte(mem, rt, addr & 3);
    }
    let shift: u32 = 24 - (addr & 3) * 8;
    (mem & (0xffff_ffffu32 ^ (0xffu32 << shift))) | ((rt & 0xff) << shift)
}

/// `sh`.
fn store_half(mem: u32, rt: u32, addr: u32) -> (word: u32)
    ensures
        word == bytes_word(
            word_bytes(mem).update(half_lane(addr), word_bytes(rt)[2]).update(
                half_lane(addr) + 1,
                word_bytes(rt)[3],
            ),
        ),
{
    proof {
        lemma_merge(
            mem,
            rt,
            addr,
            word_bytes(mem).update(half_lane(addr), word_bytes(rt)[2]).update(
                half_lane(addr) + 1,
                word_bytes(rt)[3],
            ),
        );
        lemma_store_half(mem, rt, addr & 2);
    }
    let shift: u32 = 16 - (addr & 2) * 8;
    (mem & (0xffff_ffffu32 ^ (0xffffu32 << shift))) | ((rt & 0xffff) << shift)
}

/// `swl`.
fn store_left(mem: u32, rt: u32, addr: u32) -> (word: u32)
    ensures
        word == bytes_word(word_bytes(mem).take(lane(addr)) + word_bytes(rt).take(4 - lane(addr))),
{
    proof {
        lemma_merge(
            mem,
            rt,
            addr,
            word_bytes(mem).take(lane(addr)) + word_bytes(rt).take(4 - lane(addr)),
        );
        lemma_store_left(mem, rt, addr & 3);
    }
    let shift: u32 = (addr & 3) * 8;
    (mem & !(0xffff_ffffu32 >> shift)) | (rt >> shift)
}

/// `swr`.
fn store_right(mem: u32, rt: u32, addr: u32) -> (word: u32)
    ensures
        word == bytes_word(word_bytes(rt).skip(3 - lane(addr)) + word_bytes(mem).skip(lane(addr) + 1)),
{
    proof {
        lemma_merge(
            mem,
            rt,
            addr,
            word_bytes(rt).skip(3 - lane(addr)) + word_bytes(mem).skip(lane(addr) + 1),
        );
        lemma_store_right(mem, rt, addr & 3);
    }
    let shift: u32 = 24 - (addr & 3) * 8;
    (mem & !(0xffff_ffffu32 << shift)) | (rt << shift)
}

/// Counts the set bits at the top of `x` by shifting them out.
fn count_leading_ones(x: u32) -> (n: u32)
    ensures
        n == leading_ones(x),
        n <= 32,
{
    let mut v: u32 = x;
    let mut n: u32 = 0;
    proof {
        lemma_scan_step(x, 0);
    }
    while v & 0x8000_0000 != 0
        invariant
            n <= 32,
            v == (if n < 32 {
                x << n
            } else {
                0
            }),
            leading_ones(x) == n + leading_ones_from(x, n as nat),
        decreases 32 - n,
    {
        proof {
            if n < 32 {
                lemma_scan_step(x, n);
            } else {
                lemma_scan_step(x, 0);
            }
        }
        v = v << 1;
        n = n + 1;
    }
    proof {
        if n < 32 {
            lemma_scan_step(x, n);
        }
    }
    n
}

impl<M: Memory, O: PreimageOracle> InstrumentedState<M, O> {
    /// Evaluates one instruction on its operands. For loads and stores `rs`
    /// is the byte address and `mem` the word at the aligned address.
    pub fn execute(&self, insn: u32, rs: u32, rt: u32, mem: u32) -> (r: Result<u32, StepError>)
        ensures
            match execute_spec(insn, rs, rt, mem) {
                Some(value) => r == Ok::<u32, StepError>(value),
                None => r == Err::<u32, StepError>(StepError::InvalidInstruction),
            },
    {
        proof {
            lemma_fields(insn);
            lemma_shift_amounts(rs);
        }
        let opcode: u32 = insn >> 26;
        let mut fun: u32 = insn & 0x3f;
        if opcode == 0 || (opcode >= 8 && opcode < 0xf) {
            if opcode != 0 {
                fun = if opcode == 0x8 {
                    0x20
                } else if opcode == 0x9 {
                    0x21
                } else if opcode == 0xa {
                    0x2a
                } else if opcode == 0xb {
                    0x2b
                } else if opcode == 0xc {
                    0x24
                } else if opcode == 0xd {
                    0x25
                } else {
                    0x26
                };
            }
            let shamt: u32 = (insn >> 6) & 0x1f;
            let vshamt: u32 = rs & 0x1f;
            if fun == 0x00 {
                Ok(rt << shamt)
            } else if fun == 0x02 {
                Ok(rt >> shamt)
            } else if fun == 0x03 {
                Ok(sign_extension(rt >> shamt, 32 - shamt))
            } else if fun == 0x04 {
                Ok(rt << vshamt)
            } else if fun == 0x06 {
                Ok(rt >> vshamt)
            } else if fun == 0x07 {
                Ok(sign_extension(rt >> vshamt, 32 - vshamt))
            } else if fun >= 0x08 && fun < 0x20 {
                Ok(rs)
            } else if fun == 0x20 || fun == 0x21 {
                Ok(rs.wrapping_add(rt))
            } else if fun == 0x22 || fun == 0x23 {
                Ok(rs.wrapping_sub(rt))
            } else if fun == 0x24 {
                Ok(rs & rt)
            } else if fun == 0x25 {
                Ok(rs | rt)
            } else if fun == 0x26 {
                Ok(rs ^ rt)
            } else if fun == 0x27 {
                Ok(!(rs | rt))
            } else if fun == 0x2a {
                let rs_negative: bool = rs >= 0x8000_0000;
                let rt_negative: bool = rt >= 0x8000_0000;
                let less: bool = if rs_negative != rt_negative {
                    rs_negative
                } else {
                    rs < rt
                };
                Ok(if less { 1 } else { 0 })
            } else if fun == 0x2b {
                Ok(if rs < rt { 1 } else { 0 })
            } else {
                Err(StepError::InvalidInstruction)
            }
        } else if opcode == 0xf {
            Ok(rt << 16)
        } else if opcode == 0x1c {
            if fun == 0x02 {
                proof {
                    lemma_mul_low_word(rs, rt);
                }
                Ok(rs.wrapping_mul(rt))
            } else if fun == 0x20 {
                Ok(count_leading_ones(!rs))
            } else if fun == 0x21 {
                Ok(count_leading_ones(rs))
            } else {
                Err(StepError::InvalidInstruction)
            }
        } else if opcode >= 0x20 {
            if opcode == 0x20 {
                Ok(sign_extension(load_byte(mem, rs), 8))
            } else if opcode == 0x21 {
                Ok(sign_extension(load_half(mem, rs), 16))
            } else if opcode == 0x22 {
                Ok(load_left(mem, rt, rs))
            } else if opcode == 0x23 {
                Ok(mem)
            } else if opcode == 0x24 {
                Ok(load_byte(mem, rs))
            } else if opcode == 0x25 {
                Ok(load_half(mem, rs))
            } else if opcode == 0x26 {
                Ok(load_right(mem, rt, rs))
            } else if opcode == 0x28 {
                Ok(store_byte(mem, rt, rs))
            } else if opcode == 0x29 {
                Ok(store_half(mem, rt, rs))
            } else if opcode == 0x2a {
                Ok(store_left(mem, rt, rs))
            } else if opcode == 0x2b {
                Ok(rt)
            } else if opcode == 0x2e {
                Ok(store_right(mem, rt, rs))
            } else if opcode == 0x30 {
                Ok(mem)
            } else if opcode == 0x38 {
                Ok(rt)
            } else {
                Err(StepError::InvalidInstruction)
            }
        } else {
            Err(StepError::InvalidInstruction)
        }
    }
}

} // verus!
