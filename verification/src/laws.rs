//! What holds of the interpreter whatever program it runs.

use crate::alu::{execute_spec, half_lane, halfword, lane, load_spec};
use crate::bits::{add32, as_signed, from_int, lemma_fields, word_bytes};
use crate::handlers::{
    branch_spec, hilo_spec, hilo_values, jump_spec, rd_spec, trunc_div, trunc_rem,
};
use crate::bits::{bytes_word, lemma_word_bytes_round_trip};
use crate::preimage::{available, framed, has_record, hint_payloads, hint_residue, record_len};
use crate::state::{EngineView, MachineView, StepError, SYS_EXIT_GROUP, SYS_MMAP};
use crate::step::{
    is_branch, is_syscall, jump_target, memory_op, operands, register_op, step_spec, Operands,
};
use crate::syscall::{page_round, syscall_spec, track_spec, transfer_len};
use crate::alu::{leading_ones, leading_ones_from, top_bit};
use crate::bits::sign_extend;
use vstd::arithmetic::div_mod::lemma_fundamental_div_mod_converse;
use vstd::arithmetic::power2::{lemma2_to64, lemma_pow2_adds, lemma_pow2_pos, pow2};
use vstd::bits::lemma_u32_shr_is_div;
use vstd::prelude::*;

verus! {

/// Whether an instruction word is a jump or a branch.
pub open spec fn transfers_control(insn: u32) -> bool {
    let opcode: u32 = insn >> 26;
    opcode == 2 || opcode == 3 || is_branch(opcode) || (opcode == 0 && (insn & 0x3f == 0x8 || insn
        & 0x3f == 0x9))
}

/// Whether a step from `s` is the `exit_group` call.
pub open spec fn exits(s: MachineView) -> bool {
    is_syscall(s.memory[s.pc]) && s.registers[2] == SYS_EXIT_GROUP
}

/// The delay slot: when a jump or a branch retires, the instruction whose
/// address was pending is the one that retires next, whichever way a
/// branch goes, and it is the instruction that stood there before.
#[verifier::rlimit(50)]
pub proof fn lemma_delay_slot(pre: EngineView, fetched: Seq<u8>)
    requires
        !pre.state.exited,
        transfers_control(pre.state.memory[pre.state.pc]),
        step_spec(pre, fetched) is Ok,
    ensures
        ({
            let post: MachineView = step_spec(pre, fetched)->Ok_0.state;
            &&& !post.exited
            &&& post.pc == pre.state.next_pc
            &&& post.memory[post.pc] == pre.state.memory[pre.state.next_pc]
        }),
{
}

/// Every instruction but `exit_group` hands the program counter to the
/// pending address.
#[verifier::rlimit(50)]
pub proof fn lemma_pending_address_retires_next(pre: EngineView, fetched: Seq<u8>)
    requires
        !pre.state.exited,
        !exits(pre.state),
        step_spec(pre, fetched) is Ok,
    ensures
        step_spec(pre, fetched)->Ok_0.state.pc == pre.state.next_pc,
        !step_spec(pre, fetched)->Ok_0.state.exited,
{
}

/// The bump allocator: `mmap` from the heap returns the heap pointer as it
/// was and moves it up by the rounded size, as long as that sum stays
/// below the top of the address space.
#[verifier::rlimit(50)]
pub proof fn lemma_mmap_from_heap(pre: EngineView, fetched: Seq<u8>)
    requires
        pre.state.registers.len() == 32,
        pre.state.registers[2] == SYS_MMAP,
        pre.state.registers[4] == 0,
        pre.state.heap + page_round(pre.state.registers[5]) < 0x1_0000_0000,
    ensures
        syscall_spec(pre, fetched) is Ok,
        ({
            let post: MachineView = syscall_spec(pre, fetched)->Ok_0.state;
            &&& post.heap >= pre.state.heap
            &&& post.heap == pre.state.heap + page_round(pre.state.registers[5])
            &&& post.registers[2] == pre.state.heap
            &&& post.registers[7] == 0
        }),
{
}

/// Rounding to pages: a size that leaves room for it is rounded up to the
/// next multiple of the page size.
pub proof fn lemma_page_round(size: u32)
    requires
        size <= 0xffff_f000,
    ensures
        page_round(size) % 4096 == 0,
        size <= page_round(size) < size + 4096,
{
}

/// The heap pointer moves only in an `mmap` from the heap.
#[verifier::rlimit(50)]
pub proof fn lemma_heap_moves_only_in_mmap(pre: EngineView, fetched: Seq<u8>)
    requires
        pre.state.registers.len() == 32,
        step_spec(pre, fetched) is Ok,
    ensures
        ({
            let post: MachineView = step_spec(pre, fetched)->Ok_0.state;
            let s: MachineView = pre.state;
            if !s.exited && is_syscall(s.memory[s.pc]) && s.registers[2] == SYS_MMAP && s.registers[4]
                == 0 {
                post.heap == add32(s.heap, page_round(s.registers[5]))
            } else {
                post.heap == s.heap
            }
        }),
{
    if !pre.state.exited {
        let e: EngineView = EngineView { last_mem_access: None, ..pre };
        let insn: u32 = pre.state.memory[pre.state.pc];
        let ops: Operands = operands(e.state, insn);
        lemma_fields(insn);
        lemma_register_op_keeps_heap(e, insn, ops, fetched);
    }
}

#[verifier::rlimit(50)]
proof fn lemma_register_op_keeps_heap(e: EngineView, insn: u32, ops: Operands, fetched: Seq<u8>)
    requires
        e.state.registers.len() == 32,
    ensures
        register_op(e, insn, ops, fetched) matches Ok(post) ==> (if is_syscall(insn)
            && e.state.registers[2] == SYS_MMAP && e.state.registers[4] == 0 {
            post.state.heap == add32(e.state.heap, page_round(e.state.registers[5]))
        } else {
            post.state.heap == e.state.heap
        }),
{
}

/// One address per step: with proofs enabled, a second access in the same
/// step is accepted exactly when it goes to the address of the first.
/// With proofs disabled every access is accepted.
pub proof fn lemma_one_address_per_step(e: EngineView, first: u32, second: u32)
    requires
        e.last_mem_access is None,
    ensures
        track_spec(e, first) is Ok,
        track_spec(track_spec(e, first)->Ok_0, second) is Ok <==> (!e.mem_proof_enabled || first
            == second),
        track_spec(track_spec(e, first)->Ok_0, second) is Err ==> track_spec(
            track_spec(e, first)->Ok_0,
            second,
        ) == Err::<EngineView, StepError>(StepError::MemoryAccessConflict),
{
}

/// No instruction accesses two addresses: a step, which starts with no
/// access recorded, is never refused for a second one, and a system call
/// made with no access recorded always succeeds.
#[verifier::rlimit(50)]
pub proof fn lemma_step_accesses_one_address(pre: EngineView, fetched: Seq<u8>)
    requires
        pre.state.registers.len() == 32,
    ensures
        step_spec(pre, fetched) != Err::<EngineView, StepError>(StepError::MemoryAccessConflict),
        pre.last_mem_access is None ==> syscall_spec(pre, fetched) is Ok,
{
    let e: EngineView = EngineView { last_mem_access: None, ..pre };
    let insn: u32 = pre.state.memory[pre.state.pc];
    let ops: Operands = operands(e.state, insn);
    lemma_fields(insn);
    lemma_register_op_is_not_refused(e, insn, ops, fetched);
}

#[verifier::rlimit(50)]
proof fn lemma_register_op_is_not_refused(e: EngineView, insn: u32, ops: Operands, fetched: Seq<u8>)
    requires
        e.last_mem_access is None,
    ensures
        register_op(e, insn, ops, fetched) != Err::<EngineView, StepError>(
            StepError::MemoryAccessConflict,
        ),
        syscall_spec(e, fetched) is Ok,
{
}

/// Sign extension in loads: `lb` and `lh` return the loaded byte or
/// halfword in their low bits and copies of its top bit in all the bits
/// above; `lbu` and `lhu` return it with all the bits above clear.
pub proof fn lemma_load_extension(addr: u32, rt: u32, mem: u32)
    ensures
        ({
            let byte: u32 = word_bytes(mem)[lane(addr)] as u32;
            let signed: u32 = load_spec(0x20, addr, rt, mem)->0;
            let unsigned: u32 = load_spec(0x24, addr, rt, mem)->0;
            &&& signed % 0x100 == byte
            &&& signed / 0x100 == (if byte >= 0x80 {
                0xff_ffffu32
            } else {
                0u32
            })
            &&& as_signed(signed) == (if byte >= 0x80 {
                byte - 0x100
            } else {
                byte as int
            })
            &&& unsigned == byte
            &&& unsigned < 0x100
        }),
        ({
            let half: u32 = halfword(mem, half_lane(addr));
            let signed: u32 = load_spec(0x21, addr, rt, mem)->0;
            let unsigned: u32 = load_spec(0x25, addr, rt, mem)->0;
            &&& signed % 0x1_0000 == half
            &&& signed / 0x1_0000 == (if half >= 0x8000 {
                0xffffu32
            } else {
                0u32
            })
            &&& as_signed(signed) == (if half >= 0x8000 {
                half - 0x1_0000
            } else {
                half as int
            })
            &&& unsigned == half
            &&& unsigned < 0x1_0000
        }),
{
    let byte: u32 = word_bytes(mem)[lane(addr)] as u32;
    let half: u32 = halfword(mem, half_lane(addr));
    lemma_extend_byte_and_halfword(byte, half);
}

/// Sign extension of a byte and of a halfword, from bit 7 and from bit 15.
pub proof fn lemma_extend_byte_and_halfword(byte: u32, half: u32)
    requires
        byte < 0x100,
        half < 0x1_0000,
    ensures
        sign_extend(byte, 8) == (if byte >= 0x80 {
            byte + 0xffff_ff00
        } else {
            byte as int
        }),
        sign_extend(half, 16) == (if half >= 0x8000 {
            half + 0xffff_0000
        } else {
            half as int
        }),
{
    lemma2_to64();
    assert(byte as int % 0x100 == byte);
    assert(half as int % 0x1_0000 == half);
}

/// Preimage reads stay inside the cached buffer: at the last byte one byte
/// is found, at or past the end none, and a call moves no more bytes than
/// were found, than were asked for, or than fit in the rest of the word.
pub proof fn lemma_preimage_read_bounds(buf: Seq<u8>, offset: u32, addr: u32, requested: u32)
    ensures
        available(buf, offset) <= 32,
        offset + available(buf, offset) <= buf.len() || available(buf, offset) == 0,
        offset + 1 == buf.len() ==> available(buf, offset) == 1,
        offset >= buf.len() ==> available(buf, offset) == 0,
        transfer_len(addr, available(buf, offset), requested) <= available(buf, offset),
        transfer_len(addr, available(buf, offset), requested) <= requested,
        transfer_len(addr, available(buf, offset), requested) <= 4 - addr % 4,
        offset + 1 == buf.len() && requested >= 1 ==> transfer_len(
            addr,
            available(buf, offset),
            requested,
        ) == 1,
        offset >= buf.len() ==> transfer_len(addr, available(buf, offset), requested) == 0,
{
}

/// Hint framing round trip: a record that is written whole, its length in
/// four big-endian bytes and then its payload, comes out as that payload,
/// and what follows it is treated as if it stood alone.
pub proof fn lemma_hint_round_trip(payload: Seq<u8>, rest: Seq<u8>)
    requires
        payload.len() < 0x1_0000_0000,
    ensures
        has_record(framed(payload) + rest),
        hint_payloads(framed(payload) + rest) == seq![payload] + hint_payloads(rest),
        hint_residue(framed(payload) + rest) == hint_residue(rest),
{
    let buf: Seq<u8> = framed(payload) + rest;
    let len: u32 = payload.len() as u32;
    lemma_word_bytes_round_trip(len, Seq::empty());
    assert(bytes_word(buf) == len) by {
        assert(buf[0] == framed(payload)[0] && buf[1] == framed(payload)[1] && buf[2] == framed(
            payload,
        )[2] && buf[3] == framed(payload)[3]);
    }
    assert(buf.subrange(4, 4 + record_len(buf)) =~= payload);
    assert(buf.skip(4 + record_len(buf)) =~= rest);
}

/// Buffering loses nothing: cutting a stream of hint bytes into two writes
/// yields the payloads of the first write, then those of what the first
/// write left over followed by the second.
pub proof fn lemma_hint_writes_compose(first: Seq<u8>, second: Seq<u8>)
    ensures
        hint_payloads(first + second) == hint_payloads(first) + hint_payloads(
            hint_residue(first) + second,
        ),
        hint_residue(first + second) == hint_residue(hint_residue(first) + second),
    decreases first.len(),
{
    if has_record(first) {
        let taken: int = 4 + record_len(first);
        let whole: Seq<u8> = first + second;
        assert(bytes_word(whole) == bytes_word(first));
        assert(whole.subrange(4, taken) =~= first.subrange(4, taken));
        assert(whole.skip(taken) =~= first.skip(taken) + second);
        lemma_hint_writes_compose(first.skip(taken), second);
        assert(hint_payloads(whole) =~= hint_payloads(first) + hint_payloads(
            hint_residue(first) + second,
        ));
    } else {
        assert(hint_payloads(first) + hint_payloads(first + second) =~= hint_payloads(
            first + second,
        ));
    }
}

/// Exit is terminal: `exit_group` marks the machine as exited with the low
/// byte of its argument as exit code, and every later step leaves the
/// engine as it is.
#[verifier::rlimit(50)]
pub proof fn lemma_exit_is_terminal(pre: EngineView, fetched: Seq<u8>, later: Seq<u8>)
    requires
        pre.state.registers[2] == SYS_EXIT_GROUP,
    ensures
        syscall_spec(pre, fetched) is Ok,
        ({
            let post: EngineView = syscall_spec(pre, fetched)->Ok_0;
            &&& post.state.exited
            &&& post.state.exit_code == pre.state.registers[4] % 256
            &&& post.state == (MachineView {
                exited: true,
                exit_code: post.state.exit_code,
                ..pre.state
            })
            &&& step_spec(post, later) == Ok::<EngineView, StepError>(post)
        }),
{
}

/// A machine that has exited does not change.
pub proof fn lemma_exited_machine_is_fixed(pre: EngineView, fetched: Seq<u8>)
    requires
        pre.state.exited,
    ensures
        step_spec(pre, fetched) == Ok::<EngineView, StepError>(pre),
{
}

/// What retiring an instruction keeps: the number of registers, register
/// 0, the step counter, and a preimage offset of 0 whenever the key changes.
pub open spec fn orderly(pre: MachineView, post: MachineView) -> bool {
    &&& post.registers.len() == pre.registers.len()
    &&& post.registers[0] == pre.registers[0]
    &&& post.step == pre.step
    &&& (post.preimage_key != pre.preimage_key ==> post.preimage_offset == 0)
}

#[verifier::rlimit(50)]
proof fn lemma_handlers_are_orderly(s: MachineView, a: u32, b: u32, c: u32, d: u32, flag: bool)
    requires
        s.registers.len() == 32,
    ensures
        rd_spec(s, a, b, flag) matches Ok(post) ==> orderly(s, post) && !post.exited == !s.exited,
        jump_spec(s, a, b) matches Ok(post) ==> orderly(s, post) && !post.exited == !s.exited,
        branch_spec(s, a, b, c, d) matches Ok(post) ==> orderly(s, post) && !post.exited
            == !s.exited,
        hilo_spec(s, a, b, c, d) matches Ok(post) ==> orderly(s, post) && !post.exited
            == !s.exited,
{
}

#[verifier::rlimit(50)]
proof fn lemma_syscall_is_orderly(e: EngineView, fetched: Seq<u8>)
    requires
        e.state.registers.len() == 32,
    ensures
        syscall_spec(e, fetched) matches Ok(post) ==> orderly(e.state, post.state) && (
        post.state.exited ==> e.state.exited || e.state.registers[2] == SYS_EXIT_GROUP),
{
}

#[verifier::rlimit(50)]
proof fn lemma_memory_op_is_orderly(e: EngineView, insn: u32, ops: Operands)
    requires
        e.state.registers.len() == 32,
        ops.rt_reg < 32,
    ensures
        memory_op(e, insn, ops) matches Ok(post) ==> orderly(e.state, post.state)
            && post.state.exited == e.state.exited,
{
}

#[verifier::rlimit(50)]
proof fn lemma_register_op_is_orderly(e: EngineView, insn: u32, ops: Operands, fetched: Seq<u8>)
    requires
        e.state.registers.len() == 32,
    ensures
        register_op(e, insn, ops, fetched) matches Ok(post) ==> orderly(e.state, post.state) && (
        post.state.exited ==> e.state.exited || (is_syscall(insn) && e.state.registers[2]
            == SYS_EXIT_GROUP)),
{
    lemma_handlers_are_orderly(e.state, 0, ops.rs, 0, 0, true);
    lemma_handlers_are_orderly(e.state, ops.rd_reg, ops.rs, 0, 0, ops.rt == 0);
    lemma_handlers_are_orderly(e.state, ops.rd_reg, ops.rs, 0, 0, ops.rt != 0);
    lemma_handlers_are_orderly(e.state, insn & 0x3f, ops.rs, ops.rt, ops.rd_reg, true);
    lemma_syscall_is_orderly(e, fetched);
    match execute_spec(insn, ops.rs, ops.rt, 0) {
        Some(val) => {
            lemma_handlers_are_orderly(e.state, ops.rd_reg, val, 0, 0, true);
        },
        None => {},
    }
}

/// What every step keeps: register 0, the count of retired instructions
/// going up by one, and a preimage offset of 0 whenever the key changes.
/// Only `exit_group` makes the machine exit.
#[verifier::rlimit(50)]
pub proof fn lemma_step_invariants(pre: EngineView, fetched: Seq<u8>)
    requires
        pre.state.registers.len() == 32,
        !pre.state.exited,
        step_spec(pre, fetched) is Ok,
    ensures
        ({
            let post: MachineView = step_spec(pre, fetched)->Ok_0.state;
            &&& post.registers.len() == 32
            &&& post.registers[0] == pre.state.registers[0]
            &&& post.step == pre.state.step + 1
            &&& (post.preimage_key != pre.state.preimage_key ==> post.preimage_offset == 0)
            &&& (post.exited ==> exits(pre.state))
        }),
{
    let e: EngineView = EngineView { last_mem_access: None, ..pre };
    let insn: u32 = pre.state.memory[pre.state.pc];
    let opcode: u32 = insn >> 26;
    let ops: Operands = operands(e.state, insn);
    lemma_fields(insn);
    lemma_handlers_are_orderly(e.state, 0, jump_target(insn), 0, 0, true);
    lemma_handlers_are_orderly(e.state, 31, jump_target(insn), 0, 0, true);
    lemma_handlers_are_orderly(e.state, opcode, insn, ops.rt_reg, ops.rs, true);
    lemma_memory_op_is_orderly(e, insn, ops);
    lemma_register_op_is_orderly(e, insn, ops, fetched);
}

/// An arithmetic shift right divides the signed value by a power of two
/// and rounds down.
pub proof fn lemma_arithmetic_shift(rt: u32, shamt: u32)
    requires
        shamt < 32,
    ensures
        sign_extend(rt >> shamt, (32 - shamt) as u32) == from_int(
            as_signed(rt) / pow2(shamt as nat) as int,
        ),
{
    let p: int = pow2(shamt as nat) as int;
    let q: int = pow2((32 - shamt) as nat) as int;
    let half: int = pow2((31 - shamt) as nat) as int;
    let x: int = (rt >> shamt) as int;
    lemma2_to64();
    lemma_pow2_pos(shamt as nat);
    lemma_pow2_pos((31 - shamt) as nat);
    lemma_pow2_adds(shamt as nat, (32 - shamt) as nat);
    lemma_pow2_adds(shamt as nat, (31 - shamt) as nat);
    lemma_u32_shr_is_div(rt, shamt);
    assert(p * q == 0x1_0000_0000 && p * half == 0x8000_0000 && q == 2 * half) by (nonlinear_arith)
        requires
            p * q == 0x1_0000_0000,
            p * half == 0x8000_0000,
            p > 0,
    ;
    let r: int = rt as int % p;
    assert(rt as int == x * p + r && 0 <= r < p) by {
        vstd::arithmetic::div_mod::lemma_fundamental_div_mod(rt as int, p);
        vstd::arithmetic::div_mod::lemma_mod_bound(rt as int, p);
        assert(p * (rt as int / p) == (rt as int / p) * p) by (nonlinear_arith);
    }
    assert(0 <= x < q && (x >= half <==> rt >= 0x8000_0000)) by (nonlinear_arith)
        requires
            rt as int == x * p + r,
            0 <= r < p,
            p * q == 0x1_0000_0000,
            p * half == 0x8000_0000,
            0 <= rt < 0x1_0000_0000,
    ;
    assert(x % q == x) by {
        vstd::arithmetic::div_mod::lemma_small_mod(x as nat, q as nat);
    }
    if rt >= 0x8000_0000 {
        assert(rt as int - 0x1_0000_0000 == (x - q) * p + r) by (nonlinear_arith)
            requires
                rt as int == x * p + r,
                p * q == 0x1_0000_0000,
        ;
        lemma_fundamental_div_mod_converse(rt as int - 0x1_0000_0000, p, x - q, r);
    }
}

/// The count of leading ones: that many bits from the top are set, and the
/// next one, if there is one, is clear.
pub proof fn lemma_leading_ones(x: u32)
    ensures
        leading_ones(x) <= 32,
        forall|i: nat| i < leading_ones(x) ==> #[trigger] top_bit(x, i),
        leading_ones(x) < 32 ==> !top_bit(x, leading_ones(x)),
{
    lemma_leading_ones_from(x, 0);
}

proof fn lemma_leading_ones_from(x: u32, from: nat)
    requires
        from <= 32,
    ensures
        from + leading_ones_from(x, from) <= 32,
        forall|i: nat| from <= i < from + leading_ones_from(x, from) ==> #[trigger] top_bit(x, i),
        from + leading_ones_from(x, from) < 32 ==> !top_bit(x, from + leading_ones_from(x, from)),
    decreases 32 - from,
{
    if from < 32 && top_bit(x, from) {
        lemma_leading_ones_from(x, from + 1);
    }
}

/// Division: quotient and remainder put the dividend back together, the
/// remainder is smaller in magnitude than the divisor and has the sign of
/// the dividend.
pub proof fn lemma_truncated_division(a: int, b: int)
    requires
        b != 0,
    ensures
        b * trunc_div(a, b) + trunc_rem(a, b) == a,
        a >= 0 ==> 0 <= trunc_rem(a, b),
        a <= 0 ==> trunc_rem(a, b) <= 0,
        b > 0 ==> -b < trunc_rem(a, b) < b,
        b < 0 ==> b < trunc_rem(a, b) < -b,
{
    let n: int = if a >= 0 { a } else { -a };
    let d: int = if b > 0 { b } else { -b };
    vstd::arithmetic::div_mod::lemma_fundamental_div_mod(n, d);
    vstd::arithmetic::div_mod::lemma_mod_bound(n, d);
    assert(b * trunc_div(a, b) + trunc_rem(a, b) == a) by (nonlinear_arith)
        requires
            n == d * (n / d) + n % d,
            n == (if a >= 0 { a } else { -a }),
            d == (if b > 0 { b } else { -b }),
            b != 0,
            trunc_div(a, b) == (if (a >= 0) == (b > 0) { n / d } else { -(n / d) }),
            trunc_rem(a, b) == (if a >= 0 { n % d } else { -(n % d) }),
    ;
}

/// `div` and `divu` leave the quotient in `lo` and the remainder in `hi`:
/// read as signed for `div` and as unsigned for `divu`, divisor times `lo`
/// plus `hi` is the dividend.
pub proof fn lemma_divide_results(s: MachineView, rs: u32, rt: u32)
    requires
        rt != 0,
    ensures
        hilo_values(s, 0x1b, rs, rt) matches Ok((hi, lo, _)) && rt * lo + hi == rs && hi < rt,
        !(rs == 0x8000_0000 && rt == 0xffff_ffff) ==> (hilo_values(s, 0x1a, rs, rt) matches Ok(
            (hi, lo, _),
        ) && as_signed(rt) * as_signed(lo) + as_signed(hi) == as_signed(rs)),
{
    vstd::arithmetic::div_mod::lemma_fundamental_div_mod(rs as int, rt as int);
    assert(rt * (rs / rt) == rt as int * (rs as int / rt as int)) by (nonlinear_arith);
    if !(rs == 0x8000_0000 && rt == 0xffff_ffff) {
        let a: int = as_signed(rs);
        let b: int = as_signed(rt);
        lemma_truncated_division(a, b);
        let q: int = trunc_div(a, b);
        let r: int = trunc_rem(a, b);
        assert(-0x8000_0000 <= q < 0x8000_0000 && -0x8000_0000 <= r < 0x8000_0000) by (nonlinear_arith)
            requires
                b * q + r == a,
                -0x8000_0000 <= a < 0x8000_0000,
                -0x8000_0000 <= b < 0x8000_0000,
                b != 0,
                !(a == -0x8000_0000 && b == -1),
                a >= 0 ==> 0 <= r,
                a <= 0 ==> r <= 0,
                b > 0 ==> -b < r < b,
                b < 0 ==> b < r < -b,
        ;
        assert(as_signed(from_int(q)) == q);
        assert(as_signed(from_int(r)) == r);
    }
}

/// The hi/lo pair after `mult` and `multu` is the 64-bit product: signed
/// for `mult`, unsigned for `multu`.
pub proof fn lemma_multiply_results(s: MachineView, rs: u32, rt: u32)
    ensures
        hilo_values(s, 0x19, rs, rt) matches Ok((hi, lo, _)) && hi * 0x1_0000_0000 + lo == rs * rt,
        hilo_values(s, 0x18, rs, rt) matches Ok((hi, lo, _)) && as_signed(hi) * 0x1_0000_0000 + lo
            == as_signed(rs) * as_signed(rt),
{
    assert(0 <= rs * rt <= 0xffff_fffe_0000_0001) by (nonlinear_arith)
        requires
            0 <= rs <= 0xffff_ffff,
            0 <= rt <= 0xffff_ffff,
    ;
    let p: int = as_signed(rs) * as_signed(rt);
    assert(-0x4000_0000_0000_0000 < p <= 0x4000_0000_0000_0000) by (nonlinear_arith)
        requires
            p == as_signed(rs) * as_signed(rt),
            -0x8000_0000 <= as_signed(rs) < 0x8000_0000,
            -0x8000_0000 <= as_signed(rt) < 0x8000_0000,
    ;
}

} // verus!
