//! The single-step transition: fetch, decode, dispatch, write back.

use crate::alu::execute_spec;
use crate::bits::{add32, lemma_fields, sign_extend, sign_extension};
use crate::handlers::{branch_spec, hilo_spec, jump_spec, rd_spec, set_register, with_state};
use crate::memory::{word_addr, Memory};
use crate::preimage::{is_framed, PreimageOracle};
use crate::state::{EngineView, InstrumentedState, MachineView, StepError};
use crate::syscall::{syscall_access, syscall_reads_preimage, syscall_spec};
use vstd::prelude::*;

verus! {

/// What an instruction works on: the value of its `rs` register, its second
/// operand, the number of its `rt` register and the register it writes.
pub struct Operands {
    pub rs: u32,
    pub rt: u32,
    pub rt_reg: u32,
    pub rd_reg: u32,
}

/// Whether an opcode is one of the branches.
pub open spec fn is_branch(opcode: u32) -> bool {
    (4 <= opcode < 8) || opcode == 1
}

/// Whether an opcode writes memory.
pub open spec fn is_store(opcode: u32) -> bool {
    opcode >= 0x28 && opcode != 0x30
}

/// Where `j` and `jal` go: the 26-bit field, sign extended, times four.
pub open spec fn jump_target(insn: u32) -> u32 {
    sign_extend(insn & 0x03ff_ffff, 26) << 2
}

/// The byte address of a load or store: `rs` plus the signed 16-bit offset.
pub open spec fn effective_address(rs: u32, insn: u32) -> u32 {
    add32(rs, sign_extend(insn & 0xffff, 16))
}

/// The operands of an instruction that is no `j` or `jal`.
pub open spec fn operands(s: MachineView, insn: u32) -> Operands {
    let opcode: u32 = insn >> 26;
    let rt_reg: u32 = (insn >> 16) & 0x1f;
    let rs: u32 = s.registers[((insn >> 21) & 0x1f) as int];
    if opcode == 0 || opcode == 0x1c {
        Operands {
            rs: rs,
            rt: s.registers[rt_reg as int],
            rt_reg: rt_reg,
            rd_reg: (insn >> 11) & 0x1f,
        }
    } else if opcode < 0x20 {
        Operands {
            rs: rs,
            rt: if opcode == 0xc || opcode == 0xd || opcode == 0xe {
                insn & 0xffff
            } else {
                sign_extend(insn & 0xffff, 16)
            },
            rt_reg: rt_reg,
            rd_reg: rt_reg,
        }
    } else if opcode >= 0x28 || opcode == 0x22 || opcode == 0x26 {
        Operands { rs: rs, rt: s.registers[rt_reg as int], rt_reg: rt_reg, rd_reg: rt_reg }
    } else {
        Operands { rs: rs, rt: 0, rt_reg: rt_reg, rd_reg: rt_reg }
    }
}

/// A load or store. The word at the aligned address is the step's one
/// memory access. A store writes the computed word back there and writes
/// no register; a store-conditional also reports success in `rt`.
pub open spec fn memory_op(e: EngineView, insn: u32, ops: Operands) -> Result<
    EngineView,
    StepError,
> {
    let opcode: u32 = insn >> 26;
    let at: u32 = effective_address(ops.rs, insn);
    let addr: u32 = word_addr(at);
    match execute_spec(insn, at, ops.rt, e.state.memory[addr]) {
        None => Err(StepError::InvalidInstruction),
        Some(val) => {
            let linked: MachineView = if opcode == 0x38 {
                set_register(e.state, ops.rt_reg, 1)
            } else {
                e.state
            };
            let stored: MachineView = if is_store(opcode) {
                MachineView { memory: linked.memory.insert(addr, val), ..linked }
            } else {
                linked
            };
            with_state(
                EngineView { last_mem_access: Some(addr), ..e },
                rd_spec(
                    stored,
                    if is_store(opcode) {
                        0
                    } else {
                        ops.rd_reg
                    },
                    val,
                    true,
                ),
            )
        },
    }
}

/// An instruction with an opcode below 0x20 that is no jump by opcode and
/// no branch: register jumps, conditional moves, system calls and hi/lo
/// instructions go to their handlers, everything else writes its value back.
pub open spec fn register_op(e: EngineView, insn: u32, ops: Operands, fetched: Seq<u8>) -> Result<
    EngineView,
    StepError,
> {
    let opcode: u32 = insn >> 26;
    let fun: u32 = insn & 0x3f;
    match execute_spec(insn, ops.rs, ops.rt, 0) {
        None => Err(StepError::InvalidInstruction),
        Some(val) => if opcode == 0 && fun == 0x8 {
            with_state(e, jump_spec(e.state, 0, ops.rs))
        } else if opcode == 0 && fun == 0x9 {
            with_state(e, jump_spec(e.state, ops.rd_reg, ops.rs))
        } else if opcode == 0 && fun == 0xa {
            with_state(e, rd_spec(e.state, ops.rd_reg, ops.rs, ops.rt == 0))
        } else if opcode == 0 && fun == 0xb {
            with_state(e, rd_spec(e.state, ops.rd_reg, ops.rs, ops.rt != 0))
        } else if opcode == 0 && fun == 0xc {
            syscall_spec(e, fetched)
        } else if opcode == 0 && 0x10 <= fun < 0x1c {
            with_state(e, hilo_spec(e.state, fun, ops.rs, ops.rt, ops.rd_reg))
        } else {
            with_state(e, rd_spec(e.state, ops.rd_reg, val, true))
        },
    }
}

/// The engine after the instruction word `insn` has retired.
pub open spec fn retire_spec(e: EngineView, insn: u32, fetched: Seq<u8>) -> Result<
    EngineView,
    StepError,
> {
    let opcode: u32 = insn >> 26;
    if opcode == 2 {
        with_state(e, jump_spec(e.state, 0, jump_target(insn)))
    } else if opcode == 3 {
        with_state(e, jump_spec(e.state, 31, jump_target(insn)))
    } else if is_branch(opcode) {
        let ops: Operands = operands(e.state, insn);
        with_state(e, branch_spec(e.state, opcode, insn, ops.rt_reg, ops.rs))
    } else if opcode >= 0x20 {
        memory_op(e, insn, operands(e.state, insn))
    } else {
        register_op(e, insn, operands(e.state, insn), fetched)
    }
}

/// Whether the instruction word is a system call.
pub open spec fn is_syscall(insn: u32) -> bool {
    insn >> 26 == 0 && insn & 0x3f == 0xc
}

/// The address that retiring `insn` accesses, if it accesses one.
pub open spec fn retire_access(s: MachineView, insn: u32) -> Option<u32> {
    if insn >> 26 >= 0x20 {
        Some(word_addr(effective_address(operands(s, insn).rs, insn)))
    } else if is_syscall(insn) {
        syscall_access(s)
    } else {
        None
    }
}

/// One step. A machine that has exited stays as it is. Otherwise the
/// instruction at `pc` retires with no access recorded yet, and the step
/// counter counts it. `fetched` is what the oracle returned, framed, if
/// the step asked it.
pub open spec fn step_spec(e: EngineView, fetched: Seq<u8>) -> Result<EngineView, StepError> {
    if e.state.exited {
        Ok(e)
    } else if e.state.step == u64::MAX {
        Err(StepError::StepLimit)
    } else if e.state.pc % 4 != 0 {
        Err(StepError::UnalignedFetch)
    } else {
        match retire_spec(
            EngineView { last_mem_access: None, ..e },
            e.state.memory[e.state.pc],
            fetched,
        ) {
            Err(x) => Err(x),
            Ok(done) => Ok(
                EngineView {
                    state: MachineView { step: (e.state.step + 1) as u64, ..done.state },
                    ..done
                },
            ),
        }
    }
}

/// The address a step accesses, if it accesses one.
pub open spec fn step_access(s: MachineView) -> Option<u32> {
    if s.exited {
        None
    } else {
        retire_access(s, s.memory[s.pc])
    }
}

/// Whether a step looks a preimage up.
pub open spec fn step_reads_preimage(s: MachineView) -> bool {
    !s.exited && is_syscall(s.memory[s.pc]) && syscall_reads_preimage(s)
}

impl<M: Memory, O: PreimageOracle> InstrumentedState<M, O> {
    /// Reads the operands of an instruction that is no `j` or `jal`.
    fn fetch_operands(&self, insn: u32) -> (ops: Operands)
        ensures
            ops == operands(self@.state, insn),
            ops.rt_reg < 32,
            ops.rd_reg < 32,
    {
        proof {
            lemma_fields(insn);
        }
        let opcode: u32 = insn >> 26;
        let rt_reg: u32 = (insn >> 16) & 0x1f;
        let rs: u32 = self.state.registers[((insn >> 21) & 0x1f) as usize];
        if opcode == 0 || opcode == 0x1c {
            Operands {
                rs: rs,
                rt: self.state.registers[rt_reg as usize],
                rt_reg: rt_reg,
                rd_reg: (insn >> 11) & 0x1f,
            }
        } else if opcode < 0x20 {
            let rt: u32 = if opcode == 0xc || opcode == 0xd || opcode == 0xe {
                insn & 0xffff
            } else {
                sign_extension(insn & 0xffff, 16)
            };
            Operands { rs: rs, rt: rt, rt_reg: rt_reg, rd_reg: rt_reg }
        } else if opcode >= 0x28 || opcode == 0x22 || opcode == 0x26 {
            Operands {
                rs: rs,
                rt: self.state.registers[rt_reg as usize],
                rt_reg: rt_reg,
                rd_reg: rt_reg,
            }
        } else {
            Operands { rs: rs, rt: 0, rt_reg: rt_reg, rd_reg: rt_reg }
        }
    }

    /// Retires a load or store.
    #[verifier::rlimit(60)]
    fn retire_memory_op(&mut self, insn: u32, ops: Operands) -> (r: Result<(), StepError>)
        requires
            old(self).last_mem_access is None,
            insn >> 26 >= 0x20,
            ops.rt_reg < 32,
            ops.rd_reg < 32,
        ensures
            match memory_op(old(self)@, insn, ops) {
                Ok(v) => {
                    &&& r is Ok
                    &&& final(self)@ == v
                    &&& final(self).mem_proof@ == Self::proof_after(
                        old(self),
                        Some(word_addr(effective_address(ops.rs, insn))),
                    )
                },
                Err(e) => r == Err::<(), StepError>(e) && *final(self) == *old(self),
            },
            final(self).preimage_oracle == old(self).preimage_oracle,
    {
        let opcode: u32 = insn >> 26;
        let at: u32 = ops.rs.wrapping_add(sign_extension(insn & 0xffff, 16));
        let addr: u32 = at - at % 4;
        let mem: u32 = self.state.memory.get_memory(addr);
        let val: u32 = match self.execute(insn, at, ops.rt, mem) {
            Ok(val) => val,
            Err(e) => {
                return Err(e);
            },
        };
        match self.track_memory_access(addr) {
            Ok(()) => {},
            Err(e) => {
                return Err(e);
            },
        }
        if opcode == 0x38 && ops.rt_reg != 0 {
            self.state.registers[ops.rt_reg as usize] = 1;
        }
        let store: bool = opcode >= 0x28 && opcode != 0x30;
        if store {
            self.state.memory.set_memory(addr, val);
        }
        self.handle_rd(
            if store {
                0
            } else {
                ops.rd_reg
            },
            val,
            true,
        )
    }

    /// Retires the instruction word `insn`.
    #[verifier::rlimit(60)]
    fn retire(&mut self, insn: u32) -> (r: Result<(), StepError>)
        requires
            old(self).last_mem_access is None,
        ensures
            match retire_spec(old(self)@, insn, final(self)@.last_preimage) {
                Ok(v) => {
                    &&& r is Ok
                    &&& final(self)@ == v
                    &&& final(self).mem_proof@ == Self::proof_after(
                        old(self),
                        retire_access(old(self)@.state, insn),
                    )
                },
                Err(e) => r == Err::<(), StepError>(e) && *final(self) == *old(self),
            },
            final(self).preimage_oracle == old(self).preimage_oracle,
            is_syscall(insn) && syscall_reads_preimage(old(self)@.state) && r is Ok && old(
                self,
            )@.last_preimage_key != Some(old(self)@.state.preimage_key) ==> is_framed(
                final(self)@.last_preimage,
            ),
    {
        proof {
            lemma_fields(insn);
        }
        let opcode: u32 = insn >> 26;
        if opcode == 2 || opcode == 3 {
            let link_reg: u32 = if opcode == 3 {
                31
            } else {
                0
            };
            return self.handle_jump(link_reg, sign_extension(insn & 0x03ff_ffff, 26) << 2);
        }
        let ops: Operands = self.fetch_operands(insn);
        if (opcode >= 4 && opcode < 8) || opcode == 1 {
            return self.handle_branch(opcode, insn, ops.rt_reg, ops.rs);
        }
        if opcode >= 0x20 {
            return self.retire_memory_op(insn, ops);
        }
        let val: u32 = match self.execute(insn, ops.rs, ops.rt, 0) {
            Ok(val) => val,
            Err(e) => {
                return Err(e);
            },
        };
        let fun: u32 = insn & 0x3f;
        if opcode == 0 && fun >= 0x8 && fun < 0x1c {
            if fun == 0x8 {
                return self.handle_jump(0, ops.rs);
            }
            if fun == 0x9 {
                return self.handle_jump(ops.rd_reg, ops.rs);
            }
            if fun == 0xa {
                return self.handle_rd(ops.rd_reg, ops.rs, ops.rt == 0);
            }
            if fun == 0xb {
                return self.handle_rd(ops.rd_reg, ops.rs, ops.rt != 0);
            }
            if fun == 0xc {
                return self.handle_syscall();
            }
            if fun >= 0x10 {
                return self.handle_hilo(fun, ops.rs, ops.rt, ops.rd_reg);
            }
        }
        self.handle_rd(ops.rd_reg, val, true)
    }

    /// Retires the instruction at `pc`, unless the machine has exited. On
    /// an error the engine is left exactly as it was.
    #[verifier::rlimit(60)]
    pub fn mips_step(&mut self) -> (r: Result<(), StepError>)
        ensures
            match step_spec(old(self)@, final(self)@.last_preimage) {
                Ok(v) => {
                    &&& r is Ok
                    &&& final(self)@ == v
                    &&& final(self).mem_proof@ == Self::proof_after(
                        old(self),
                        step_access(old(self)@.state),
                    )
                },
                Err(e) => r == Err::<(), StepError>(e) && *final(self) == *old(self),
            },
            old(self).state.exited ==> *final(self) == *old(self),
            final(self).preimage_oracle == old(self).preimage_oracle,
            step_reads_preimage(old(self)@.state) && r is Ok && old(self)@.last_preimage_key
                != Some(old(self)@.state.preimage_key) ==> is_framed(final(self)@.last_preimage),
    {
        if self.state.exited {
            return Ok(());
        }
        if self.state.step == u64::MAX {
            return Err(StepError::StepLimit);
        }
        if self.state.pc % 4 != 0 {
            return Err(StepError::UnalignedFetch);
        }
        let insn: u32 = self.state.memory.get_memory(self.state.pc);
        let saved: Option<u32> = self.last_mem_access;
        self.last_mem_access = None;
        match self.retire(insn) {
            Ok(()) => {
                self.state.step = self.state.step + 1;
                Ok(())
            },
            Err(e) => {
                self.last_mem_access = saved;
                Err(e)
            },
        }
    }
}

} // verus!
