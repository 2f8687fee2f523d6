//! Branches, jumps, the hi/lo unit and register write-back: the handlers
//! that move the program counter pair.

use crate::bits::{add32, as_signed, from_int, lemma_fields, sign_extend, sign_extension};
use crate::memory::Memory;
use crate::preimage::PreimageOracle;
use crate::state::{EngineView, InstrumentedState, MachineView, StepError};
use vstd::prelude::*;

verus! {

/// The state after an instruction that does not redirect control: the
/// pending address retires next and the one after it follows.
pub open spec fn advance(s: MachineView) -> MachineView {
    MachineView { pc: s.next_pc, next_pc: add32(s.next_pc, 4), ..s }
}

/// Writes a register. Register 0 is never written.
pub open spec fn set_register(s: MachineView, reg: u32, value: u32) -> MachineView {
    if reg == 0 {
        s
    } else {
        MachineView { registers: s.registers.update(reg as int, value), ..s }
    }
}

/// Puts a handler's outcome on the machine state back into the engine.
pub open spec fn with_state(e: EngineView, r: Result<MachineView, StepError>) -> Result<
    EngineView,
    StepError,
> {
    match r {
        Ok(s) => Ok(EngineView { state: s, ..e }),
        Err(x) => Err(x),
    }
}

/// Register write-back: `val` goes to `store_reg` if the condition holds.
pub open spec fn rd_spec(s: MachineView, store_reg: u32, val: u32, conditional: bool) -> Result<
    MachineView,
    StepError,
> {
    if store_reg >= 32 {
        Err(StepError::InvalidRegister)
    } else if conditional {
        Ok(advance(set_register(s, store_reg, val)))
    } else {
        Ok(advance(s))
    }
}

/// A jump: the delay slot retires next, then `dest`. The link register, if
/// any, receives the address behind the delay slot.
pub open spec fn jump_spec(s: MachineView, link_reg: u32, dest: u32) -> Result<
    MachineView,
    StepError,
> {
    if link_reg >= 32 {
        Err(StepError::InvalidRegister)
    } else {
        Ok(MachineView { pc: s.next_pc, next_pc: dest, ..set_register(s, link_reg, add32(s.pc, 8)) })
    }
}

/// Whether a branch is taken, given the value `rs` and, for `beq`/`bne`, the
/// value `rt` it is compared with. `None` for anything that is no branch.
pub open spec fn branch_taken(opcode: u32, insn: u32, rs: u32, rt: u32) -> Option<bool> {
    if opcode == 4 {
        Some(rs == rt)
    } else if opcode == 5 {
        Some(rs != rt)
    } else if opcode == 6 {
        Some(as_signed(rs) <= 0)
    } else if opcode == 7 {
        Some(as_signed(rs) > 0)
    } else if opcode == 1 && (insn >> 16) & 0x1f == 0 {
        Some(as_signed(rs) < 0)
    } else if opcode == 1 && (insn >> 16) & 0x1f == 1 {
        Some(as_signed(rs) >= 0)
    } else {
        None
    }
}

/// Where a taken branch at `pc` goes: the delay slot's address plus the
/// signed 16-bit word offset.
pub open spec fn branch_target(pc: u32, insn: u32) -> u32 {
    add32(add32(pc, 4), sign_extend(insn & 0xffff, 16) << 2)
}

/// A branch: the delay slot retires next whatever the outcome; after it
/// comes the target if the branch is taken and the following instruction
/// if not.
pub open spec fn branch_spec(s: MachineView, opcode: u32, insn: u32, rt_reg: u32, rs: u32) -> Result<
    MachineView,
    StepError,
> {
    if (opcode == 4 || opcode == 5) && rt_reg >= 32 {
        Err(StepError::InvalidRegister)
    } else {
        match branch_taken(opcode, insn, rs, s.registers[rt_reg as int]) {
            None => Err(StepError::InvalidBranch),
            Some(taken) => Ok(
                MachineView {
                    pc: s.next_pc,
                    next_pc: if taken {
                        branch_target(s.pc, insn)
                    } else {
                        add32(s.next_pc, 4)
                    },
                    ..s
                },
            ),
        }
    }
}

/// The quotient of `a` by `b` rounded towards zero.
pub open spec fn trunc_div(a: int, b: int) -> int
    recommends
        b != 0,
{
    if a >= 0 && b > 0 {
        a / b
    } else if a >= 0 {
        -(a / (-b))
    } else if b > 0 {
        -((-a) / b)
    } else {
        (-a) / (-b)
    }
}

/// The remainder that goes with `trunc_div`: it has the sign of `a`.
pub open spec fn trunc_rem(a: int, b: int) -> int
    recommends
        b != 0,
{
    if a >= 0 && b > 0 {
        a % b
    } else if a >= 0 {
        a % (-b)
    } else if b > 0 {
        -((-a) % b)
    } else {
        -((-a) % (-b))
    }
}

/// The new `hi` and `lo` and the value offered to the destination register.
pub open spec fn hilo_values(s: MachineView, fun: u32, rs: u32, rt: u32) -> Result<
    (u32, u32, u32),
    StepError,
> {
    if fun == 0x10 {
        Ok((s.hi, s.lo, s.hi))
    } else if fun == 0x11 {
        Ok((rs, s.lo, 0u32))
    } else if fun == 0x12 {
        Ok((s.hi, s.lo, s.lo))
    } else if fun == 0x13 {
        Ok((s.hi, rs, 0u32))
    } else if fun == 0x18 {
        let acc: int = (as_signed(rs) * as_signed(rt)) % 0x1_0000_0000_0000_0000;
        Ok(((acc / 0x1_0000_0000) as u32, (acc % 0x1_0000_0000) as u32, 0u32))
    } else if fun == 0x19 {
        let acc: int = rs * rt;
        Ok(((acc / 0x1_0000_0000) as u32, (acc % 0x1_0000_0000) as u32, 0u32))
    } else if fun == 0x1a {
        if rt == 0 {
            Err(StepError::DivisionByZero)
        } else if rs == 0x8000_0000 && rt == 0xffff_ffff {
            Err(StepError::DivisionOverflow)
        } else {
            Ok(
                (
                    from_int(trunc_rem(as_signed(rs), as_signed(rt))),
                    from_int(trunc_div(as_signed(rs), as_signed(rt))),
                    0u32,
                ),
            )
        }
    } else if fun == 0x1b {
        if rt == 0 {
            Err(StepError::DivisionByZero)
        } else {
            Ok((rs % rt, rs / rt, 0u32))
        }
    } else {
        Err(StepError::InvalidHiLo)
    }
}

/// A hi/lo instruction: moves between `hi`/`lo` and a register, or a
/// multiply or divide into them.
pub open spec fn hilo_spec(s: MachineView, fun: u32, rs: u32, rt: u32, store_reg: u32) -> Result<
    MachineView,
    StepError,
> {
    match hilo_values(s, fun, rs, rt) {
        Err(e) => Err(e),
        Ok((hi, lo, val)) => if store_reg >= 32 {
            Err(StepError::InvalidRegister)
        } else {
            Ok(advance(set_register(MachineView { hi: hi, lo: lo, ..s }, store_reg, val)))
        },
    }
}

proof fn lemma_product_bounds(a: int, b: int)
    by (nonlinear_arith)
    requires
        -0x8000_0000 <= a < 0x8000_0000,
        -0x8000_0000 <= b < 0x8000_0000,
    ensures
        -0x4000_0000_0000_0000 < a * b <= 0x4000_0000_0000_0000,
{
}

proof fn lemma_unsigned_product_bound(a: int, b: int)
    by (nonlinear_arith)
    requires
        0 <= a <= 0xffff_ffff,
        0 <= b <= 0xffff_ffff,
    ensures
        0 <= a * b <= 0xffff_fffe_0000_0001,
{
}

/// The magnitude of a word read as signed.
fn magnitude(x: u32) -> (m: u32)
    ensures
        m == (if as_signed(x) >= 0 {
            as_signed(x)
        } else {
            -as_signed(x)
        }),
{
    if x < 0x8000_0000 {
        x
    } else {
        (0xffff_ffff - x) + 1
    }
}

/// The word for `m` or for `-m`.
fn with_sign(m: u32, negative: bool) -> (w: u32)
    ensures
        w == from_int(
            if negative {
                -(m as int)
            } else {
                m as int
            },
        ),
{
    if negative {
        0u32.wrapping_sub(m)
    } else {
        m
    }
}

impl<M: Memory, O: PreimageOracle> InstrumentedState<M, O> {
    /// Retires a branch.
    pub fn handle_branch(&mut self, opcode: u32, insn: u32, rt_reg: u32, rs: u32) -> (r: Result<
        (),
        StepError,
    >)
        ensures
            match with_state(old(self)@, branch_spec(old(self)@.state, opcode, insn, rt_reg, rs)) {
                Ok(v) => r is Ok && final(self)@ == v && final(self).keeps_collaborators(old(self)),
                Err(e) => r == Err::<(), StepError>(e) && *final(self) == *old(self),
            },
    {
        proof {
            lemma_fields(insn);
        }
        let should_branch: bool = if opcode == 4 || opcode == 5 {
            if rt_reg >= 32 {
                return Err(StepError::InvalidRegister);
            }
            let rt: u32 = self.state.registers[rt_reg as usize];
            (rs == rt && opcode == 4) || (rs != rt && opcode == 5)
        } else if opcode == 6 {
            rs == 0 || rs >= 0x8000_0000
        } else if opcode == 7 {
            rs != 0 && rs < 0x8000_0000
        } else if opcode == 1 {
            let rtv: u32 = (insn >> 16) & 0x1f;
            if rtv == 0 {
                rs >= 0x8000_0000
            } else if rtv == 1 {
                rs < 0x8000_0000
            } else {
                return Err(StepError::InvalidBranch);
            }
        } else {
            return Err(StepError::InvalidBranch);
        };
        let prev_pc: u32 = self.state.pc;
        self.state.pc = self.state.next_pc;
        if should_branch {
            let offset: u32 = sign_extension(insn & 0xffff, 16) << 2;
            self.state.next_pc = prev_pc.wrapping_add(4).wrapping_add(offset);
        } else {
            self.state.next_pc = self.state.next_pc.wrapping_add(4);
        }
        Ok(())
    }

    /// Retires a jump to `dest`, linking through `link_reg` unless it is 0.
    pub fn handle_jump(&mut self, link_reg: u32, dest: u32) -> (r: Result<(), StepError>)
        ensures
            match with_state(old(self)@, jump_spec(old(self)@.state, link_reg, dest)) {
                Ok(v) => r is Ok && final(self)@ == v && final(self).keeps_collaborators(old(self)),
                Err(e) => r == Err::<(), StepError>(e) && *final(self) == *old(self),
            },
    {
        if link_reg >= 32 {
            return Err(StepError::InvalidRegister);
        }
        let prev_pc: u32 = self.state.pc;
        self.state.pc = self.state.next_pc;
        self.state.next_pc = dest;
        if link_reg != 0 {
            self.state.registers[link_reg as usize] = prev_pc.wrapping_add(8);
        }
        Ok(())
    }

    /// Retires a hi/lo instruction with function code `fun`.
    pub fn handle_hilo(&mut self, fun: u32, rs: u32, rt: u32, store_reg: u32) -> (r: Result<
        (),
        StepError,
    >)
        ensures
            match with_state(old(self)@, hilo_spec(old(self)@.state, fun, rs, rt, store_reg)) {
                Ok(v) => r is Ok && final(self)@ == v && final(self).keeps_collaborators(old(self)),
                Err(e) => r == Err::<(), StepError>(e) && *final(self) == *old(self),
            },
    {
        let mut hi: u32 = self.state.hi;
        let mut lo: u32 = self.state.lo;
        let mut val: u32 = 0;
        if fun == 0x10 {
            val = hi;
        } else if fun == 0x11 {
            hi = rs;
        } else if fun == 0x12 {
            val = lo;
        } else if fun == 0x13 {
            lo = rs;
        } else if fun == 0x18 {
            let a: i64 = if rs < 0x8000_0000 {
                rs as i64
            } else {
                rs as i64 - 0x1_0000_0000
            };
            let b: i64 = if rt < 0x8000_0000 {
                rt as i64
            } else {
                rt as i64 - 0x1_0000_0000
            };
            proof {
                lemma_product_bounds(a as int, b as int);
            }
            let p: i64 = a * b;
            let acc: u64 = if p >= 0 {
                p as u64
            } else {
                (p + 0x4000_0000_0000_0000) as u64 + 0xc000_0000_0000_0000
            };
            hi = (acc / 0x1_0000_0000) as u32;
            lo = (acc % 0x1_0000_0000) as u32;
        } else if fun == 0x19 {
            proof {
                lemma_unsigned_product_bound(rs as int, rt as int);
            }
            let acc: u64 = (rs as u64) * (rt as u64);
            hi = (acc / 0x1_0000_0000) as u32;
            lo = (acc % 0x1_0000_0000) as u32;
        } else if fun == 0x1a {
            if rt == 0 {
                return Err(StepError::DivisionByZero);
            }
            if rs == 0x8000_0000 && rt == 0xffff_ffff {
                return Err(StepError::DivisionOverflow);
            }
            let rs_negative: bool = rs >= 0x8000_0000;
            let rt_negative: bool = rt >= 0x8000_0000;
            let n: u32 = magnitude(rs);
            let d: u32 = magnitude(rt);
            hi = with_sign(n % d, rs_negative);
            lo = with_sign(n / d, rs_negative != rt_negative);
        } else if fun == 0x1b {
            if rt == 0 {
                return Err(StepError::DivisionByZero);
            }
            hi = rs % rt;
            lo = rs / rt;
        } else {
            return Err(StepError::InvalidHiLo);
        }
        if store_reg >= 32 {
            return Err(StepError::InvalidRegister);
        }
        self.state.hi = hi;
        self.state.lo = lo;
        if store_reg != 0 {
            self.state.registers[store_reg as usize] = val;
        }
        self.state.pc = self.state.next_pc;
        self.state.next_pc = self.state.next_pc.wrapping_add(4);
        Ok(())
    }

    /// Writes `val` to `store_reg` if the condition holds and moves on.
    pub fn handle_rd(&mut self, store_reg: u32, val: u32, conditional: bool) -> (r: Result<
        (),
        StepError,
    >)
        ensures
            match with_state(old(self)@, rd_spec(old(self)@.state, store_reg, val, conditional)) {
                Ok(v) => r is Ok && final(self)@ == v && final(self).keeps_collaborators(old(self)),
                Err(e) => r == Err::<(), StepError>(e) && *final(self) == *old(self),
            },
    {
        if store_reg >= 32 {
            return Err(StepError::InvalidRegister);
        }
        if store_reg != 0 && conditional {
            self.state.registers[store_reg as usize] = val;
        }
        self.state.pc = self.state.next_pc;
        self.state.next_pc = self.state.next_pc.wrapping_add(4);
        Ok(())
    }
}

} // verus!
