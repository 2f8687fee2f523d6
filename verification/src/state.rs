//! The machine state, the engine that owns it, and their mathematical views.

use crate::bits::add32;
use crate::memory::Memory;
use crate::preimage::PreimageOracle;
use vstd::prelude::*;

verus! {

/// Descriptor of standard input: reads find nothing.
pub const FD_STDIN: u32 = 0;

/// Descriptor of standard output.
pub const FD_STDOUT: u32 = 1;

/// Descriptor of standard error.
pub const FD_STDERR: u32 = 2;

/// Descriptor on which the guest reads the answer to a hint; nothing is delivered.
pub const FD_HINT_READ: u32 = 3;

/// Descriptor on which the guest writes hints for the oracle.
pub const FD_HINT_WRITE: u32 = 4;

/// Descriptor on which the guest reads the preimage of the current key.
pub const FD_PREIMAGE_READ: u32 = 5;

/// Descriptor on which the guest writes the key of the preimage it wants.
pub const FD_PREIMAGE_WRITE: u32 = 6;

/// The error code for a descriptor that a call does not serve.
pub const MIPS_EBADF: u32 = 9;

/// Call number of `mmap`.
pub const SYS_MMAP: u32 = 4090;

/// Call number of `brk`.
pub const SYS_BRK: u32 = 4045;

/// Call number of `clone`.
pub const SYS_CLONE: u32 = 4120;

/// Call number of `exit_group`.
pub const SYS_EXIT_GROUP: u32 = 4246;

/// Call number of `read`.
pub const SYS_READ: u32 = 4003;

/// Call number of `write`.
pub const SYS_WRITE: u32 = 4004;

/// Call number of `fcntl`.
pub const SYS_FCNTL: u32 = 4055;

/// The `fcntl` command that asks for a descriptor's flags.
pub const F_GETFL: u32 = 3;

/// Granularity of `mmap`.
pub const PAGE_SIZE: u32 = 4096;

/// The bits of an address that lie within its page.
pub const PAGE_ADDR_MASK: u32 = 4095;

/// The address `brk` always reports.
pub const BRK_START: u32 = 0x4000_0000;

/// Why a step could not be carried out. None of these is a guest-visible
/// error code: each ends the run.
#[derive(Clone, Copy, Debug, PartialEq, Eq, Structural)]
pub enum StepError {
    /// The opcode and function code name no instruction the interpreter evaluates.
    InvalidInstruction,
    /// Not a branch opcode, or a register-immediate branch other than `bltz`/`bgez`.
    InvalidBranch,
    /// Not one of the hi/lo function codes.
    InvalidHiLo,
    /// A register number of 32 or more.
    InvalidRegister,
    /// A second, different address was to be proven within one step.
    MemoryAccessConflict,
    /// `div` or `divu` by zero.
    DivisionByZero,
    /// `div` of the most negative word by -1.
    DivisionOverflow,
    /// The program counter is not a multiple of four.
    UnalignedFetch,
    /// The step counter cannot count further.
    StepLimit,
}

/// The state of the machine that an outside verifier sees.
pub struct State<M> {
    pub memory: M,
    pub preimage_key: [u8; 32],
    pub preimage_offset: u32,
    /// The 32 general purpose registers.
    pub registers: [u32; 32],
    /// Address of the instruction that retires next.
    pub pc: u32,
    /// Address of the instruction that retires after it.
    pub next_pc: u32,
    /// High word, or remainder, of the last multiply or divide.
    pub hi: u32,
    /// Low word, or quotient, of the last multiply or divide.
    pub lo: u32,
    /// Where the next `mmap` from the heap will land.
    pub heap: u32,
    /// Instructions retired so far.
    pub step: u64,
    pub exited: bool,
    pub exit_code: u8,
    /// Hint bytes written by the guest that do not yet make up a whole record.
    pub last_hint: Vec<u8>,
}

/// The interpreter: the machine state plus what it needs to run it.
pub struct InstrumentedState<M, O> {
    pub state: State<M>,
    /// Bytes the guest wrote to standard output that the host has not taken yet.
    pub stdout: Vec<u8>,
    /// Bytes the guest wrote to standard error that the host has not taken yet.
    pub stderr: Vec<u8>,
    /// The address this step has accessed, if it has accessed one.
    pub last_mem_access: Option<u32>,
    /// Whether an inclusion proof is produced for each access.
    pub mem_proof_enabled: bool,
    /// The inclusion proof for the address last accessed with proofs enabled.
    pub mem_proof: [u8; 896],
    pub preimage_oracle: O,
    /// The preimage last fetched, behind its length prefix.
    pub last_preimage: Vec<u8>,
    /// The key `last_preimage` was fetched under, once one has been fetched.
    pub last_preimage_key: Option<[u8; 32]>,
    pub last_preimage_offset: u32,
}

/// The machine state as mathematics.
#[verifier::ext_equal]
pub struct MachineView {
    pub memory: Map<u32, u32>,
    pub preimage_key: Seq<u8>,
    pub preimage_offset: u32,
    pub registers: Seq<u32>,
    pub pc: u32,
    pub next_pc: u32,
    pub hi: u32,
    pub lo: u32,
    pub heap: u32,
    pub step: u64,
    pub exited: bool,
    pub exit_code: u8,
    pub last_hint: Seq<u8>,
}

/// The interpreter as mathematics. The oracle and the proof buffer are not
/// part of it; contracts speak of them by name.
#[verifier::ext_equal]
pub struct EngineView {
    pub state: MachineView,
    pub stdout: Seq<u8>,
    pub stderr: Seq<u8>,
    pub last_mem_access: Option<u32>,
    pub mem_proof_enabled: bool,
    pub last_preimage: Seq<u8>,
    pub last_preimage_key: Option<Seq<u8>>,
    pub last_preimage_offset: u32,
}

impl<M: Memory> View for State<M> {
    type V = MachineView;

    open spec fn view(&self) -> MachineView {
        MachineView {
            memory: self.memory.words(),
            preimage_key: self.preimage_key@,
            preimage_offset: self.preimage_offset,
            registers: self.registers@,
            pc: self.pc,
            next_pc: self.next_pc,
            hi: self.hi,
            lo: self.lo,
            heap: self.heap,
            step: self.step,
            exited: self.exited,
            exit_code: self.exit_code,
            last_hint: self.last_hint@,
        }
    }
}

impl<M: Memory, O: PreimageOracle> View for InstrumentedState<M, O> {
    type V = EngineView;

    open spec fn view(&self) -> EngineView {
        EngineView {
            state: self.state@,
            stdout: self.stdout@,
            stderr: self.stderr@,
            last_mem_access: self.last_mem_access,
            mem_proof_enabled: self.mem_proof_enabled,
            last_preimage: self.last_preimage@,
            last_preimage_key: match self.last_preimage_key {
                Some(key) => Some(key@),
                None => None,
            },
            last_preimage_offset: self.last_preimage_offset,
        }
    }
}

impl<M: Memory> State<M> {
    /// The state of a machine about to retire its first instruction at
    /// `pc`: registers, `hi` and `lo` zero, the instruction after `pc`
    /// pending, nothing written to the preimage channel.
    pub fn new(memory: M, pc: u32, heap: u32) -> (state: Self)
        ensures
            state@ == (MachineView {
                memory: memory.words(),
                preimage_key: Seq::new(32, |i: int| 0u8),
                preimage_offset: 0,
                registers: Seq::new(32, |i: int| 0u32),
                pc: pc,
                next_pc: add32(pc, 4),
                hi: 0,
                lo: 0,
                heap: heap,
                step: 0,
                exited: false,
                exit_code: 0,
                last_hint: Seq::empty(),
            }),
    {
        State {
            memory: memory,
            preimage_key: [0u8; 32],
            preimage_offset: 0,
            registers: [0u32; 32],
            pc: pc,
            next_pc: pc.wrapping_add(4),
            hi: 0,
            lo: 0,
            heap: heap,
            step: 0,
            exited: false,
            exit_code: 0,
            last_hint: Vec::new(),
        }
    }
}

impl<M: Memory, O: PreimageOracle> InstrumentedState<M, O> {
    /// Whether the parts outside the view, the oracle and the proof buffer,
    /// are those of `prior`.
    pub open spec fn keeps_collaborators(&self, prior: &Self) -> bool {
        self.preimage_oracle == prior.preimage_oracle && self.mem_proof == prior.mem_proof
    }

    /// An engine around `state` with nothing written, nothing accessed and
    /// nothing cached.
    pub fn new(state: State<M>, preimage_oracle: O, mem_proof_enabled: bool) -> (engine: Self)
        ensures
            engine@ == (EngineView {
                state: state@,
                stdout: Seq::empty(),
                stderr: Seq::empty(),
                last_mem_access: None,
                mem_proof_enabled: mem_proof_enabled,
                last_preimage: Seq::empty(),
                last_preimage_key: None,
                last_preimage_offset: 0,
            }),
            engine.preimage_oracle == preimage_oracle,
            engine.mem_proof@ == Seq::new(896, |i: int| 0u8),
    {
        InstrumentedState {
            state: state,
            stdout: Vec::new(),
            stderr: Vec::new(),
            last_mem_access: None,
            mem_proof_enabled: mem_proof_enabled,
            mem_proof: [0u8; 896],
            preimage_oracle: preimage_oracle,
            last_preimage: Vec::new(),
            last_preimage_key: None,
            last_preimage_offset: 0,
        }
    }

    /// Hands over what the guest has written to standard output since the
    /// last call.
    pub fn take_stdout(&mut self) -> (bytes: Vec<u8>)
        ensures
            bytes@ == old(self)@.stdout,
            final(self)@ == (EngineView { stdout: Seq::empty(), ..old(self)@ }),
            final(self).keeps_collaborators(old(self)),
    {
        let mut bytes: Vec<u8> = Vec::new();
        core::mem::swap(&mut self.stdout, &mut bytes);
        bytes
    }

    /// Hands over what the guest has written to standard error since the
    /// last call.
    pub fn take_stderr(&mut self) -> (bytes: Vec<u8>)
        ensures
            bytes@ == old(self)@.stderr,
            final(self)@ == (EngineView { stderr: Seq::empty(), ..old(self)@ }),
            final(self).keeps_collaborators(old(self)),
    {
        let mut bytes: Vec<u8> = Vec::new();
        core::mem::swap(&mut self.stderr, &mut bytes);
        bytes
    }
}

} // verus!
