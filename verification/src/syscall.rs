//! The system calls a guest can make, the bookkeeping of the one memory
//! access a step may prove, and the cache in front of the preimage oracle.

use crate::bits::{add32, bytes_word, from_be_bytes, to_be_bytes, word_bytes};
use crate::handlers::advance;
use crate::memory::{range_bytes, read_memory_range, word_addr, Memory};
use crate::preimage::{
    available, chunk, extract_hints, frame_preimage, hint_residue, is_framed, preimage_chunk,
    PreimageOracle,
};
use crate::state::{
    EngineView, InstrumentedState, MachineView, StepError, BRK_START, FD_HINT_READ, FD_HINT_WRITE,
    FD_PREIMAGE_READ, FD_PREIMAGE_WRITE, FD_STDERR, FD_STDIN, FD_STDOUT, F_GETFL, MIPS_EBADF,
    PAGE_SIZE, SYS_BRK, SYS_CLONE, SYS_EXIT_GROUP, SYS_FCNTL, SYS_MMAP, SYS_READ, SYS_WRITE,
};
use vstd::prelude::*;

verus! {

/// Recording an access to `addr`: refused, with proofs enabled, when this
/// step has already accessed another address.
pub open spec fn track_spec(e: EngineView, addr: u32) -> Result<EngineView, StepError> {
    if e.mem_proof_enabled && e.last_mem_access is Some && e.last_mem_access != Some(addr) {
        Err(StepError::MemoryAccessConflict)
    } else {
        Ok(EngineView { last_mem_access: Some(addr), ..e })
    }
}

/// The cached preimage once `key` has been looked up: the cache as it was
/// if it was filed under `key`, else what the oracle returned, framed.
pub open spec fn cache_after(e: EngineView, key: Seq<u8>, fetched: Seq<u8>) -> Seq<u8> {
    if e.last_preimage_key == Some(key) {
        e.last_preimage
    } else {
        fetched
    }
}

/// The engine after a lookup of `key` at `offset`.
pub open spec fn preimage_lookup(e: EngineView, key: Seq<u8>, offset: u32, fetched: Seq<u8>) -> EngineView {
    EngineView {
        last_preimage: cache_after(e, key, fetched),
        last_preimage_key: Some(key),
        last_preimage_offset: offset,
        ..e
    }
}

/// A size rounded up to whole pages, modulo 2^32.
pub open spec fn page_round(size: u32) -> u32 {
    if size % PAGE_SIZE != 0 {
        add32(size, (PAGE_SIZE - size % PAGE_SIZE) as u32)
    } else {
        size
    }
}

/// How many bytes one preimage call moves: no more than `limit`, than the
/// bytes from `addr` to the end of its word, or than were asked for.
pub open spec fn transfer_len(addr: u32, limit: nat, requested: u32) -> nat {
    let space: nat = (4 - addr % 4) as nat;
    let most: nat = if limit < space {
        limit
    } else {
        space
    };
    if most < requested {
        most
    } else {
        requested as nat
    }
}

/// The word `mem` with `count` bytes of `data` written from the byte at `addr` on.
pub open spec fn merged_word(mem: u32, addr: u32, data: Seq<u8>, count: nat) -> u32 {
    bytes_word(
        Seq::new(
            4,
            |i: int|
                if addr % 4 <= i < addr % 4 + count {
                    data[i - addr % 4]
                } else {
                    word_bytes(mem)[i]
                },
        ),
    )
}

/// The key with its first `count` bytes dropped and `count` bytes of the
/// word `mem`, from the byte at `addr` on, added at its end.
pub open spec fn shifted_key(key: Seq<u8>, mem: u32, addr: u32, count: nat) -> Seq<u8> {
    key.skip(count as int) + word_bytes(mem).subrange((addr % 4) as int, addr % 4 + count)
}

/// What a call leaves behind: the engine with the call's effects, and the
/// values for the result register and the error register.
pub struct CallOutcome {
    pub engine: EngineView,
    pub v0: u32,
    pub v1: u32,
}

/// A call that changes nothing and returns `v0` without error.
pub open spec fn plain_result(e: EngineView, v0: u32) -> CallOutcome {
    CallOutcome { engine: e, v0: v0, v1: 0 }
}

/// A call on a descriptor it does not serve.
pub open spec fn bad_descriptor(e: EngineView) -> CallOutcome {
    CallOutcome { engine: e, v0: 0xffff_ffff, v1: MIPS_EBADF }
}

/// `mmap`: from the heap when `a0` is 0, else at the address asked for.
pub open spec fn mmap_spec(e: EngineView, a0: u32, a1: u32) -> CallOutcome {
    if a0 == 0 {
        plain_result(
            EngineView {
                state: MachineView { heap: add32(e.state.heap, page_round(a1)), ..e.state },
                ..e
            },
            e.state.heap,
        )
    } else {
        plain_result(e, a0)
    }
}

/// A read from the preimage descriptor: bytes of the current preimage, from
/// the current offset, go into the word that holds `a1`.
pub open spec fn preimage_read_spec(e: EngineView, a1: u32, a2: u32, fetched: Seq<u8>) -> Result<
    CallOutcome,
    StepError,
> {
    let addr: u32 = word_addr(a1);
    match track_spec(e, addr) {
        Err(x) => Err(x),
        Ok(recorded) => {
            let found: EngineView = preimage_lookup(
                recorded,
                e.state.preimage_key,
                e.state.preimage_offset,
                fetched,
            );
            let count: nat = transfer_len(
                a1,
                available(found.last_preimage, e.state.preimage_offset),
                a2,
            );
            let word: u32 = merged_word(
                e.state.memory[addr],
                a1,
                chunk(found.last_preimage, e.state.preimage_offset),
                count,
            );
            Ok(
                plain_result(
                    EngineView {
                        state: MachineView {
                            memory: e.state.memory.insert(addr, word),
                            preimage_offset: add32(e.state.preimage_offset, count as u32),
                            ..e.state
                        },
                        ..found
                    },
                    count as u32,
                ),
            )
        },
    }
}

/// A write to the preimage descriptor: bytes of the word that holds `a1`
/// are shifted into the key, and reading starts over.
pub open spec fn preimage_write_spec(e: EngineView, a1: u32, a2: u32) -> Result<
    CallOutcome,
    StepError,
> {
    let addr: u32 = word_addr(a1);
    match track_spec(e, addr) {
        Err(x) => Err(x),
        Ok(recorded) => {
            let count: nat = transfer_len(a1, 4, a2);
            Ok(
                plain_result(
                    EngineView {
                        state: MachineView {
                            preimage_key: shifted_key(
                                e.state.preimage_key,
                                e.state.memory[addr],
                                a1,
                                count,
                            ),
                            preimage_offset: 0,
                            ..e.state
                        },
                        ..recorded
                    },
                    count as u32,
                ),
            )
        },
    }
}

/// `read(a0, a1, a2)`.
pub open spec fn read_spec(e: EngineView, a0: u32, a1: u32, a2: u32, fetched: Seq<u8>) -> Result<
    CallOutcome,
    StepError,
> {
    if a0 == FD_STDIN {
        Ok(plain_result(e, 0))
    } else if a0 == FD_PREIMAGE_READ {
        preimage_read_spec(e, a1, a2, fetched)
    } else if a0 == FD_HINT_READ {
        Ok(plain_result(e, a2))
    } else {
        Ok(bad_descriptor(e))
    }
}

/// `write(a0, a1, a2)`.
pub open spec fn write_spec(e: EngineView, a0: u32, a1: u32, a2: u32) -> Result<
    CallOutcome,
    StepError,
> {
    let bytes: Seq<u8> = range_bytes(e.state.memory, a1, a2 as nat);
    if a0 == FD_STDOUT {
        Ok(plain_result(EngineView { stdout: e.stdout + bytes, ..e }, a2))
    } else if a0 == FD_STDERR {
        Ok(plain_result(EngineView { stderr: e.stderr + bytes, ..e }, a2))
    } else if a0 == FD_HINT_WRITE {
        Ok(
            plain_result(
                EngineView {
                    state: MachineView {
                        last_hint: hint_residue(e.state.last_hint + bytes),
                        ..e.state
                    },
                    ..e
                },
                0,
            ),
        )
    } else if a0 == FD_PREIMAGE_WRITE {
        preimage_write_spec(e, a1, a2)
    } else {
        Ok(bad_descriptor(e))
    }
}

/// What `fcntl(a0, a1)` returns in registers 2 and 7. Only the query for
/// the descriptor's flags is served: read-only for the descriptors that
/// are read, write-only for those that are written.
pub open spec fn fcntl_spec(a0: u32, a1: u32) -> (u32, u32) {
    if a1 != F_GETFL {
        (0xffff_ffffu32, MIPS_EBADF)
    } else if a0 == FD_STDIN || a0 == FD_PREIMAGE_READ || a0 == FD_HINT_READ {
        (0u32, 0u32)
    } else if a0 == FD_STDOUT || a0 == FD_STDERR || a0 == FD_PREIMAGE_WRITE || a0
        == FD_HINT_WRITE {
        (1u32, 0u32)
    } else {
        (0xffff_ffffu32, MIPS_EBADF)
    }
}

/// The effect of the call that registers 2, 4, 5 and 6 describe, for every
/// call but `exit_group`.
pub open spec fn call_spec(e: EngineView, fetched: Seq<u8>) -> Result<CallOutcome, StepError> {
    let num: u32 = e.state.registers[2];
    let a0: u32 = e.state.registers[4];
    let a1: u32 = e.state.registers[5];
    let a2: u32 = e.state.registers[6];
    if num == SYS_MMAP {
        Ok(mmap_spec(e, a0, a1))
    } else if num == SYS_BRK {
        Ok(plain_result(e, BRK_START))
    } else if num == SYS_CLONE {
        Ok(plain_result(e, 1))
    } else if num == SYS_READ {
        read_spec(e, a0, a1, a2, fetched)
    } else if num == SYS_WRITE {
        write_spec(e, a0, a1, a2)
    } else if num == SYS_FCNTL {
        Ok(CallOutcome { engine: e, v0: fcntl_spec(a0, a1).0, v1: fcntl_spec(a0, a1).1 })
    } else {
        Ok(plain_result(e, 0))
    }
}

/// A system call. `exit_group` halts the machine where it stands; every
/// other call leaves its results in registers 2 and 7 and moves on.
/// `fetched` is what the oracle returned, framed, if the call asked it.
pub open spec fn syscall_spec(e: EngineView, fetched: Seq<u8>) -> Result<EngineView, StepError> {
    if e.state.registers[2] == SYS_EXIT_GROUP {
        Ok(
            EngineView {
                state: MachineView {
                    exited: true,
                    exit_code: (e.state.registers[4] % 256) as u8,
                    ..e.state
                },
                ..e
            },
        )
    } else {
        match call_spec(e, fetched) {
            Err(x) => Err(x),
            Ok(done) => Ok(
                EngineView {
                    state: advance(
                        MachineView {
                            registers: done.engine.state.registers.update(2, done.v0).update(
                                7,
                                done.v1,
                            ),
                            ..done.engine.state
                        },
                    ),
                    ..done.engine
                },
            ),
        }
    }
}

/// The address a system call accesses, if it accesses memory word-wise.
pub open spec fn syscall_access(s: MachineView) -> Option<u32> {
    if (s.registers[2] == SYS_READ && s.registers[4] == FD_PREIMAGE_READ) || (s.registers[2] == SYS_WRITE
        && s.registers[4] == FD_PREIMAGE_WRITE) {
        Some(word_addr(s.registers[5]))
    } else {
        None
    }
}

/// Whether a system call looks a preimage up.
pub open spec fn syscall_reads_preimage(s: MachineView) -> bool {
    s.registers[2] == SYS_READ && s.registers[4] == FD_PREIMAGE_READ
}

/// How many bytes a preimage call moves; see `transfer_len`.
pub fn transfer_count(addr: u32, limit: u32, requested: u32) -> (count: u32)
    ensures
        count == transfer_len(addr, limit as nat, requested),
        count <= 4 - addr % 4,
{
    let space: u32 = 4 - addr % 4;
    let most: u32 = if limit < space {
        limit
    } else {
        space
    };
    if most < requested {
        most
    } else {
        requested
    }
}

/// Writes bytes of `data` into the word `mem`, starting at the byte that
/// `addr` points to: as many as `transfer_count(addr, found, requested)`
/// allows. Returns the word and the number of bytes written.
pub fn merge_word(mem: u32, addr: u32, data: &[u8; 32], found: u32, requested: u32) -> (r: (
    u32,
    u32,
))
    ensures
        r.1 == transfer_len(addr, found as nat, requested),
        r.0 == merged_word(mem, addr, data@, r.1 as nat),
{
    let count: u32 = transfer_count(addr, found, requested);
    let alignment: u32 = addr % 4;
    let mut out: [u8; 4] = to_be_bytes(mem);
    let mut i: u32 = 0;
    while i < count
        invariant
            i <= count <= 4 - alignment,
            alignment == addr % 4,
            forall|j: int|
                0 <= j < 4 ==> out@[j] == (if alignment <= j < alignment + i {
                    data@[j - alignment]
                } else {
                    word_bytes(mem)[j]
                }),
        decreases count - i,
    {
        out[(alignment + i) as usize] = data[i as usize];
        i = i + 1;
    }
    assert(out@ =~= Seq::new(
        4,
        |j: int|
            if addr % 4 <= j < addr % 4 + count {
                data@[j - addr % 4]
            } else {
                word_bytes(mem)[j]
            },
    ));
    (from_be_bytes(&out), count)
}

/// Drops bytes from the front of the key and adds as many bytes of the
/// word `mem`, from the byte that `addr` points to, at its end: as many as
/// `transfer_count(addr, 4, requested)` allows. Returns the key and the
/// number of bytes added.
pub fn shift_key(key: &[u8; 32], mem: u32, addr: u32, requested: u32) -> (r: ([u8; 32], u32))
    ensures
        r.1 == transfer_len(addr, 4, requested),
        r.0@ == shifted_key(key@, mem, addr, r.1 as nat),
{
    let count: u32 = transfer_count(addr, 4, requested);
    let alignment: u32 = addr % 4;
    let lanes: [u8; 4] = to_be_bytes(mem);
    let kept: usize = 32 - count as usize;
    let mut shifted: [u8; 32] = [0u8; 32];
    let mut i: usize = 0;
    while i < 32
        invariant
            i <= 32,
            kept == 32 - count,
            count <= 4 - alignment,
            alignment == addr % 4,
            lanes@ == word_bytes(mem),
            forall|j: int|
                0 <= j < i ==> shifted@[j] == (if j < kept {
                    key@[j + count]
                } else {
                    lanes@[alignment + j - kept]
                }),
        decreases 32 - i,
    {
        if i < kept {
            shifted[i] = key[i + count as usize];
        } else {
            shifted[i] = lanes[alignment as usize + i - kept];
        }
        i = i + 1;
    }
    assert(shifted@ =~= shifted_key(key@, mem, addr, count as nat));
    (shifted, count)
}

/// `fcntl`: see `fcntl_spec`.
pub fn fcntl(a0: u32, a1: u32) -> (r: (u32, u32))
    ensures
        r == fcntl_spec(a0, a1),
{
    if a1 != F_GETFL {
        (0xffff_ffff, MIPS_EBADF)
    } else if a0 == FD_STDIN || a0 == FD_PREIMAGE_READ || a0 == FD_HINT_READ {
        (0, 0)
    } else if a0 == FD_STDOUT || a0 == FD_STDERR || a0 == FD_PREIMAGE_WRITE || a0 == FD_HINT_WRITE {
        (1, 0)
    } else {
        (0xffff_ffff, MIPS_EBADF)
    }
}

/// Whether two keys hold the same bytes.
pub fn same_key(a: &[u8; 32], b: &[u8; 32]) -> (same: bool)
    ensures
        same == (a@ == b@),
{
    let mut i: usize = 0;
    while i < 32
        invariant
            i <= 32,
            forall|j: int| 0 <= j < i ==> a@[j] == b@[j],
        decreases 32 - i,
    {
        if a[i] != b[i] {
            return false;
        }
        i = i + 1;
    }
    assert(a@ =~= b@);
    true
}

impl<M: Memory, O: PreimageOracle> InstrumentedState<M, O> {
    /// The proof buffer after a call on `prior` that accessed `access`: the
    /// proof for that address in the memory as it was, if an address was
    /// accessed and proofs are enabled, else the buffer as it was.
    pub open spec fn proof_after(prior: &Self, access: Option<u32>) -> Seq<u8> {
        if prior.mem_proof_enabled && access is Some {
            prior.state.memory.proof_of(access->0)
        } else {
            prior.mem_proof@
        }
    }

    /// Records that this step accesses `addr` and, with proofs enabled,
    /// takes the inclusion proof for it. A second, different address in the
    /// same step is refused.
    pub fn track_memory_access(&mut self, addr: u32) -> (r: Result<(), StepError>)
        ensures
            match track_spec(old(self)@, addr) {
                Ok(v) => {
                    &&& r is Ok
                    &&& final(self)@ == v
                    &&& final(self).preimage_oracle == old(self).preimage_oracle
                    &&& final(self).mem_proof@ == Self::proof_after(old(self), Some(addr))
                },
                Err(e) => r == Err::<(), StepError>(e) && *final(self) == *old(self),
            },
    {
        if self.mem_proof_enabled {
            match self.last_mem_access {
                Some(last) => {
                    if last != addr {
                        return Err(StepError::MemoryAccessConflict);
                    }
                },
                None => {},
            }
            self.mem_proof = self.state.memory.merkle_proof(addr);
        }
        self.last_mem_access = Some(addr);
        Ok(())
    }

    /// Looks `key` up, asking the oracle unless the cache is filed under
    /// it, and returns up to 32 bytes of the framed preimage from `offset`
    /// on, with the number of bytes that were there.
    pub fn read_preimage(&mut self, key: [u8; 32], offset: u32) -> (r: ([u8; 32], u32))
        ensures
            final(self)@ == preimage_lookup(old(self)@, key@, offset, final(self)@.last_preimage),
            old(self)@.last_preimage_key != Some(key@) ==> is_framed(final(self)@.last_preimage),
            final(self).keeps_collaborators(old(self)),
            r.0@ == chunk(final(self)@.last_preimage, offset),
            r.1 == available(final(self)@.last_preimage, offset),
    {
        let cached: bool = match &self.last_preimage_key {
            Some(last) => same_key(last, &key),
            None => false,
        };
        if !cached {
            let data: Vec<u8> = self.preimage_oracle.get_preimage(key);
            self.last_preimage = frame_preimage(&data);
            self.last_preimage_key = Some(key);
        }
        self.last_preimage_offset = offset;
        preimage_chunk(&self.last_preimage, offset)
    }

    /// Carries out the system call that the registers describe.
    #[verifier::rlimit(60)]
    pub fn handle_syscall(&mut self) -> (r: Result<(), StepError>)
        ensures
            match syscall_spec(old(self)@, final(self)@.last_preimage) {
                Ok(v) => {
                    &&& r is Ok
                    &&& final(self)@ == v
                    &&& final(self).mem_proof@ == Self::proof_after(
                        old(self),
                        syscall_access(old(self)@.state),
                    )
                },
                Err(e) => r == Err::<(), StepError>(e) && *final(self) == *old(self),
            },
            final(self).preimage_oracle == old(self).preimage_oracle,
            syscall_reads_preimage(old(self)@.state) && r is Ok && old(self)@.last_preimage_key
                != Some(old(self)@.state.preimage_key) ==> is_framed(final(self)@.last_preimage),
    {
        if self.state.registers[2] == SYS_EXIT_GROUP {
            self.state.exited = true;
            self.state.exit_code = (self.state.registers[4] % 256) as u8;
            return Ok(());
        }
        let (v0, v1) = match self.call() {
            Ok(results) => results,
            Err(e) => {
                return Err(e);
            },
        };
        self.state.registers[2] = v0;
        self.state.registers[7] = v1;
        self.state.pc = self.state.next_pc;
        self.state.next_pc = self.state.next_pc.wrapping_add(4);
        Ok(())
    }

    /// Carries out a call other than `exit_group` and returns what goes
    /// into registers 2 and 7.
    #[verifier::rlimit(60)]
    fn call(&mut self) -> (r: Result<(u32, u32), StepError>)
        requires
            old(self).state.registers[2] != SYS_EXIT_GROUP,
        ensures
            match call_spec(old(self)@, final(self)@.last_preimage) {
                Ok(done) => {
                    &&& r == Ok::<(u32, u32), StepError>((done.v0, done.v1))
                    &&& final(self)@ == done.engine
                    &&& final(self).mem_proof@ == Self::proof_after(
                        old(self),
                        syscall_access(old(self)@.state),
                    )
                },
                Err(e) => r == Err::<(u32, u32), StepError>(e) && *final(self) == *old(self),
            },
            final(self).preimage_oracle == old(self).preimage_oracle,
            syscall_reads_preimage(old(self)@.state) && r is Ok && old(self)@.last_preimage_key
                != Some(old(self)@.state.preimage_key) ==> is_framed(final(self)@.last_preimage),
    {
        let num: u32 = self.state.registers[2];
        let a0: u32 = self.state.registers[4];
        let a1: u32 = self.state.registers[5];
        let a2: u32 = self.state.registers[6];
        if num == SYS_MMAP {
            Ok((self.sys_mmap(a0, a1), 0))
        } else if num == SYS_BRK {
            Ok((BRK_START, 0))
        } else if num == SYS_CLONE {
            Ok((1, 0))
        } else if num == SYS_READ {
            self.sys_read(a0, a1, a2)
        } else if num == SYS_WRITE {
            self.sys_write(a0, a1, a2)
        } else if num == SYS_FCNTL {
            Ok(fcntl(a0, a1))
        } else {
            Ok((0, 0))
        }
    }

    /// `mmap`: see `mmap_spec`.
    fn sys_mmap(&mut self, a0: u32, a1: u32) -> (v0: u32)
        ensures
            final(self)@ == mmap_spec(old(self)@, a0, a1).engine,
            v0 == mmap_spec(old(self)@, a0, a1).v0,
            mmap_spec(old(self)@, a0, a1).v1 == 0,
            final(self).keeps_collaborators(old(self)),
    {
        let size: u32 = if a1 % PAGE_SIZE != 0 {
            a1.wrapping_add(PAGE_SIZE - a1 % PAGE_SIZE)
        } else {
            a1
        };
        if a0 == 0 {
            let base: u32 = self.state.heap;
            self.state.heap = base.wrapping_add(size);
            base
        } else {
            a0
        }
    }

    /// `read`: see `read_spec`.
    #[verifier::rlimit(60)]
    fn sys_read(&mut self, a0: u32, a1: u32, a2: u32) -> (r: Result<(u32, u32), StepError>)
        ensures
            match read_spec(old(self)@, a0, a1, a2, final(self)@.last_preimage) {
                Ok(done) => {
                    &&& r == Ok::<(u32, u32), StepError>((done.v0, done.v1))
                    &&& final(self)@ == done.engine
                    &&& final(self).mem_proof@ == Self::proof_after(
                        old(self),
                        if a0 == FD_PREIMAGE_READ {
                            Some(word_addr(a1))
                        } else {
                            None
                        },
                    )
                },
                Err(e) => r == Err::<(u32, u32), StepError>(e) && *final(self) == *old(self),
            },
            final(self).preimage_oracle == old(self).preimage_oracle,
            a0 == FD_PREIMAGE_READ && r is Ok && old(self)@.last_preimage_key != Some(
                old(self)@.state.preimage_key,
            ) ==> is_framed(final(self)@.last_preimage),
    {
        if a0 == FD_STDIN {
            Ok((0, 0))
        } else if a0 == FD_PREIMAGE_READ {
            match self.preimage_read(a1, a2) {
                Ok(count) => Ok((count, 0)),
                Err(e) => Err(e),
            }
        } else if a0 == FD_HINT_READ {
            Ok((a2, 0))
        } else {
            Ok((0xffff_ffff, MIPS_EBADF))
        }
    }

    /// `write`: see `write_spec`.
    #[verifier::rlimit(60)]
    fn sys_write(&mut self, a0: u32, a1: u32, a2: u32) -> (r: Result<(u32, u32), StepError>)
        ensures
            match write_spec(old(self)@, a0, a1, a2) {
                Ok(done) => {
                    &&& r == Ok::<(u32, u32), StepError>((done.v0, done.v1))
                    &&& final(self)@ == done.engine
                    &&& final(self).mem_proof@ == Self::proof_after(
                        old(self),
                        if a0 == FD_PREIMAGE_WRITE {
                            Some(word_addr(a1))
                        } else {
                            None
                        },
                    )
                },
                Err(e) => r == Err::<(u32, u32), StepError>(e) && *final(self) == *old(self),
            },
            final(self).preimage_oracle == old(self).preimage_oracle,
    {
        if a0 == FD_STDOUT {
            let mut bytes: Vec<u8> = read_memory_range(&self.state.memory, a1, a2);
            self.stdout.append(&mut bytes);
            Ok((a2, 0))
        } else if a0 == FD_STDERR {
            let mut bytes: Vec<u8> = read_memory_range(&self.state.memory, a1, a2);
            self.stderr.append(&mut bytes);
            Ok((a2, 0))
        } else if a0 == FD_HINT_WRITE {
            self.hint_write(a1, a2);
            Ok((0, 0))
        } else if a0 == FD_PREIMAGE_WRITE {
            match self.preimage_write(a1, a2) {
                Ok(count) => Ok((count, 0)),
                Err(e) => Err(e),
            }
        } else {
            Ok((0xffff_ffff, MIPS_EBADF))
        }
    }

    /// The preimage read: see `preimage_read_spec`.
    #[verifier::rlimit(60)]
    fn preimage_read(&mut self, a1: u32, a2: u32) -> (r: Result<u32, StepError>)
        ensures
            match preimage_read_spec(old(self)@, a1, a2, final(self)@.last_preimage) {
                Ok(done) => {
                    &&& r == Ok::<u32, StepError>(done.v0)
                    &&& done.v1 == 0
                    &&& final(self)@ == done.engine
                    &&& final(self).mem_proof@ == Self::proof_after(
                        old(self),
                        Some(word_addr(a1)),
                    )
                },
                Err(e) => r == Err::<u32, StepError>(e) && *final(self) == *old(self),
            },
            final(self).preimage_oracle == old(self).preimage_oracle,
            r is Ok && old(self)@.last_preimage_key != Some(old(self)@.state.preimage_key)
                ==> is_framed(final(self)@.last_preimage),
    {
        let addr: u32 = a1 - a1 % 4;
        match self.track_memory_access(addr) {
            Ok(()) => {},
            Err(e) => {
                return Err(e);
            },
        }
        let mem: u32 = self.state.memory.get_memory(addr);
        let key: [u8; 32] = self.state.preimage_key;
        let offset: u32 = self.state.preimage_offset;
        let (data, found) = self.read_preimage(key, offset);
        let (word, count) = merge_word(mem, a1, &data, found, a2);
        self.state.memory.set_memory(addr, word);
        self.state.preimage_offset = offset.wrapping_add(count);
        Ok(count)
    }

    /// The preimage key write: see `preimage_write_spec`.
    #[verifier::rlimit(60)]
    fn preimage_write(&mut self, a1: u32, a2: u32) -> (r: Result<u32, StepError>)
        ensures
            match preimage_write_spec(old(self)@, a1, a2) {
                Ok(done) => {
                    &&& r == Ok::<u32, StepError>(done.v0)
                    &&& done.v1 == 0
                    &&& final(self)@ == done.engine
                    &&& final(self).mem_proof@ == Self::proof_after(
                        old(self),
                        Some(word_addr(a1)),
                    )
                },
                Err(e) => r == Err::<u32, StepError>(e) && *final(self) == *old(self),
            },
            final(self).preimage_oracle == old(self).preimage_oracle,
    {
        let addr: u32 = a1 - a1 % 4;
        match self.track_memory_access(addr) {
            Ok(()) => {},
            Err(e) => {
                return Err(e);
            },
        }
        let mem: u32 = self.state.memory.get_memory(addr);
        let (key, count) = shift_key(&self.state.preimage_key, mem, a1, a2);
        self.state.preimage_key = key;
        self.state.preimage_offset = 0;
        Ok(count)
    }

    /// The hint write: the bytes join the hint buffer, and every record
    /// that is now whole goes to the oracle.
    #[verifier::rlimit(60)]
    fn hint_write(&mut self, a1: u32, a2: u32)
        ensures
            final(self)@ == (EngineView {
                state: MachineView {
                    last_hint: hint_residue(
                        old(self)@.state.last_hint + range_bytes(
                            old(self)@.state.memory,
                            a1,
                            a2 as nat,
                        ),
                    ),
                    ..old(self)@.state
                },
                ..old(self)@
            }),
            final(self).keeps_collaborators(old(self)),
    {
        let mut bytes: Vec<u8> = read_memory_range(&self.state.memory, a1, a2);
        self.state.last_hint.append(&mut bytes);
        let hints: Vec<Vec<u8>> = extract_hints(&mut self.state.last_hint);
        let mut i: usize = 0;
        while i < hints.len()
            invariant
                i <= hints.len(),
            decreases hints.len() - i,
        {
            self.preimage_oracle.hint(hints[i].as_slice());
            i = i + 1;
        }
    }
}

} // verus!
