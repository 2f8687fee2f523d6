use std::cell::{Cell, RefCell};
use zkmips::memory::{read_memory_range, Memory, SparseMemory};
use zkmips::preimage::{extract_hints, frame_preimage, preimage_chunk, PreimageOracle};
use zkmips::state::{InstrumentedState, State, StepError};
use zkmips::syscall::{fcntl, merge_word, same_key, shift_key, transfer_count};

struct Recorder {
    hints: RefCell<Vec<Vec<u8>>>,
    lookups: Cell<u32>,
    preimage: Vec<u8>,
}

impl PreimageOracle for Recorder {
    fn hint(&self, v: &[u8]) {
        self.hints.borrow_mut().push(v.to_vec());
    }

    fn get_preimage(&self, _k: [u8; 32]) -> Vec<u8> {
        self.lookups.set(self.lookups.get() + 1);
        self.preimage.clone()
    }
}

fn engine_with(preimage: &[u8], proofs: bool) -> InstrumentedState<SparseMemory, Recorder> {
    let oracle =
        Recorder { hints: RefCell::new(Vec::new()), lookups: Cell::new(0), preimage: preimage.to_vec() };
    InstrumentedState::new(State::new(SparseMemory::new(), 0x1000, 0x2000_0000), oracle, proofs)
}

fn engine() -> InstrumentedState<SparseMemory, Recorder> {
    engine_with(b"hello world", false)
}

fn call(e: &mut InstrumentedState<SparseMemory, Recorder>, num: u32, a0: u32, a1: u32, a2: u32) -> Result<(), StepError> {
    e.state.registers[2] = num;
    e.state.registers[4] = a0;
    e.state.registers[5] = a1;
    e.state.registers[6] = a2;
    e.handle_syscall()
}

fn store_bytes(e: &mut InstrumentedState<SparseMemory, Recorder>, addr: u32, bytes: &[u8]) {
    let mut padded = bytes.to_vec();
    while padded.len() % 4 != 0 {
        padded.push(0);
    }
    for (i, word) in padded.chunks(4).enumerate() {
        let value = u32::from_be_bytes([word[0], word[1], word[2], word[3]]);
        e.state.memory.set_memory(addr + 4 * i as u32, value);
    }
}

#[test]
fn mmap_from_the_heap_returns_the_old_heap_and_bumps_it() {
    let mut e = engine();
    assert_eq!(call(&mut e, 4090, 0, 0x1001, 0), Ok(()));
    assert_eq!(e.state.registers[2], 0x2000_0000);
    assert_eq!(e.state.registers[7], 0);
    assert_eq!(e.state.heap, 0x2000_2000);
    assert_eq!(e.state.pc, 0x1004);
    assert_eq!(e.state.next_pc, 0x1008);
}

#[test]
fn mmap_of_whole_pages_is_not_rounded() {
    let mut e = engine();
    assert_eq!(call(&mut e, 4090, 0, 0x3000, 0), Ok(()));
    assert_eq!(e.state.registers[2], 0x2000_0000);
    assert_eq!(e.state.heap, 0x2000_3000);
    assert_eq!(call(&mut e, 4090, 0, 1, 0), Ok(()));
    assert_eq!(e.state.registers[2], 0x2000_3000);
    assert_eq!(e.state.heap, 0x2000_4000);
    assert_eq!(call(&mut e, 4090, 0, 0, 0), Ok(()));
    assert_eq!(e.state.registers[2], 0x2000_4000);
    assert_eq!(e.state.heap, 0x2000_4000);
}

#[test]
fn mmap_at_a_hint_returns_the_hint_and_keeps_the_heap() {
    let mut e = engine();
    assert_eq!(call(&mut e, 4090, 0x3000_0000, 0x1001, 0), Ok(()));
    assert_eq!(e.state.registers[2], 0x3000_0000);
    assert_eq!(e.state.heap, 0x2000_0000);
}

#[test]
fn mmap_wraps_the_heap_at_the_top_of_the_address_space() {
    let mut e = engine();
    e.state.heap = 0xffff_f000;
    assert_eq!(call(&mut e, 4090, 0, 0x2000, 0), Ok(()));
    assert_eq!(e.state.registers[2], 0xffff_f000);
    assert_eq!(e.state.heap, 0x0000_1000);
}

#[test]
fn brk_and_clone_return_constants() {
    let mut e = engine();
    assert_eq!(call(&mut e, 4045, 1, 2, 3), Ok(()));
    assert_eq!(e.state.registers[2], 0x4000_0000);
    assert_eq!(e.state.registers[7], 0);
    assert_eq!(call(&mut e, 4120, 1, 2, 3), Ok(()));
    assert_eq!(e.state.registers[2], 1);
    assert_eq!(e.state.registers[7], 0);
    assert_eq!(e.state.pc, 0x1008);
}

#[test]
fn exit_group_halts_with_the_low_byte_of_the_status() {
    let mut e = engine();
    assert_eq!(call(&mut e, 4246, 42, 0, 0), Ok(()));
    assert!(e.state.exited);
    assert_eq!(e.state.exit_code, 42);
    assert_eq!(e.state.registers[2], 4246);
    assert_eq!(e.state.pc, 0x1000);
    assert_eq!(e.state.next_pc, 0x1004);
    let mut e = engine();
    assert_eq!(call(&mut e, 4246, 0x1ff, 0, 0), Ok(()));
    assert_eq!(e.state.exit_code, 0xff);
}

#[test]
fn unknown_calls_return_zero_and_move_on() {
    let mut e = engine();
    e.state.registers[7] = 5;
    assert_eq!(call(&mut e, 9999, 1, 2, 3), Ok(()));
    assert_eq!(e.state.registers[2], 0);
    assert_eq!(e.state.registers[7], 0);
    assert_eq!(e.state.pc, 0x1004);
}

#[test]
fn read_from_standard_input_reads_nothing() {
    let mut e = engine();
    assert_eq!(call(&mut e, 4003, 0, 0x3000, 8), Ok(()));
    assert_eq!(e.state.registers[2], 0);
    assert_eq!(e.state.registers[7], 0);
}

#[test]
fn read_from_the_hint_descriptor_claims_the_whole_count() {
    let mut e = engine();
    assert_eq!(call(&mut e, 4003, 3, 0x3000, 8), Ok(()));
    assert_eq!(e.state.registers[2], 8);
    assert_eq!(e.state.registers[7], 0);
    assert_eq!(e.state.memory.get_memory(0x3000), 0);
}

#[test]
fn read_and_write_on_other_descriptors_fail_with_ebadf() {
    let mut e = engine();
    assert_eq!(call(&mut e, 4003, 7, 0x3000, 8), Ok(()));
    assert_eq!(e.state.registers[2], 0xffff_ffff);
    assert_eq!(e.state.registers[7], 9);
    assert_eq!(call(&mut e, 4004, 0, 0x3000, 8), Ok(()));
    assert_eq!(e.state.registers[2], 0xffff_ffff);
    assert_eq!(e.state.registers[7], 9);
    assert_eq!(call(&mut e, 4003, 1, 0x3000, 8), Ok(()));
    assert_eq!(e.state.registers[2], 0xffff_ffff);
    assert_eq!(e.state.registers[7], 9);
}

#[test]
fn write_to_standard_output_streams_the_bytes() {
    let mut e = engine();
    store_bytes(&mut e, 0x3000, b"ABCDEFGH");
    assert_eq!(call(&mut e, 4004, 1, 0x3001, 5), Ok(()));
    assert_eq!(e.state.registers[2], 5);
    assert_eq!(e.state.registers[7], 0);
    assert_eq!(e.stdout, b"BCDEF".to_vec());
    assert_eq!(call(&mut e, 4004, 1, 0x3000, 2), Ok(()));
    assert_eq!(e.stdout, b"BCDEFAB".to_vec());
    assert_eq!(e.take_stdout(), b"BCDEFAB".to_vec());
    assert!(e.stdout.is_empty());
    assert!(e.stderr.is_empty());
}

#[test]
fn write_to_standard_error_streams_the_bytes() {
    let mut e = engine();
    store_bytes(&mut e, 0x3000, b"oops");
    assert_eq!(call(&mut e, 4004, 2, 0x3000, 4), Ok(()));
    assert_eq!(e.state.registers[2], 4);
    assert_eq!(e.stderr, b"oops".to_vec());
    assert!(e.stdout.is_empty());
    assert_eq!(e.take_stderr(), b"oops".to_vec());
    assert!(e.stderr.is_empty());
}

#[test]
fn two_hint_records_reach_the_oracle() {
    let mut e = engine();
    store_bytes(&mut e, 0x3000, &[0, 0, 0, 3, b'a', b'b', b'c']);
    store_bytes(&mut e, 0x4000, &[0, 0, 0, 2, b'd', b'e']);
    assert_eq!(call(&mut e, 4004, 4, 0x3000, 7), Ok(()));
    assert_eq!(call(&mut e, 4004, 4, 0x4000, 6), Ok(()));
    assert_eq!(*e.preimage_oracle.hints.borrow(), vec![b"abc".to_vec(), b"de".to_vec()]);
    assert!(e.state.last_hint.is_empty());
    assert_eq!(e.state.registers[2], 0);
    assert_eq!(e.state.registers[7], 0);
}

#[test]
fn an_unfinished_hint_record_waits_for_its_rest() {
    let mut e = engine();
    store_bytes(&mut e, 0x3000, &[0, 0, 0, 3, b'a', b'b', b'c', 0, 0, 0, 1]);
    assert_eq!(call(&mut e, 4004, 4, 0x3000, 5), Ok(()));
    assert!(e.preimage_oracle.hints.borrow().is_empty());
    assert_eq!(e.state.last_hint, vec![0, 0, 0, 3, b'a']);
    assert_eq!(call(&mut e, 4004, 4, 0x3005, 6), Ok(()));
    assert_eq!(*e.preimage_oracle.hints.borrow(), vec![b"abc".to_vec()]);
    assert_eq!(e.state.last_hint, vec![0, 0, 0, 1]);
}

#[test]
fn several_hint_records_in_one_write() {
    let mut e = engine();
    store_bytes(&mut e, 0x3000, &[0, 0, 0, 1, b'x', 0, 0, 0, 0, 0, 0, 0, 2, b'y', b'z', 0, 0]);
    assert_eq!(call(&mut e, 4004, 4, 0x3000, 17), Ok(()));
    assert_eq!(
        *e.preimage_oracle.hints.borrow(),
        vec![b"x".to_vec(), Vec::new(), b"yz".to_vec()]
    );
    assert_eq!(e.state.last_hint, vec![0, 0]);
}

#[test]
fn extract_hints_splits_records_and_keeps_the_rest() {
    let mut buf = vec![0, 0, 0, 2, 1, 2, 0, 0, 0, 0, 0, 0, 1, 0];
    assert_eq!(extract_hints(&mut buf), vec![vec![1, 2], vec![]]);
    assert_eq!(buf, vec![0, 0, 1, 0]);
    let mut buf = vec![0, 0, 0];
    assert!(extract_hints(&mut buf).is_empty());
    assert_eq!(buf, vec![0, 0, 0]);
    let mut buf = vec![0xff, 0xff, 0xff, 0xff, 1, 2, 3];
    assert!(extract_hints(&mut buf).is_empty());
    assert_eq!(buf.len(), 7);
    let mut buf: Vec<u8> = Vec::new();
    assert!(extract_hints(&mut buf).is_empty());
    assert!(buf.is_empty());
}

#[test]
fn preimage_key_takes_a_whole_word() {
    let mut e = engine();
    e.state.preimage_offset = 9;
    e.state.memory.set_memory(0x3000, 0x1122_3344);
    assert_eq!(call(&mut e, 4004, 6, 0x3000, 4), Ok(()));
    assert_eq!(e.state.registers[2], 4);
    assert_eq!(e.state.registers[7], 0);
    let mut key = [0u8; 32];
    key[28..].copy_from_slice(&[0x11, 0x22, 0x33, 0x44]);
    assert_eq!(e.state.preimage_key, key);
    assert_eq!(e.state.preimage_offset, 0);
}

#[test]
fn preimage_key_takes_no_more_than_the_rest_of_the_word() {
    let mut e = engine();
    e.state.preimage_key = [7u8; 32];
    e.state.memory.set_memory(0x3000, 0x1122_3344);
    assert_eq!(call(&mut e, 4004, 6, 0x3001, 4), Ok(()));
    assert_eq!(e.state.registers[2], 3);
    let mut key = [7u8; 32];
    key[29..].copy_from_slice(&[0x22, 0x33, 0x44]);
    assert_eq!(e.state.preimage_key, key);
    assert_eq!(call(&mut e, 4004, 6, 0x3000, 2), Ok(()));
    assert_eq!(e.state.registers[2], 2);
    let mut key = [7u8; 32];
    key[27..].copy_from_slice(&[0x22, 0x33, 0x44, 0x11, 0x22]);
    assert_eq!(e.state.preimage_key, key);
    assert_eq!(call(&mut e, 4004, 6, 0x3000, 0), Ok(()));
    assert_eq!(e.state.registers[2], 0);
    assert_eq!(e.state.preimage_key, key);
}

#[test]
fn a_key_written_in_eight_words_replaces_the_old_key() {
    let mut e = engine();
    e.state.preimage_key = [9u8; 32];
    for i in 0..8u32 {
        e.state.memory.set_memory(0x3000 + 4 * i, 0x0101_0101 * (i + 1));
        assert_eq!(call(&mut e, 4004, 6, 0x3000 + 4 * i, 4), Ok(()));
    }
    let mut key = [0u8; 32];
    for (i, byte) in key.iter_mut().enumerate() {
        *byte = (i / 4 + 1) as u8;
    }
    assert_eq!(e.state.preimage_key, key);
}

#[test]
fn preimage_read_starts_with_the_length_prefix() {
    let mut e = engine();
    assert_eq!(call(&mut e, 4003, 5, 0x3000, 4), Ok(()));
    assert_eq!(e.state.registers[2], 4);
    assert_eq!(e.state.registers[7], 0);
    assert_eq!(e.state.memory.get_memory(0x3000), 11);
    assert_eq!(e.state.preimage_offset, 4);
    assert_eq!(call(&mut e, 4003, 5, 0x3004, 4), Ok(()));
    assert_eq!(e.state.memory.get_memory(0x3004), u32::from_be_bytes(*b"hell"));
    assert_eq!(e.state.preimage_offset, 8);
    assert_eq!(e.preimage_oracle.lookups.get(), 1);
}

#[test]
fn preimage_read_fills_only_the_rest_of_the_word() {
    let mut e = engine();
    e.state.preimage_offset = 4;
    e.state.memory.set_memory(0x3000, 0xaabb_ccdd);
    assert_eq!(call(&mut e, 4003, 5, 0x3002, 4), Ok(()));
    assert_eq!(e.state.registers[2], 2);
    assert_eq!(e.state.memory.get_memory(0x3000), 0xaabb_6865);
    assert_eq!(e.state.preimage_offset, 6);
}

#[test]
fn preimage_read_stops_at_the_requested_count() {
    let mut e = engine();
    e.state.preimage_offset = 4;
    e.state.memory.set_memory(0x3000, 0xaabb_ccdd);
    assert_eq!(call(&mut e, 4003, 5, 0x3001, 1), Ok(()));
    assert_eq!(e.state.registers[2], 1);
    assert_eq!(e.state.memory.get_memory(0x3000), 0xaa68_ccdd);
    assert_eq!(e.state.preimage_offset, 5);
    assert_eq!(call(&mut e, 4003, 5, 0x3000, 0), Ok(()));
    assert_eq!(e.state.registers[2], 0);
    assert_eq!(e.state.memory.get_memory(0x3000), 0xaa68_ccdd);
    assert_eq!(e.state.preimage_offset, 5);
}

#[test]
fn preimage_read_stops_at_the_end_of_the_preimage() {
    let mut e = engine();
    e.state.preimage_offset = 14;
    e.state.memory.set_memory(0x3000, 0xaabb_ccdd);
    assert_eq!(call(&mut e, 4003, 5, 0x3000, 4), Ok(()));
    assert_eq!(e.state.registers[2], 1);
    assert_eq!(e.state.memory.get_memory(0x3000), 0x64bb_ccdd);
    assert_eq!(e.state.preimage_offset, 15);
    assert_eq!(call(&mut e, 4003, 5, 0x3000, 4), Ok(()));
    assert_eq!(e.state.registers[2], 0);
    assert_eq!(e.state.memory.get_memory(0x3000), 0x64bb_ccdd);
    assert_eq!(e.state.preimage_offset, 15);
}

#[test]
fn reading_at_the_last_byte_finds_one_byte() {
    let mut e = engine();
    let key = [3u8; 32];
    let (data, count) = e.read_preimage(key, 14);
    assert_eq!(count, 1);
    assert_eq!(data[0], b'd');
    assert_eq!(data[1..], [0u8; 31]);
}

#[test]
fn reading_past_the_end_finds_nothing() {
    let mut e = engine();
    let key = [3u8; 32];
    assert_eq!(e.read_preimage(key, 15), ([0u8; 32], 0));
    assert_eq!(e.read_preimage(key, 16), ([0u8; 32], 0));
    assert_eq!(e.read_preimage(key, 0xffff_ffff), ([0u8; 32], 0));
}

#[test]
fn reading_from_the_start_finds_the_prefix_and_the_data() {
    let mut e = engine();
    let (data, count) = e.read_preimage([3u8; 32], 0);
    assert_eq!(count, 15);
    assert_eq!(&data[..15], b"\x00\x00\x00\x0bhello world");
    assert_eq!(data[15..], [0u8; 17]);
    assert_eq!(e.last_preimage_offset, 0);
    assert_eq!(e.last_preimage_key, Some([3u8; 32]));
}

#[test]
fn a_long_preimage_is_read_thirty_two_bytes_at_a_time() {
    let blob: Vec<u8> = (0..100u8).collect();
    let mut e = engine_with(&blob, false);
    let (data, count) = e.read_preimage([1u8; 32], 4);
    assert_eq!(count, 32);
    assert_eq!(data.to_vec(), (0..32u8).collect::<Vec<u8>>());
    let (data, count) = e.read_preimage([1u8; 32], 100);
    assert_eq!(count, 4);
    assert_eq!(data[..4], [96, 97, 98, 99]);
}

#[test]
fn the_oracle_is_asked_once_per_key() {
    let mut e = engine();
    e.read_preimage([1u8; 32], 0);
    e.read_preimage([1u8; 32], 4);
    assert_eq!(e.preimage_oracle.lookups.get(), 1);
    e.read_preimage([2u8; 32], 0);
    assert_eq!(e.preimage_oracle.lookups.get(), 2);
    e.read_preimage([0u8; 32], 0);
    assert_eq!(e.preimage_oracle.lookups.get(), 3);
}

#[test]
fn the_first_lookup_of_the_zero_key_asks_the_oracle() {
    let mut e = engine();
    let (_, count) = e.read_preimage([0u8; 32], 0);
    assert_eq!(count, 15);
    assert_eq!(e.preimage_oracle.lookups.get(), 1);
}

#[test]
fn framing_puts_the_length_in_front() {
    assert_eq!(frame_preimage(&vec![9, 8, 7]), vec![0, 0, 0, 3, 9, 8, 7]);
    assert_eq!(frame_preimage(&Vec::new()), vec![0, 0, 0, 0]);
    let long = vec![5u8; 0x0102];
    let framed = frame_preimage(&long);
    assert_eq!(framed[..4], [0, 0, 1, 2]);
    assert_eq!(framed.len(), 0x0106);
}

#[test]
fn chunk_of_a_buffer() {
    let buf: Vec<u8> = (1..=40u8).collect();
    let (data, count) = preimage_chunk(&buf, 0);
    assert_eq!(count, 32);
    assert_eq!(data.to_vec(), (1..=32u8).collect::<Vec<u8>>());
    let (data, count) = preimage_chunk(&buf, 39);
    assert_eq!(count, 1);
    assert_eq!(data[0], 40);
    assert_eq!(preimage_chunk(&buf, 40), ([0u8; 32], 0));
    assert_eq!(preimage_chunk(&Vec::new(), 0), ([0u8; 32], 0));
}

#[test]
fn transfer_count_is_the_least_of_the_three_bounds() {
    assert_eq!(transfer_count(0x1000, 32, 4), 4);
    assert_eq!(transfer_count(0x1000, 32, 9), 4);
    assert_eq!(transfer_count(0x1001, 32, 9), 3);
    assert_eq!(transfer_count(0x1003, 32, 9), 1);
    assert_eq!(transfer_count(0x1000, 1, 9), 1);
    assert_eq!(transfer_count(0x1000, 0, 9), 0);
    assert_eq!(transfer_count(0x1000, 32, 0), 0);
    assert_eq!(transfer_count(0x1002, 32, 1), 1);
}

#[test]
fn merge_word_overwrites_the_addressed_bytes() {
    let mut data = [0u8; 32];
    data[..4].copy_from_slice(&[1, 2, 3, 4]);
    assert_eq!(merge_word(0xaabb_ccdd, 0x1000, &data, 32, 4), (0x0102_0304, 4));
    assert_eq!(merge_word(0xaabb_ccdd, 0x1000, &data, 32, 2), (0x0102_ccdd, 2));
    assert_eq!(merge_word(0xaabb_ccdd, 0x1000, &data, 2, 4), (0x0102_ccdd, 2));
    assert_eq!(merge_word(0xaabb_ccdd, 0x1001, &data, 32, 2), (0xaa01_02dd, 2));
    assert_eq!(merge_word(0xaabb_ccdd, 0x1003, &data, 32, 9), (0xaabb_cc01, 1));
    assert_eq!(merge_word(0xaabb_ccdd, 0x1002, &data, 0, 9), (0xaabb_ccdd, 0));
    assert_eq!(merge_word(0xaabb_ccdd, 0x1002, &data, 32, 0), (0xaabb_ccdd, 0));
}

#[test]
fn shift_key_moves_the_key_left() {
    let mut key = [0u8; 32];
    for (i, byte) in key.iter_mut().enumerate() {
        *byte = i as u8;
    }
    let (shifted, count) = shift_key(&key, 0xa1a2_a3a4, 0x1001, 2);
    assert_eq!(count, 2);
    assert_eq!(shifted[..30], key[2..]);
    assert_eq!(shifted[30..], [0xa2, 0xa3]);
    let (shifted, count) = shift_key(&key, 0xa1a2_a3a4, 0x1002, 9);
    assert_eq!(count, 2);
    assert_eq!(shifted[..30], key[2..]);
    assert_eq!(shifted[30..], [0xa3, 0xa4]);
    assert_eq!(shift_key(&key, 0xa1a2_a3a4, 0x1000, 0), (key, 0));
}

#[test]
fn same_key_compares_every_byte() {
    let a = [4u8; 32];
    let mut b = [4u8; 32];
    assert!(same_key(&a, &b));
    b[31] = 5;
    assert!(!same_key(&a, &b));
    b[31] = 4;
    b[0] = 0;
    assert!(!same_key(&a, &b));
}

#[test]
fn fcntl_reports_the_direction_of_a_descriptor() {
    let mut e = engine();
    for fd in [0u32, 3, 5] {
        assert_eq!(call(&mut e, 4055, fd, 3, 0), Ok(()));
        assert_eq!((e.state.registers[2], e.state.registers[7]), (0, 0));
    }
    for fd in [1u32, 2, 4, 6] {
        assert_eq!(call(&mut e, 4055, fd, 3, 0), Ok(()));
        assert_eq!((e.state.registers[2], e.state.registers[7]), (1, 0));
    }
    assert_eq!(call(&mut e, 4055, 7, 3, 0), Ok(()));
    assert_eq!((e.state.registers[2], e.state.registers[7]), (0xffff_ffff, 9));
}

#[test]
fn fcntl_serves_no_other_command() {
    let mut e = engine();
    assert_eq!(call(&mut e, 4055, 1, 4, 0), Ok(()));
    assert_eq!((e.state.registers[2], e.state.registers[7]), (0xffff_ffff, 9));
    assert_eq!(call(&mut e, 4055, 0, 0, 0), Ok(()));
    assert_eq!((e.state.registers[2], e.state.registers[7]), (0xffff_ffff, 9));
}

#[test]
fn two_different_addresses_in_one_step_are_refused() {
    let mut e = engine_with(b"", true);
    assert_eq!(e.track_memory_access(0x3000), Ok(()));
    assert_eq!(e.last_mem_access, Some(0x3000));
    assert_eq!(e.track_memory_access(0x3004), Err(StepError::MemoryAccessConflict));
    assert_eq!(e.last_mem_access, Some(0x3000));
}

#[test]
fn the_same_address_twice_in_one_step_is_accepted() {
    let mut e = engine_with(b"", true);
    assert_eq!(e.track_memory_access(0x3000), Ok(()));
    assert_eq!(e.track_memory_access(0x3000), Ok(()));
    assert_eq!(e.last_mem_access, Some(0x3000));
    assert_eq!(e.mem_proof, e.state.memory.merkle_proof(0x3000));
}

#[test]
fn without_proofs_any_address_is_accepted() {
    let mut e = engine_with(b"", false);
    assert_eq!(e.track_memory_access(0x3000), Ok(()));
    assert_eq!(e.track_memory_access(0x3004), Ok(()));
    assert_eq!(e.last_mem_access, Some(0x3004));
}

#[test]
fn a_preimage_call_at_a_second_address_is_refused() {
    let mut e = engine_with(b"abc", true);
    assert_eq!(e.track_memory_access(0x3000), Ok(()));
    assert_eq!(call(&mut e, 4003, 5, 0x4000, 4), Err(StepError::MemoryAccessConflict));
    assert_eq!(e.state.pc, 0x1000);
    assert_eq!(e.state.preimage_offset, 0);
    assert_eq!(e.preimage_oracle.lookups.get(), 0);
    assert_eq!(call(&mut e, 4004, 6, 0x4000, 4), Err(StepError::MemoryAccessConflict));
    assert_eq!(call(&mut e, 4003, 5, 0x3002, 4), Ok(()));
    assert_eq!(e.state.registers[2], 2);
}

#[test]
fn range_reads_are_big_endian_and_wrap() {
    let mut memory = SparseMemory::new();
    memory.set_memory(0xffff_fffc, 0x0102_0304);
    memory.set_memory(0, 0x0506_0708);
    assert_eq!(read_memory_range(&memory, 0xffff_fffe, 4), vec![3, 4, 5, 6]);
    assert_eq!(read_memory_range(&memory, 0, 0), Vec::<u8>::new());
    assert_eq!(read_memory_range(&memory, 4, 3), vec![0, 0, 0]);
}

#[test]
fn sparse_memory_reads_back_what_was_written() {
    let mut memory = SparseMemory::new();
    assert_eq!(memory.get_memory(0x1000), 0);
    memory.set_memory(0x1000, 7);
    memory.set_memory(0x1004, 8);
    memory.set_memory(0x1000, 9);
    assert_eq!(memory.get_memory(0x1000), 9);
    assert_eq!(memory.get_memory(0x1004), 8);
    assert_eq!(memory.get_memory(0x1008), 0);
    assert_eq!(memory.merkle_proof(0x1000), [0u8; 896]);
}

#[test]
fn fcntl_values() {
    assert_eq!(fcntl(0, 3), (0, 0));
    assert_eq!(fcntl(4, 3), (1, 0));
    assert_eq!(fcntl(7, 3), (0xffff_ffff, 9));
    assert_eq!(fcntl(1, 1), (0xffff_ffff, 9));
}
