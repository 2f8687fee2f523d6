use zkmips::memory::SparseMemory;
use zkmips::preimage::PreimageOracle;
use zkmips::state::{InstrumentedState, State, StepError};

struct NoOracle;

impl PreimageOracle for NoOracle {
    fn hint(&self, _v: &[u8]) {}

    fn get_preimage(&self, _k: [u8; 32]) -> Vec<u8> {
        Vec::new()
    }
}

fn engine_at(pc: u32) -> InstrumentedState<SparseMemory, NoOracle> {
    InstrumentedState::new(State::new(SparseMemory::new(), pc, 0), NoOracle, false)
}

fn regimm(rt_field: u32, imm: u32) -> u32 {
    (1 << 26) | (rt_field << 16) | (imm & 0xffff)
}

#[test]
fn taken_branch_goes_to_the_target_after_the_delay_slot() {
    let mut e = engine_at(0x1000);
    e.state.registers[9] = 5;
    assert_eq!(e.handle_branch(4, (4 << 26) | 3, 9, 5), Ok(()));
    assert_eq!(e.state.pc, 0x1004);
    assert_eq!(e.state.next_pc, 0x1010);
}

#[test]
fn branch_not_taken_goes_on_after_the_delay_slot() {
    let mut e = engine_at(0x1000);
    e.state.registers[9] = 5;
    assert_eq!(e.handle_branch(4, (4 << 26) | 3, 9, 6), Ok(()));
    assert_eq!(e.state.pc, 0x1004);
    assert_eq!(e.state.next_pc, 0x1008);
}

#[test]
fn branch_with_a_negative_offset_goes_back() {
    let mut e = engine_at(0x1000);
    assert_eq!(e.handle_branch(5, (5 << 26) | 0xfffe, 0, 1), Ok(()));
    assert_eq!(e.state.pc, 0x1004);
    assert_eq!(e.state.next_pc, 0x0ffc);
}

#[test]
fn bne_is_taken_on_different_values() {
    let mut e = engine_at(0x1000);
    e.state.registers[3] = 7;
    assert_eq!(e.handle_branch(5, (5 << 26) | 1, 3, 7), Ok(()));
    assert_eq!(e.state.next_pc, 0x1008);
    let mut e = engine_at(0x1000);
    e.state.registers[3] = 7;
    assert_eq!(e.handle_branch(5, (5 << 26) | 4, 3, 8), Ok(()));
    assert_eq!(e.state.next_pc, 0x1014);
}

#[test]
fn blez_and_bgtz_read_rs_as_signed() {
    for (rs, taken) in [(0u32, true), (0x8000_0000, true), (0xffff_ffff, true), (1, false)] {
        let mut e = engine_at(0x2000);
        assert_eq!(e.handle_branch(6, (6 << 26) | 2, 0, rs), Ok(()));
        assert_eq!(e.state.next_pc, if taken { 0x200c } else { 0x2008 });
        let mut e = engine_at(0x2000);
        assert_eq!(e.handle_branch(7, (7 << 26) | 2, 0, rs), Ok(()));
        assert_eq!(e.state.next_pc, if taken { 0x2008 } else { 0x200c });
    }
}

#[test]
fn bltz_and_bgez_are_selected_by_the_rt_field() {
    for (rs, negative) in [(0u32, false), (0x8000_0000, true), (0x7fff_ffff, false)] {
        let mut e = engine_at(0x2000);
        assert_eq!(e.handle_branch(1, regimm(0, 2), 0, rs), Ok(()));
        assert_eq!(e.state.next_pc, if negative { 0x200c } else { 0x2008 });
        let mut e = engine_at(0x2000);
        assert_eq!(e.handle_branch(1, regimm(1, 2), 1, rs), Ok(()));
        assert_eq!(e.state.next_pc, if negative { 0x2008 } else { 0x200c });
    }
}

#[test]
fn other_register_immediate_branches_are_errors() {
    let mut e = engine_at(0x2000);
    assert_eq!(e.handle_branch(1, regimm(2, 2), 2, 0), Err(StepError::InvalidBranch));
    assert_eq!(e.handle_branch(1, regimm(17, 2), 17, 0), Err(StepError::InvalidBranch));
    assert_eq!(e.state.pc, 0x2000);
    assert_eq!(e.state.next_pc, 0x2004);
}

#[test]
fn other_opcodes_are_no_branches() {
    let mut e = engine_at(0x2000);
    assert_eq!(e.handle_branch(9, 9 << 26, 0, 0), Err(StepError::InvalidBranch));
    assert_eq!(e.handle_branch(0, 0, 0, 0), Err(StepError::InvalidBranch));
    assert_eq!(e.state.pc, 0x2000);
}

#[test]
fn beq_with_a_register_out_of_range_is_an_error() {
    let mut e = engine_at(0x2000);
    assert_eq!(e.handle_branch(4, 4 << 26, 32, 0), Err(StepError::InvalidRegister));
    assert_eq!(e.state.pc, 0x2000);
}

#[test]
fn jump_links_behind_the_delay_slot() {
    let mut e = engine_at(0x1000);
    assert_eq!(e.handle_jump(31, 0x2000), Ok(()));
    assert_eq!(e.state.pc, 0x1004);
    assert_eq!(e.state.next_pc, 0x2000);
    assert_eq!(e.state.registers[31], 0x1008);
}

#[test]
fn jump_without_link_writes_no_register() {
    let mut e = engine_at(0x1000);
    assert_eq!(e.handle_jump(0, 0x2000), Ok(()));
    assert_eq!(e.state.pc, 0x1004);
    assert_eq!(e.state.next_pc, 0x2000);
    assert_eq!(e.state.registers, [0u32; 32]);
}

#[test]
fn jump_with_a_link_register_out_of_range_is_an_error() {
    let mut e = engine_at(0x1000);
    assert_eq!(e.handle_jump(32, 0x2000), Err(StepError::InvalidRegister));
    assert_eq!(e.state.pc, 0x1000);
    assert_eq!(e.state.next_pc, 0x1004);
}

#[test]
fn div_of_seven_by_two() {
    let mut e = engine_at(0);
    assert_eq!(e.handle_hilo(0x1a, 7, 2, 0), Ok(()));
    assert_eq!(e.state.lo, 3);
    assert_eq!(e.state.hi, 1);
    assert_eq!(e.state.pc, 4);
    assert_eq!(e.state.next_pc, 8);
}

#[test]
fn div_rounds_towards_zero() {
    let mut e = engine_at(0);
    assert_eq!(e.handle_hilo(0x1a, 0xffff_fff9, 2, 0), Ok(()));
    assert_eq!(e.state.lo, 0xffff_fffd);
    assert_eq!(e.state.hi, 0xffff_ffff);
    assert_eq!(e.handle_hilo(0x1a, 7, 0xffff_fffe, 0), Ok(()));
    assert_eq!(e.state.lo, 0xffff_fffd);
    assert_eq!(e.state.hi, 1);
    assert_eq!(e.handle_hilo(0x1a, 0xffff_fff9, 0xffff_fffe, 0), Ok(()));
    assert_eq!(e.state.lo, 3);
    assert_eq!(e.state.hi, 0xffff_ffff);
    assert_eq!(e.handle_hilo(0x1a, 0x8000_0000, 1, 0), Ok(()));
    assert_eq!(e.state.lo, 0x8000_0000);
    assert_eq!(e.state.hi, 0);
}

#[test]
fn divu_of_all_ones_by_two() {
    let mut e = engine_at(0);
    assert_eq!(e.handle_hilo(0x1b, 0xffff_ffff, 2, 0), Ok(()));
    assert_eq!(e.state.lo, 0x7fff_ffff);
    assert_eq!(e.state.hi, 1);
}

#[test]
fn mult_of_minus_one_by_minus_one() {
    let mut e = engine_at(0);
    assert_eq!(e.handle_hilo(0x18, 0xffff_ffff, 0xffff_ffff, 0), Ok(()));
    assert_eq!(e.state.hi, 0);
    assert_eq!(e.state.lo, 1);
}

#[test]
fn mult_is_signed_and_multu_is_not() {
    let mut e = engine_at(0);
    assert_eq!(e.handle_hilo(0x18, 0xffff_ffff, 2, 0), Ok(()));
    assert_eq!(e.state.hi, 0xffff_ffff);
    assert_eq!(e.state.lo, 0xffff_fffe);
    assert_eq!(e.handle_hilo(0x19, 0xffff_ffff, 2, 0), Ok(()));
    assert_eq!(e.state.hi, 1);
    assert_eq!(e.state.lo, 0xffff_fffe);
    assert_eq!(e.handle_hilo(0x19, 0xffff_ffff, 0xffff_ffff, 0), Ok(()));
    assert_eq!(e.state.hi, 0xffff_fffe);
    assert_eq!(e.state.lo, 1);
    assert_eq!(e.handle_hilo(0x18, 0x8000_0000, 0x8000_0000, 0), Ok(()));
    assert_eq!(e.state.hi, 0x4000_0000);
    assert_eq!(e.state.lo, 0);
    assert_eq!(e.handle_hilo(0x18, 0x8000_0000, 0x7fff_ffff, 0), Ok(()));
    assert_eq!(e.state.hi, 0xc000_0000);
    assert_eq!(e.state.lo, 0x8000_0000);
}

#[test]
fn moves_from_and_to_hi_and_lo() {
    let mut e = engine_at(0);
    assert_eq!(e.handle_hilo(0x11, 0x1234, 0, 0), Ok(()));
    assert_eq!(e.handle_hilo(0x13, 0x5678, 0, 0), Ok(()));
    assert_eq!(e.state.hi, 0x1234);
    assert_eq!(e.state.lo, 0x5678);
    assert_eq!(e.handle_hilo(0x10, 0, 0, 8), Ok(()));
    assert_eq!(e.handle_hilo(0x12, 0, 0, 9), Ok(()));
    assert_eq!(e.state.registers[8], 0x1234);
    assert_eq!(e.state.registers[9], 0x5678);
    assert_eq!(e.state.pc, 16);
    assert_eq!(e.state.next_pc, 20);
}

#[test]
fn multiply_with_a_destination_clears_it() {
    let mut e = engine_at(0);
    e.state.registers[8] = 77;
    assert_eq!(e.handle_hilo(0x19, 3, 4, 8), Ok(()));
    assert_eq!(e.state.lo, 12);
    assert_eq!(e.state.registers[8], 0);
}

#[test]
fn division_by_zero_is_an_error() {
    let mut e = engine_at(0);
    e.state.hi = 5;
    e.state.lo = 6;
    assert_eq!(e.handle_hilo(0x1a, 7, 0, 0), Err(StepError::DivisionByZero));
    assert_eq!(e.handle_hilo(0x1b, 7, 0, 0), Err(StepError::DivisionByZero));
    assert_eq!((e.state.hi, e.state.lo, e.state.pc), (5, 6, 0));
}

#[test]
fn division_of_the_most_negative_word_by_minus_one_is_an_error() {
    let mut e = engine_at(0);
    assert_eq!(e.handle_hilo(0x1a, 0x8000_0000, 0xffff_ffff, 0), Err(StepError::DivisionOverflow));
    assert_eq!(e.state.pc, 0);
}

#[test]
fn other_function_codes_are_no_hilo_instructions() {
    let mut e = engine_at(0);
    assert_eq!(e.handle_hilo(0x14, 1, 1, 0), Err(StepError::InvalidHiLo));
    assert_eq!(e.handle_hilo(0x1c, 1, 1, 0), Err(StepError::InvalidHiLo));
    assert_eq!(e.handle_hilo(0x0f, 1, 1, 0), Err(StepError::InvalidHiLo));
    assert_eq!(e.state.pc, 0);
}

#[test]
fn hilo_with_a_register_out_of_range_is_an_error() {
    let mut e = engine_at(0);
    assert_eq!(e.handle_hilo(0x11, 9, 0, 32), Err(StepError::InvalidRegister));
    assert_eq!(e.state.hi, 0);
    assert_eq!(e.state.pc, 0);
}

#[test]
fn write_back_stores_and_moves_on() {
    let mut e = engine_at(0x100);
    assert_eq!(e.handle_rd(5, 9, true), Ok(()));
    assert_eq!(e.state.registers[5], 9);
    assert_eq!(e.state.pc, 0x104);
    assert_eq!(e.state.next_pc, 0x108);
}

#[test]
fn write_back_without_the_condition_only_moves_on() {
    let mut e = engine_at(0x100);
    assert_eq!(e.handle_rd(5, 9, false), Ok(()));
    assert_eq!(e.state.registers[5], 0);
    assert_eq!(e.state.pc, 0x104);
}

#[test]
fn write_back_never_touches_register_zero() {
    let mut e = engine_at(0x100);
    assert_eq!(e.handle_rd(0, 9, true), Ok(()));
    assert_eq!(e.state.registers[0], 0);
    assert_eq!(e.state.pc, 0x104);
}

#[test]
fn write_back_to_a_register_out_of_range_is_an_error() {
    let mut e = engine_at(0x100);
    assert_eq!(e.handle_rd(32, 9, true), Err(StepError::InvalidRegister));
    assert_eq!(e.handle_rd(0xffff_ffff, 9, false), Err(StepError::InvalidRegister));
    assert_eq!(e.state.pc, 0x100);
}

#[test]
fn program_counter_wraps_at_the_top_of_the_address_space() {
    let mut e = engine_at(0xffff_fff8);
    assert_eq!(e.state.next_pc, 0xffff_fffc);
    assert_eq!(e.handle_rd(0, 0, true), Ok(()));
    assert_eq!(e.state.pc, 0xffff_fffc);
    assert_eq!(e.state.next_pc, 0);
}
