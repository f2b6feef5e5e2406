use mvm::assembler::compile;
use mvm::ast::parse;
use mvm::fault::Fault;
use mvm::mem::Memory;
use mvm::mem::FAST_SIZE;
use mvm::mem::MAX_FRAME;
use mvm::ops::FloatFam;
use mvm::ops::Op;
use mvm::vm::RunOut;
use mvm::vm::Vm;

fn run_source(src: &str, fuel: u64) -> (Vm, RunOut) {
    let buf = compile(&parse(src).expect("parse failed")).expect("compile failed");
    let mut vm = Vm::boot(&buf);
    let out = vm.run(fuel);
    (vm, out)
}

#[test]
fn end_to_end_add_then_mod_exits_three() {
    let src = ".start\n    addb ._zero 10\n    modb ._zero 7\n    xit\n";
    let (_, out) = run_source(src, 100);
    assert_eq!(out, RunOut::Exited(3));
}

#[test]
fn byte_addition_wraps_modulo_256() {
    // 250 + 10 = 260, which an 8-bit destination holds as 4.
    let (_, out) = run_source("addb ._zero 250\naddb ._zero 10\nxit\n", 100);
    assert_eq!(out, RunOut::Exited(4));
}

#[test]
fn byte_subtraction_wraps_below_zero() {
    let (_, out) = run_source("subb ._zero 1\nandb ._zero 255\nxit\n", 100);
    assert_eq!(out, RunOut::Exited(255));
}

#[test]
fn call_returns_to_instruction_after_operand() {
    // cal jumps to .sub; ret must resume at the addb following cal's
    // operand, so both additions reach the exit cell.
    let src = "jmp .main\n.sub\naddb ._zero 7\nret\n.main\ncal .sub\naddb ._zero 1\nxit\n";
    let (_, out) = run_source(src, 100);
    assert_eq!(out, RunOut::Exited(8));
}

#[test]
fn conditional_jump_falls_through_on_zero() {
    // The test cell holds 0, so jit falls through to the addb.
    let src = "jit .skip &200\naddb ._zero 5\n.skip\nxit\n";
    let (_, out) = run_source(src, 100);
    assert_eq!(out, RunOut::Exited(5));
}

#[test]
fn conditional_jump_taken_on_nonzero() {
    let src = "cpyw &200 1\njit .skip &200\naddb ._zero 5\n.skip\nxit\n";
    let (_, out) = run_source(src, 100);
    assert_eq!(out, RunOut::Exited(0));
}

#[test]
fn copy_through_reads_behind_pointer() {
    // Cell 200 holds the address 208; cell 208 holds 9. cpab follows the
    // pointer once more than cpyb would.
    let src = "cpyw &200 208\ncpyb &208 9\ncpab ._zero &200\nxit\n";
    let (_, out) = run_source(src, 100);
    assert_eq!(out, RunOut::Exited(9));
}

#[test]
fn dereferencing_address_zero_is_a_fatal_fault() {
    let (_, out) = run_source("cpyb &0 5\nxit\n", 100);
    assert_eq!(out, RunOut::Faulted(Fault::NullAddress));
}

#[test]
fn division_by_zero_is_a_fatal_fault() {
    let (_, out) = run_source("divb ._zero 0\nxit\n", 100);
    assert_eq!(out, RunOut::Faulted(Fault::DivideByZero));
}

#[test]
fn reserved_opcode_is_a_fatal_fault() {
    let byte = Op::ASY.to_byte();
    let out = Vm::eval(&vec![0u8, byte], 10);
    assert_eq!(out, RunOut::Faulted(Fault::ReservedOpcode));
}

#[test]
fn unrecognized_opcode_byte_is_a_fatal_fault() {
    let out = Vm::eval(&vec![0u8, 200u8], 10);
    assert_eq!(out, RunOut::Faulted(Fault::UnknownOpcode));
}

#[test]
fn running_out_of_fuel_reports_it() {
    // An unconditional self-loop never exits.
    let (_, out) = run_source(".spin\njmp .spin\n", 50);
    assert_eq!(out, RunOut::OutOfFuel);
}

#[test]
fn opcode_table_round_trips() {
    for b in 0u8..=255u8 {
        match Op::from_byte(b) {
            Some(op) => assert_eq!(op.to_byte(), b),
            None => assert!(b > Op::EXT.to_byte()),
        }
    }
    assert_eq!(Op::from_byte(Op::CAL.to_byte()), Some(Op::CAL));
}

#[test]
fn page_allocation_reuses_the_freed_slot_first() {
    let mut m = Memory::new(&Vec::new());
    let a1 = m.alloc_page().unwrap();
    let a2 = m.alloc_page().unwrap();
    assert_ne!(a1, a2);
    m.free_page(a1).unwrap();
    let a3 = m.alloc_page().unwrap();
    assert_eq!(a3, a1);
}

#[test]
fn page_reuse_is_visible_through_the_instructions() {
    // alp stores the allocated page's address at the operand cell; after
    // frp frees it, the next alp must hand the same address back.
    let src = "alp &200\nfrp &200\nalp &208\nxit\n";
    let (vm, out) = run_source(src, 100);
    assert_eq!(out, RunOut::Exited(0));
    let first = vm.mem.get1(200).unwrap();
    let second = vm.mem.get1(208).unwrap();
    assert_eq!(first, second);
    assert_eq!(first, (MAX_FRAME as u64) + (FAST_SIZE as u64));
}

#[test]
fn freeing_an_unallocated_page_is_a_fatal_fault() {
    let mut m = Memory::new(&Vec::new());
    assert_eq!(
        m.free_page((MAX_FRAME as u64) + (FAST_SIZE as u64)),
        Err(Fault::FreeUnallocated)
    );
    let (_, out) = run_source("cpyw &200 32832\nfrp &200\nxit\n", 100);
    assert_eq!(out, RunOut::Faulted(Fault::FreeUnallocated));
}

#[test]
fn allocated_pages_are_readable_and_zeroed() {
    let mut m = Memory::new(&Vec::new());
    let a = m.alloc_page().unwrap();
    assert_eq!(m.read_u8(a), Ok(0));
    m.write_u64(a, 0xDEADBEEF).unwrap();
    assert_eq!(m.get1(a), Ok(0xDEADBEEF));
    m.free_page(a).unwrap();
    assert_eq!(m.read_u8(a), Err(Fault::Unmapped));
}

#[test]
fn memory_reads_back_what_was_written() {
    let mut m = Memory::new(&Vec::new());
    m.write_u8(100, 0xAB).unwrap();
    assert_eq!(m.read_u8(100), Ok(0xAB));
    m.write_u64(200, 0x0123456789ABCDEF).unwrap();
    assert_eq!(m.get1(200), Ok(0x0123456789ABCDEF));
    m.write_u64(208, 7).unwrap();
    assert_eq!(m.get2(200), Ok([0x0123456789ABCDEF, 7]));
}

#[test]
fn loaded_code_sits_one_past_the_reserved_cell() {
    let m = Memory::new(&vec![0x11, 0x22]);
    // Linear offset 0 is the reserved cell; the code bytes follow it.
    assert_eq!(m.read_u8(MAX_FRAME as u64), Ok(0));
    assert_eq!(m.read_u8(MAX_FRAME as u64 + 1), Ok(0x11));
    assert_eq!(m.read_u8(MAX_FRAME as u64 + 2), Ok(0x22));
}

#[test]
fn return_stack_pushes_then_pops_in_order() {
    let mut m = Memory::new(&Vec::new());
    m.push_addr(0xAAAA).unwrap();
    m.push_addr(0xBBBB).unwrap();
    assert_eq!(m.pop_addr(), Ok(0xBBBB));
    assert_eq!(m.pop_addr(), Ok(0xAAAA));
    assert_eq!(m.pop_addr(), Err(Fault::StackUnderflow));
}

#[test]
fn frame_relative_addresses_follow_the_stack_pointer() {
    let mut m = Memory::new(&Vec::new());
    m.write_u8(5, 77).unwrap();
    assert_eq!(m.read_u8(5), Ok(77));
    // Pushing moves the stack pointer, so the same frame-relative address
    // now reaches a different (still zeroed) cell.
    m.push_addr(1).unwrap();
    assert_eq!(m.read_u8(5), Ok(0));
}

#[test]
fn null_address_faults_at_the_memory_level() {
    let mut m = Memory::new(&Vec::new());
    assert_eq!(m.read_u8(0), Err(Fault::NullAddress));
    assert_eq!(m.write_u8(0, 1), Err(Fault::NullAddress));
    assert_eq!(m.get1(0), Err(Fault::NullAddress));
}

#[test]
fn access_past_the_page_table_is_unmapped() {
    let m = Memory::new(&Vec::new());
    assert_eq!(m.read_u8((MAX_FRAME + FAST_SIZE as u64) + 10), Err(Fault::Unmapped));
}

#[test]
fn float_addition_runs_through_the_request_loop() {
    let buf = compile(&parse("addf &100 &108\nxit\n").unwrap()).unwrap();
    let mut vm = Vm::boot(&buf);
    vm.mem.write_u32(100, 1.5f32.to_bits()).unwrap();
    vm.mem.write_u32(108, 2.25f32.to_bits()).unwrap();
    let out = vm.run(100);
    match out {
        RunOut::FloatReq(FloatFam::Add, dst, lhs, rhs) => {
            assert_eq!(dst, 100);
            let sum = f32::from_bits(lhs) + f32::from_bits(rhs);
            vm.mem.write_u32(dst, sum.to_bits()).unwrap();
        },
        other => panic!("expected a float request, got {:?}", other),
    }
    assert!(matches!(vm.run(100), RunOut::Exited(0)));
    assert_eq!(vm.mem.read_u32(100), Ok(3.75f32.to_bits()));
}

#[test]
fn word_addition_wraps_modulo_two_to_the_64() {
    let src = "cpyw &200 18446744073709551615\naddw &200 2\nxit\n";
    let (vm, out) = run_source(src, 100);
    assert_eq!(out, RunOut::Exited(0));
    assert_eq!(vm.mem.get1(200), Ok(1));
}

#[test]
fn pointer_source_reads_the_value_behind_the_address() {
    let (_, out) = run_source("cpyb &200 41\naddb ._zero &200\nxit\n", 100);
    assert_eq!(out, RunOut::Exited(41));
}

#[test]
fn byte_shift_left_drops_high_bits() {
    let (_, out) = run_source("cpyb ._zero 129\nshlb ._zero 1\nxit\n", 100);
    assert_eq!(out, RunOut::Exited(2));
}

#[test]
fn byte_shift_right_halves() {
    let (_, out) = run_source("cpyb ._zero 129\nshrb ._zero 1\nxit\n", 100);
    assert_eq!(out, RunOut::Exited(64));
}

#[test]
fn division_and_remainder_compute_exactly() {
    let (_, out) = run_source("cpyb ._zero 100\ndivb ._zero 7\nxit\n", 100);
    assert_eq!(out, RunOut::Exited(14));
    let (_, out2) = run_source("cpyb ._zero 100\nmodb ._zero 7\nxit\n", 100);
    assert_eq!(out2, RunOut::Exited(2));
}

#[test]
fn bitwise_families_combine() {
    // 0b1100 | 0b0011 = 0b1111; ^ 0b0101 = 0b1010; & 0b0110 = 0b0010.
    let src = "cpyb ._zero 12\norrb ._zero 3\nxorb ._zero 5\nandb ._zero 6\nxit\n";
    let (_, out) = run_source(src, 100);
    assert_eq!(out, RunOut::Exited(2));
}

#[test]
fn unbounded_recursion_overflows_the_return_stack() {
    let (_, out) = run_source(".f\ncal .f\n", 10_000);
    assert_eq!(out, RunOut::Faulted(Fault::StackOverflow));
}
