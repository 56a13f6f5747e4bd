use lib::vm_v2::{
    AddressMode, FloatOp, RunEvent, Size, Step, VmState, MD1, MD2, MR1, MR2, REG_RC, REG_RE, REG_RS, SB1, SB2, SL1, SL2,
};

#[test]
fn memory_widths() {
    let mut mem = VmState::default();
    mem.write_memory(0, 255, &Size::Byte);
    assert_eq!(mem.read_memory(0, &Size::Byte), 255);
    mem.write_memory(0, 65535, &Size::Word);
    assert_eq!(mem.read_memory(0, &Size::Word), 65535);
    mem.write_memory(0, 65535, &Size::Int);
    assert_eq!(mem.read_memory(0, &Size::Int), 65535);
    mem.write_memory(0, 18446744073709551615, &Size::Long);
    assert_eq!(mem.read_memory(0, &Size::Long), 18446744073709551615);
}

#[test]
fn writes_store_little_endian_bytes() {
    let mut mem = VmState::default();
    mem.write_memory(8, 0xF00F, &Size::Word);
    assert_eq!(mem.read_memory(8, &Size::Word), 0xF00F);
    assert_eq!(mem.read_memory(8, &Size::Byte), 0x0F);
    assert_eq!(mem.read_memory(9, &Size::Byte), 0xF0);
    mem.write_memory(8, 0xF00F00FF, &Size::Int);
    assert_eq!(mem.read_memory(8, &Size::Int), 0xF00F00FF);
    assert_eq!(mem.read_memory(8, &Size::Word), 0x00FF);
    mem.write_memory(8, 0x12345678, &Size::Int);
    assert_eq!(mem.read_memory(8, &Size::Int), 0x12345678);
    assert_eq!(mem.read_memory(11, &Size::Byte), 0x12);
    mem.write_memory(8, 0x1_0000_ABCD, &Size::Word);
    assert_eq!(mem.read_memory(8, &Size::Word), 0xABCD);
    assert_eq!(mem.read_memory(8, &Size::Int), 0x1234ABCD);
    mem.write_memory(8, 0x1122334455667788, &Size::Long);
    assert_eq!(mem.read_memory(8, &Size::Long), 0x1122334455667788);
    assert_eq!(mem.read_memory(15, &Size::Byte), 0x11);
}

#[test]
fn writes_that_do_not_fit_change_nothing() {
    let mut mem = VmState::new(4, 0, 0, 10);
    mem.write_memory(3, 0xFFFF, &Size::Word);
    assert_eq!(mem, VmState::new(4, 0, 0, 10));
    mem.write_memory(2, 0xBEEF, &Size::Word);
    assert_eq!(mem.read_memory(2, &Size::Word), 0xBEEF);
}

#[test]
fn push_then_pop_restores_the_machine() {
    let mut mem = VmState::default();
    assert_eq!(mem.push_stack(0x1234, &Size::Word), Ok(()));
    assert_eq!(mem.peak_stack(&Size::Word), Some(0x1234));
    assert_eq!(mem.pop_stack(&Size::Word), Ok(0x1234));
    assert_eq!(mem, VmState::default());
    assert_eq!(mem.push_stack(0x1_2345_6789, &Size::Int), Ok(()));
    assert_eq!(mem.pop_stack(&Size::Int), Ok(0x2345_6789));
    assert_eq!(mem, VmState::default());
}

#[test]
fn pop_from_an_empty_stack_at_zero_underflows() {
    let mut mem = VmState::new(0, 8, 8, 10);
    assert_eq!(mem.peak_stack(&Size::Byte), None);
    assert_eq!(mem.pop_stack(&Size::Byte), Err("StackUnderflow"));
    assert_eq!(mem.pop_stack(&Size::Long), Err("StackUnderflow"));
    assert_eq!(mem, VmState::new(0, 8, 8, 10));
}

#[test]
fn reads_past_memory_give_zero_bytes() {
    let mem = VmState::new(4, 0, 0, 10);
    assert_eq!(mem.read_memory(3, &Size::Word), 0);
    assert_eq!(mem.read_memory_addressed(0, &Size::Byte, &AddressMode::Bus), 1);
    assert_eq!(mem.read_memory_addressed(0, &Size::Byte, &AddressMode::Direct), 0);
}

#[test]
fn registers() {
    let mut mem = VmState::default();
    assert_eq!(mem.read_register(REG_RC as usize), 640);
    assert_eq!(mem.read_register(REG_RS as usize), 512);
    mem.write_register(3, 99);
    assert_eq!(mem.read_register(3), 99);
    assert_eq!(mem.read_register(9), 0);
}

#[test]
fn stack_push_peak_pop() {
    let mut mem = VmState::default();
    assert_eq!(mem.peak_stack(&Size::Byte), None);
    assert_eq!(mem.pop_stack(&Size::Byte), Err("StackUnderflow"));
    assert_eq!(mem.push_stack(0xAB, &Size::Long), Ok(()));
    assert_eq!(mem.read_register(REG_RS as usize), 520);
    assert_eq!(mem.peak_stack(&Size::Long), Some(0xAB));
    assert_eq!(mem.pop_stack(&Size::Long), Ok(0xAB));
    assert_eq!(mem.read_register(REG_RS as usize), 512);
    assert_eq!(mem.read_memory(512, &Size::Long), 0);
}

#[test]
fn stack_overflow() {
    let mut mem = VmState::new(0, 2, 4, 10);
    assert_eq!(mem.push_stack(1, &Size::Word), Ok(()));
    assert_eq!(mem.push_stack(1, &Size::Byte), Err("StackOverflow"));
}

#[test]
fn moves_then_ends() {
    let mut vm = VmState::default();
    let program: Vec<u8> = vec![
        1, MD1 | MR2 | SB1 | SB2, 5, 0,
        1, MD1 | MR2 | SB1 | SB2, 1, REG_RE,
    ];
    assert_eq!(vm.run_program(&program), RunEvent::Finished(Ok(())));
    assert_eq!(vm.read_register(0), 5);
    assert_eq!(vm.ops_ran(), 2);
}

#[test]
fn adds_into_r2() {
    let mut vm = VmState::default();
    let program: Vec<u8> = vec![
        2, MD1 | MD2 | SB1 | SB2, 40, 2,
        1, MD1 | MR2 | SB1 | SB2, 1, REG_RE,
    ];
    assert_eq!(vm.run_program(&program), RunEvent::Finished(Ok(())));
    assert_eq!(vm.read_register(2), 42);
}

#[test]
fn too_large_programs_are_refused() {
    let mut vm = VmState::new(0, 0, 2, 10);
    assert_eq!(vm.run_program(&vec![1, 2, 3]), RunEvent::Finished(Err("TooLarge")));
}

#[test]
fn unknown_opcode_and_halt() {
    let mut vm = VmState::default();
    assert_eq!(vm.run_program(&vec![99, MD1 | MD2, 0, 0]), RunEvent::Finished(Err("InvalidOpCode")));
    let mut vm = VmState::default();
    assert_eq!(vm.run_program(&vec![0, MD1 | MD2, 0, 0]), RunEvent::Finished(Err("VMFailed")));
}

#[test]
fn op_limit_stops_the_run() {
    let mut vm = VmState::new(16, 16, 16, 2);
    let program: Vec<u8> = vec![
        6, MD1 | MD2, 0, 0,
    ];
    vm.write_register(3, 32);
    assert_eq!(vm.run_program(&program), RunEvent::Finished(Err("HitOpLimit")));
}

#[test]
fn running_off_memory_ends_wrongly() {
    let mut vm = VmState::new(0, 0, 4, 10);
    assert_eq!(vm.run_program(&vec![1, MD1 | MR2, 7, 1]), RunEvent::Finished(Err("EndedWrongly")));
    assert_eq!(vm.read_register(REG_RE as usize), 2);
}

#[test]
fn float_add_waits_for_its_result() {
    let mut vm = VmState::default();
    let a = 1.5f64.to_bits();
    let b = 2.25f64.to_bits();
    let mut program: Vec<u8> = vec![13, MD1 | MD2 | SL1 | SL2];
    program.extend_from_slice(&a.to_le_bytes());
    program.extend_from_slice(&b.to_le_bytes());
    program.extend_from_slice(&[1, MD1 | MR2 | SB1 | SB2, 1, REG_RE]);
    let event = vm.run_program(&program);
    assert_eq!(event, RunEvent::Float(FloatOp::Add, a, b));
    let sum = (f64::from_bits(a) + f64::from_bits(b)).to_bits();
    assert_eq!(vm.finish_float_op(sum), Step::Continue);
    assert_eq!(vm.read_register(2), 3.75f64.to_bits());
    assert_eq!(vm.resume(), RunEvent::Finished(Ok(())));
}

#[test]
fn call_and_return() {
    let mut vm = VmState::default();
    let program: Vec<u8> = vec![
        19, MD1 | MD2 | SL1, 0x8F, 2, 0, 0, 0, 0, 0, 0, 0,
        1, MD1 | MR2 | SB1 | SB2, 1, REG_RE,
        20, MD1 | MD2, 0, 0,
    ];
    assert_eq!(vm.run_program(&program), RunEvent::Finished(Ok(())));
    assert_eq!(vm.read_register(REG_RS as usize), 512);
}

#[test]
fn mov_to_a_direct_operand_is_refused() {
    let mut vm = VmState::default();
    assert_eq!(vm.run_program(&vec![1, MD1 | MD2, 1, 1]), RunEvent::Finished(Err("InvalidTarget")));
    let mut vm = VmState::default();
    assert_eq!(vm.run_program(&vec![1, MR1 | MD2, 1, 1]), RunEvent::Finished(Err("InvalidTarget")));
}

#[test]
fn two_pushes_pop_in_reverse_order() {
    let mut mem = VmState::default();
    assert_eq!(mem.push_stack(0x1111_2222_3333_4444, &Size::Long), Ok(()));
    assert_eq!(mem.push_stack(0xABCD, &Size::Word), Ok(()));
    assert_eq!(mem.read_register(REG_RS as usize), 522);
    assert_eq!(mem.pop_stack(&Size::Word), Ok(0xABCD));
    assert_eq!(mem.pop_stack(&Size::Long), Ok(0x1111_2222_3333_4444));
    assert_eq!(mem, VmState::default());
}

#[test]
fn peek_shows_what_pop_returns() {
    let mut mem = VmState::default();
    assert_eq!(mem.push_stack(0x0102_0304, &Size::Int), Ok(()));
    let seen = mem.peak_stack(&Size::Int);
    assert_eq!(seen, Some(0x0102_0304));
    assert_eq!(mem.peak_stack(&Size::Long), None);
    assert_eq!(mem.pop_stack(&Size::Long), Err("StackUnderflow"));
    assert_eq!(mem.pop_stack(&Size::Int), Ok(seen.unwrap()));
}

#[test]
fn stack_pointer_stays_between_stack_and_program() {
    let mut mem = VmState::new(4, 3, 4, 10);
    assert_eq!(mem.push_stack(1, &Size::Word), Ok(()));
    assert_eq!(mem.push_stack(1, &Size::Word), Err("StackOverflow"));
    assert_eq!(mem.read_register(REG_RS as usize), 6);
    assert_eq!(mem.pop_stack(&Size::Int), Err("StackUnderflow"));
    assert_eq!(mem.pop_stack(&Size::Word), Ok(1));
    assert_eq!(mem.read_register(REG_RS as usize), 4);
    assert_eq!((mem.stack_location, mem.program_location), (4, 7));
}
