use lib::vm_v1::{run_program, try_run_program, Memory};

#[test]
fn refuses_odd_or_short_programs() {
    let mut mem = Memory::default();
    assert!(!run_program(vec![1, 2, 3], &mut mem));
    assert!(!run_program(vec![], &mut mem));
    assert_eq!(mem, Memory::default());
}

#[test]
fn moves_adds_and_subtracts() {
    let mut mem = Memory::default();
    let program: Vec<u8> = vec![
        0b00000001, 0b01010110, 0b00000000, 0b00000111,
        0b00000001, 0b01011010, 0b00000001, 0b00000000,
        0b00000010, 0b01010110, 0b00000001, 0b00000001,
        0b00000001, 0b01011000, 0b00000000, 0b00000001,
        0b00000001, 0b01011010, 0b00000010, 0b00000001,
        0b00000011, 0b01010110, 0b00000010, 0b00000110,
    ];
    assert!(run_program(program, &mut mem));
    let shown = format!("{mem:?}");
    assert!(shown.contains("register: [7, 8, 2, 0, 0, 0]"));
    assert!(shown.contains("memory: [8, 0, 0"));
}

#[test]
fn unknown_opcode_stops_the_run() {
    let mut mem = Memory::default();
    assert!(!run_program(vec![9, 0b01010110, 0, 7], &mut mem));
    assert_eq!(mem, Memory::default());
}

#[test]
fn bad_target_mode_stops_the_run() {
    let mut mem = Memory::default();
    assert!(!run_program(vec![1, 0b01010101, 0, 7], &mut mem));
}

#[test]
fn checked_runs_report_instructions_that_cannot_complete() {
    let mut mem = Memory::default();
    assert_eq!(try_run_program(vec![1, 0b01010110, 0, 200, 2, 0b01010110, 0, 100], &mut mem), None);
    let mut mem = Memory::default();
    assert_eq!(try_run_program(vec![1, 0b01010110, 0, 5, 3, 0b01010110, 0, 6], &mut mem), None);
    let mut mem = Memory::default();
    assert_eq!(try_run_program(vec![1, 0b01010110, 6, 1], &mut mem), None);
    assert_eq!(mem, Memory::default());
}

#[test]
fn checked_runs_agree_with_plain_runs() {
    let mut mem = Memory::default();
    assert_eq!(try_run_program(vec![1, 2, 3], &mut mem), Some(false));
    assert_eq!(try_run_program(vec![9, 0b01010110, 0, 7], &mut mem), Some(false));
    let mut a = Memory::default();
    let mut b = Memory::default();
    let program: Vec<u8> = vec![
        0b00000001, 0b01010110, 0b00000000, 0b00000111,
        0b00000010, 0b01010110, 0b00000000, 0b00000001,
    ];
    assert_eq!(try_run_program(program.clone(), &mut a), Some(true));
    assert!(run_program(program, &mut b));
    assert_eq!(a, b);
    assert!(format!("{a:?}").contains("register: [8, 0, 0, 0, 0, 0]"));
}
