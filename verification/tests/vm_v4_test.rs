use std::collections::VecDeque;

use lib::vm_v4::bytecode::{get_opcode, trim_value, AddressMode, Operand, Size};
use lib::vm_v4::function::Function;
use lib::vm_v4::object::{Object, ObjectType, PassBy};
use lib::vm_v4::program::Program;
use lib::vm_v4::vm_state::{
    RunEnd, VMState, ERR_NO_OBJECT, ERR_NO_OP_CODE, ERR_NO_TYPE, ERR_OBJECT_WRITE, ERR_OOM,
    ERR_OPERAND, ERR_PROGRAM_READ, ERR_STACK_EMPTY, ERR_TYPE_MISH, PRIM_BYTE, PRIM_FN_RT, PRIM_INT, PRIM_LONG,
};

fn operand(direct_value: u64, size: Size) -> Operand {
    Operand { direct_value, true_value: None, size, address_mode: AddressMode::Direct }
}

#[test]
pub fn _aa_vm_v4_test_object_init_test() {
    let mut vm = VMState::default();
    let typ = vm.get_type(PRIM_BYTE).unwrap();
    println!("{typ:?}");
    let object = Object::new_object(PRIM_BYTE, &mut vm).unwrap();
    vm.write_object(object, vec![0xFF]).unwrap();
    assert_eq!(vm.read_object(object).unwrap()[0], 0xFF);
}

#[test]
pub fn _aa_vm_v4_test_ref_counting_test() {
    let mut vm = VMState::default();
    let address = Object::new_object(PRIM_BYTE, &mut vm).unwrap();
    vm.write_object(address, vec![0xFF]).unwrap();
    vm.dec_object_count(address).unwrap();
    assert!(vm.read_object(address).is_err());
    println!("Hello World")
}

#[test]
pub fn _aa_vm_v4_test_mass_ref_counting_test() {
    let mut vm = VMState::default();
    let mut objs: Vec<u32> = vec![];
    for _x in 0..100 {
        objs.push(Object::new_object(PRIM_BYTE, &mut vm).unwrap());
    }
    for obj in &objs {
        vm.dec_object_count(*obj).unwrap();
    }
    for obj in &objs {
        assert!(vm.read_object(*obj).is_err())
    }
}

#[test]
pub fn _aa_vm_v4_test_ref_counting_test_v2() {
    let mut vm = VMState::default();
    let address_1 = Object::new_object(PRIM_BYTE, &mut vm).unwrap();
    let address_2 = Object::new_object(PRIM_BYTE, &mut vm).unwrap();
    let address_3 = Object::new_object(PRIM_BYTE, &mut vm).unwrap();

    vm.dec_object_count(address_1).unwrap();
    assert!(vm.read_object(address_1).is_err());

    let address_4 = Object::new_object(PRIM_BYTE, &mut vm).unwrap();
    assert_eq!(address_4, 0);

    vm.inc_object_count(address_2).unwrap();
    vm.dec_object_count(address_2).unwrap();
    assert!(vm.read_object(address_2).is_ok());

    assert!(vm.read_object(address_3).is_ok());
}

#[test]
pub fn _aa_vm_v4_test_struct_test() {
    let mut vm = VMState::default();
    let typ_size = vm.get_type(PRIM_BYTE).unwrap().size;
    let wrong_typ = ObjectType::new_primitive(1, "wrong", &mut vm);

    let stc_pointer = ObjectType::new_struct(vec![PRIM_BYTE, PRIM_BYTE], "struct".to_string(), PassBy::Reference, &mut vm);
    let stc = vm.get_type(stc_pointer).unwrap();
    assert_eq!(stc.size, typ_size * 2);

    let stc_object = Object::new_object(stc_pointer, &mut vm).unwrap();
    let basic_1 = Object::new_object(PRIM_BYTE, &mut vm).unwrap();
    let basic_2 = Object::new_object(PRIM_BYTE, &mut vm).unwrap();

    vm.write_object(basic_1, vec![1]).unwrap();
    vm.write_object(basic_2, vec![2]).unwrap();

    assert!(vm.write_object_typed(stc_object, vec![basic_1, basic_2]).is_ok());
    assert_eq!(vm.read_object(stc_object).unwrap(), &vec![1, 2]);

    let wrong = Object::new_object(wrong_typ, &mut vm).unwrap();
    assert!(vm.write_object_typed(stc_object, vec![basic_1, wrong]).is_err())
}

#[test]
pub fn _aa_vm_v4_test_create_object_on_stack_test() {
    let mut vm = VMState::default();
    get_opcode(2).unwrap().call(&mut vm, vec![operand(5, Size::Byte)]).unwrap();
    get_opcode(2).unwrap().call(&mut vm, vec![operand(1003, Size::Word)]).unwrap();
    get_opcode(2).unwrap().call(&mut vm, vec![operand(10535, Size::Int)]).unwrap();
    get_opcode(2).unwrap().call(&mut vm, vec![operand(4679824527, Size::Long)]).unwrap();

    let long_pointer = vm.stack_pop(false).unwrap();
    let long_vec: &Vec<u8> = &u64::to_le_bytes(4679824527).to_vec();
    assert_eq!(vm.read_object(long_pointer).unwrap(), long_vec);
    vm.dec_object_count(long_pointer).unwrap();

    let int_pointer = vm.stack_pop(false).unwrap();
    let int_vec: &Vec<u8> = &u32::to_le_bytes(10535).to_vec();
    assert_eq!(vm.read_object(int_pointer).unwrap(), int_vec);
    vm.dec_object_count(int_pointer).unwrap();

    let word_pointer = vm.stack_pop(false).unwrap();
    let word_vec: &Vec<u8> = &vec![0xEB, 0x03];
    assert_eq!(vm.read_object(word_pointer).unwrap(), word_vec);
    vm.dec_object_count(word_pointer).unwrap();

    let byte_pointer = vm.stack_pop(false).unwrap();
    let byte_vec: &Vec<u8> = &vec![5];
    assert_eq!(vm.read_object(byte_pointer).unwrap(), byte_vec);
    vm.dec_object_count(byte_pointer).unwrap();
}

#[test]
pub fn _aa_vm_v4_test_new_stack_object_test() {
    let mut vm = VMState::default();
    let typ = ObjectType::new_struct(vec![PRIM_BYTE, PRIM_INT], "aa".to_string(), PassBy::Reference, &mut vm);

    get_opcode(2).unwrap().call(&mut vm, vec![operand(20, Size::Int)]).unwrap();
    get_opcode(2).unwrap().call(&mut vm, vec![operand(5, Size::Byte)]).unwrap();

    get_opcode(1).unwrap().call(&mut vm, vec![operand(typ as u64, Size::Int)]).unwrap();

    let object = vm.stack_pop(false).unwrap();
    let comp: &Vec<u8> = &vec![5, 20, 0, 0, 0];
    assert_eq!(vm.read_object(object).unwrap(), comp);

    vm.dec_object_count(object).unwrap();
}

#[test]
pub fn basic_program() {
    let mut vm = VMState::default();
    let typ = ObjectType::new_struct(vec![PRIM_BYTE, PRIM_INT], "aa".to_string(), PassBy::Reference, &mut vm);
    let program: Vec<u8> = vec![
        0x02, 0x00, 0b00000010, 0x14, 0x00, 0x00, 0x00,
        0x02, 0x00, 0b00000000, 0x05,
        0x01, 0x00, 0b00000000, typ as u8,
        0x00, 0x00,
    ];

    assert_eq!(vm.run_program(program), RunEnd::Finished(Ok(())));

    let object = vm.stack_pop(false).unwrap();
    let comp: &Vec<u8> = &vec![5, 20, 0, 0, 0];
    assert_eq!(vm.read_object(object).unwrap(), comp);
}

#[test]
pub fn op_code_dup() {
    let mut vm = VMState::default();
    let typ = ObjectType::new_struct(vec![PRIM_BYTE, PRIM_INT], "aa".to_string(), PassBy::Reference, &mut vm);
    let program: Vec<u8> = vec![
        0x02, 0x00, 0b00000010, 0x14, 0x00, 0x00, 0x00,
        0x03, 0x00,
        0x02, 0x00, 0b00000000, 0x05,
        0x01, 0x00, 0b00000000, typ as u8,
        0x03, 0x00,
        0x00, 0x00,
    ];

    assert_eq!(vm.run_program(program), RunEnd::Finished(Ok(())));

    let dupped = vm.stack_pop(false).unwrap();
    let original = vm.stack_pop(false).unwrap();
    let primitive = vm.stack_pop(false).unwrap();

    assert_eq!(dupped, original);
    assert_ne!(primitive, 0);
}

#[test]
fn test_basic_add() {
    let mut vm = VMState::default();
    let program: Vec<u8> = vec![
        0x02, 0x00, 0b00000010, 0x14, 0x00, 0x00, 0x00,
        0x02, 0x00, 0b00000000, 0x05,
        0x09, 0x00,
        0x00, 0x00,
    ];

    assert_eq!(vm.run_program(program), RunEnd::Finished(Ok(())));

    let added = vm.stack_pop(false).unwrap();
    let typ = vm.read_object_type(added).unwrap().id.clone();
    assert_eq!(vm.read_object(added).unwrap(), &vec![25, 0, 0, 0]);
    assert_eq!(typ, "int")
}

#[test]
fn test_basic_sub() {
    let mut vm = VMState::default();
    let program: Vec<u8> = vec![
        0x02, 0x00, 0b00000010, 0x14, 0x00, 0x00, 0x00,
        0x02, 0x00, 0b00000000, 0x05,
        0x0A, 0x00,
        0x00, 0x00,
    ];

    assert_eq!(vm.run_program(program), RunEnd::Finished(Ok(())));

    let added = vm.stack_pop(false).unwrap();
    let typ = vm.read_object_type(added).unwrap().id.clone();
    assert_eq!(vm.read_object(added).unwrap(), &vec![15, 0, 0, 0]);
    assert_eq!(typ, "int")
}

#[test]
fn test_jump_unc() {
    let mut vm = VMState::default();
    let program: Vec<u8> = vec![
        11, 0, 0b00000000, 0x08,
        255, 255, 255, 255,
        0x00, 0x00,
        255, 255, 255, 255,
    ];

    assert_eq!(vm.run_program(program), RunEnd::Finished(Ok(())));
}

#[test]
fn test_jump_cnd() {
    let mut vm = VMState::default();
    let program: Vec<u8> = vec![
        0x02, 0x00, 0b00000000, 0x05,
        0x02, 0x00, 0b00000000, 0x05,
        12, 0,
        18, 0, 0b00000000, 19, 16,
        255, 255, 255, 255,
        0x00, 0x00,
        255, 255, 255, 255,
    ];

    assert_eq!(vm.run_program(program), RunEnd::Finished(Ok(())));
}

#[test]
pub fn aa_vm_v4_test_object_init_test() {
    let mut vm = VMState::default();
    let typ = vm.get_type(PRIM_BYTE).unwrap();
    println!("{typ:?}");
    let object = Object::new_object(PRIM_BYTE, &mut vm).unwrap();
    let _ = vm.write_object(object, vec![0xFF]);
    assert_eq!(vm.read_object(object).unwrap()[0], 0xFF);
}

#[test]
pub fn aa_vm_v4_test_ref_counting_test() {
    let mut vm = VMState::default();
    let address = Object::new_object(PRIM_BYTE, &mut vm).unwrap();
    let _ = vm.write_object(address, vec![0xFF]);
    let _ = vm.dec_object_count(address);
    assert!(vm.read_object(address).is_err());
    println!("Hello World")
}

#[test]
pub fn aa_vm_v4_test_mass_ref_counting_test() {
    let mut vm = VMState::default();
    let mut objs: Vec<u32> = vec![];
    for _x in 0..100 {
        objs.push(Object::new_object(PRIM_BYTE, &mut vm).unwrap());
    }
    for obj in &objs {
        let _ = vm.dec_object_count(*obj);
    }
    for obj in &objs {
        assert!(vm.read_object(*obj).is_err())
    }
}

#[test]
pub fn aa_vm_v4_test_ref_counting_test_v2() {
    let mut vm = VMState::default();
    let address_1 = Object::new_object(PRIM_BYTE, &mut vm).unwrap();
    let address_2 = Object::new_object(PRIM_BYTE, &mut vm).unwrap();
    let address_3 = Object::new_object(PRIM_BYTE, &mut vm).unwrap();

    let _ = vm.dec_object_count(address_1);
    assert!(vm.read_object(address_1).is_err());

    let address_4 = Object::new_object(PRIM_BYTE, &mut vm).unwrap();
    assert_eq!(address_4, 0);

    let _ = vm.inc_object_count(address_2);
    let _ = vm.dec_object_count(address_2);
    assert!(vm.read_object(address_2).is_ok());

    assert!(vm.read_object(address_3).is_ok());
}

#[test]
pub fn aa_vm_v4_test_struct_test() {
    let mut vm = VMState::default();
    let typ_size = vm.get_type(PRIM_BYTE).unwrap().size;
    let wrong_typ = ObjectType::new_primitive(1, "wrong", &mut vm);

    let stc_pointer = ObjectType::new_struct(vec![PRIM_BYTE, PRIM_BYTE], "struct".to_string(), PassBy::Reference, &mut vm);
    let stc = vm.get_type(stc_pointer).unwrap();
    assert_eq!(stc.size, typ_size * 2);

    let stc_object = Object::new_object(stc_pointer, &mut vm).unwrap();
    let basic_1 = Object::new_object(PRIM_BYTE, &mut vm).unwrap();
    let basic_2 = Object::new_object(PRIM_BYTE, &mut vm).unwrap();

    let _ = vm.write_object(basic_1, vec![1]);
    let _ = vm.write_object(basic_2, vec![2]);

    assert!(vm.write_object_typed(stc_object, vec![basic_1, basic_2]).is_ok());
    assert_eq!(vm.read_object(stc_object).unwrap(), &vec![1, 2]);

    let wrong = Object::new_object(wrong_typ, &mut vm).unwrap();
    assert!(!vm.write_object_typed(stc_object, vec![basic_1, wrong]).is_ok())
}

#[test]
pub fn basic_serialize_object_type() {
    let vm = VMState::default();
    let typ = vm.get_type(PRIM_BYTE).unwrap();
    let serz = typ.to_bytes();

    println!("{serz:?}");

    let unserz = ObjectType::from_bytes(VecDeque::from(serz), &vm).unwrap();

    let re_type = typ;
    assert_eq!(unserz.id, re_type.id);
    assert_eq!(unserz.pass_by, re_type.pass_by);
    assert_eq!(unserz.size, re_type.size);
    assert_eq!(unserz.types.len(), re_type.types.len());
}

#[test]
pub fn complex_serialize_object_type() {
    let mut vm = VMState::default();
    let stc_pointer = ObjectType::new_struct(vec![PRIM_BYTE, PRIM_BYTE], "struct".to_string(), PassBy::Reference, &mut vm);
    let stc_type = vm.get_type(stc_pointer).unwrap();
    let serz = stc_type.to_bytes();

    println!("{serz:?}");

    let unserz = ObjectType::from_bytes(VecDeque::from(serz), &vm).unwrap();
    let re_type = stc_type;
    assert_eq!(unserz.id, re_type.id);
    assert_eq!(unserz.pass_by, re_type.pass_by);
    assert_eq!(unserz.size, re_type.size);
    assert_eq!(unserz.types.len(), re_type.types.len());
}

#[test]
fn from_bytes_refuses_bad_input() {
    let vm = VMState::default();
    assert_eq!(ObjectType::from_bytes(VecDeque::from(vec![0, 0, 0]), &vm), Err((ERR_PROGRAM_READ, "object::from_bytes")));
    let unknown = ObjectType { size: 1, types: vec![40], pass_by: PassBy::Value, id: "x".to_string() };
    assert_eq!(ObjectType::from_bytes(VecDeque::from(unknown.to_bytes()), &vm), Err((ERR_NO_TYPE, "object::from_bytes")));
    let mut bytes = ObjectType { size: 1, types: vec![], pass_by: PassBy::Value, id: "x".to_string() }.to_bytes();
    bytes[13] = 0xFF;
    assert_eq!(ObjectType::from_bytes(VecDeque::from(bytes), &vm), Err((ERR_PROGRAM_READ, "object::from_bytes")));
    let mut flag = ObjectType { size: 1, types: vec![], pass_by: PassBy::Value, id: "x".to_string() }.to_bytes();
    flag[4] = 2;
    assert_eq!(ObjectType::from_bytes(VecDeque::from(flag), &vm), Err((ERR_PROGRAM_READ, "object::from_bytes")));
}

#[test]
pub fn _aa_vm_v4_test_rust_why_do_you_do_this_i_am_in_so_much_pain_right_now() {
    // Reserved for the *worst* of Rust
}

#[test]
pub fn aa_vm_v4_test_rust_why_do_you_do_this_i_am_in_so_much_pain_right_now() {
    // Reserved for the *worst* of Rust
}

// Own tests.

#[test]
fn default_types_are_registered() {
    let vm = VMState::default();
    let names = ["byte", "word", "int", "long", "function_return", "linked_list"];
    let sizes = [1u32, 2, 4, 8, 24, 12];
    for i in 0..6u32 {
        let t = vm.get_type(i).unwrap();
        assert_eq!(t.id, names[i as usize]);
        assert_eq!(t.size, sizes[i as usize]);
    }
    assert_eq!(vm.get_type(6).unwrap_err(), (ERR_NO_TYPE, "vm_state::get_type"));
    assert_eq!(vm.get_type(5).unwrap().types, vec![PRIM_INT, PRIM_INT, PRIM_INT]);
    assert_eq!(vm.get_type(5).unwrap().pass_by, PassBy::Reference);
}

#[test]
fn new_type_refuses_a_taken_name() {
    let mut vm = VMState::default();
    let t = ObjectType { size: 3, types: vec![], pass_by: PassBy::Value, id: "byte".to_string() };
    assert_eq!(vm.new_type(t), u32::MAX);
    let t = ObjectType { size: 3, types: vec![PRIM_BYTE], pass_by: PassBy::Value, id: "three".to_string() };
    assert_eq!(vm.new_type(t), 6);
    assert_eq!(vm.get_type_string(&"three".to_string()).unwrap().size, 3);
    assert_eq!(vm.get_type_string(&"four".to_string()).unwrap_err(), (ERR_NO_TYPE, "vm_state::get_type_string"));
}

#[test]
fn struct_size_counts_references_as_four_bytes() {
    let mut vm = VMState::default();
    let s = ObjectType::new_struct(vec![PRIM_BYTE, 5, PRIM_INT], "mixed".to_string(), PassBy::Value, &mut vm);
    assert_eq!(vm.get_type(s).unwrap().size, 1 + 4 + 4);
    assert_eq!(ObjectType::new_struct(vec![], "mixed".to_string(), PassBy::Value, &mut vm), u32::MAX);
}

#[test]
fn write_object_pads_and_refuses_long_data() {
    let mut vm = VMState::default();
    let o = Object::new_object(PRIM_INT, &mut vm).unwrap();
    vm.write_object(o, vec![7, 8]).unwrap();
    assert_eq!(vm.read_object(o).unwrap(), &vec![7, 8, 0, 0]);
    assert_eq!(vm.write_object(o, vec![1, 2, 3, 4, 5]), Err((ERR_OBJECT_WRITE, "vm_state::write_object::set_data")));
    assert_eq!(vm.read_object(o).unwrap(), &vec![0, 0, 0, 0]);
    assert_eq!(vm.write_object(9, vec![1]), Err((ERR_NO_OBJECT, "vm_state::write_object")));
}

#[test]
fn allocation_is_limited_by_memory() {
    let mut vm = VMState::new(10);
    assert_eq!(Object::new_object(PRIM_LONG, &mut vm), Ok(0));
    assert_eq!(Object::new_object(PRIM_BYTE, &mut vm), Ok(1));
    assert_eq!(Object::new_object(PRIM_BYTE, &mut vm), Err((ERR_OOM, "vm_state::new_object_direct")));
}

#[test]
fn stack_push_and_pop() {
    let mut vm = VMState::default();
    assert_eq!(vm.stack_pop(false), Err((ERR_STACK_EMPTY, "vm_state::stack_pop")));
    assert_eq!(vm.stack_push(0, false), Err((ERR_NO_OBJECT, "vm_state::stack_push")));
    let o = Object::new_object(PRIM_BYTE, &mut vm).unwrap();
    vm.stack_push(o, true).unwrap();
    assert_eq!(vm.stack_pop(true), Ok(o));
    assert!(vm.read_object(o).is_ok());
    vm.stack_push(o, false).unwrap();
    assert_eq!(vm.stack_local_var(0), Ok(o));
    assert_eq!(vm.stack_local_var(1), Err((ERR_NO_OBJECT, "vm_state::stack_local_var")));
    assert_eq!(vm.stack_pop(true), Ok(o));
    assert!(vm.read_object(o).is_err());
}

#[test]
fn write_function_and_read_bytes() {
    let mut vm = VMState::new(4);
    assert_eq!(vm.write_function(Function::new(vec![], None, vec![1, 2, 3, 4, 5])), Err((ERR_OOM, "vm_state::write_function")));
    assert_eq!(vm.write_function(Function::new(vec![], None, vec![9, 8])), Ok(0));
    assert_eq!(vm.read_program_byte(), Ok(9));
    assert_eq!(vm.read_program_byte(), Ok(8));
    assert_eq!(vm.read_program_byte(), Err((ERR_PROGRAM_READ, "vm_state::read_program_byte")));
}

#[test]
fn basic_primitives() {
    let mut vm = VMState::default();
    let b = Object::new_object(PRIM_BYTE, &mut vm).unwrap();
    let r = Object::new_object(PRIM_FN_RT, &mut vm).unwrap();
    assert!(vm.is_basic_primitive(b));
    assert!(!vm.is_basic_primitive(r));
    vm.dec_object_count(b).unwrap();
    assert!(!vm.is_basic_primitive(b));
}

#[test]
fn unknown_opcodes_are_refused() {
    for code in [4u16, 5, 6, 7, 8, 22, 255, 256] {
        assert_eq!(get_opcode(code).err(), Some((ERR_NO_OP_CODE, "bytecode::get_opcode")));
    }
    let op = get_opcode(19).unwrap();
    assert_eq!((op.name, op.count), ("Cal", 1));
    let op = get_opcode(20).unwrap();
    assert_eq!((op.name, op.count), ("Ret", 0));
    let op = get_opcode(21).unwrap();
    assert_eq!((op.name, op.count), ("RetVal", 1));
    let op = get_opcode(18).unwrap();
    assert_eq!((op.name, op.count), ("JmpCnd", 2));
}

#[test]
fn run_refuses_an_unknown_opcode() {
    let mut vm = VMState::default();
    assert_eq!(vm.run_program(vec![4, 0]), RunEnd::Finished(Err((ERR_NO_OP_CODE, "bytecode::get_opcode"))));
    let mut vm = VMState::default();
    assert_eq!(vm.run_program(vec![2, 0, 0]), RunEnd::Finished(Err((ERR_PROGRAM_READ, "vm_state::read_program_byte"))));
}

#[test]
fn opcodes_take_two_bytes_low_byte_first() {
    let mut vm = VMState::default();
    assert_eq!(vm.run_program(vec![0x00, 0x01]), RunEnd::Finished(Err((ERR_NO_OP_CODE, "bytecode::get_opcode"))));
    let mut vm = VMState::default();
    assert_eq!(vm.run_program(vec![0x02, 0x01, 0b00000000, 0x05]), RunEnd::Finished(Err((ERR_NO_OP_CODE, "bytecode::get_opcode"))));
    let mut vm = VMState::default();
    assert_eq!(vm.run_program(vec![0x00, 0x00]), RunEnd::Finished(Ok(())));
}

#[test]
fn operand_descriptors_give_width_then_mode() {
    let mut vm = VMState::default();
    let program: Vec<u8> = vec![
        0x02, 0x00, 0b00000011, 0x08, 0x07, 0x06, 0x05, 0x04, 0x03, 0x02, 0x01,
        0x02, 0x00, 0b00001101, 0x34, 0x12,
        0x00, 0x00,
    ];
    assert_eq!(vm.run_program(program), RunEnd::Finished(Ok(())));
    let word = vm.stack_pop(false).unwrap();
    assert_eq!(vm.read_object(word).unwrap(), &vec![0x34, 0x12]);
    assert_eq!(vm.read_object_type(word).unwrap().id, "word");
    let long = vm.stack_pop(false).unwrap();
    assert_eq!(vm.read_object(long).unwrap(), &vec![0x08, 0x07, 0x06, 0x05, 0x04, 0x03, 0x02, 0x01]);
    assert_eq!(vm.read_object_type(long).unwrap().id, "long");
}

#[test]
fn add_wraps_and_keeps_the_wider_type() {
    let mut vm = VMState::default();
    let program: Vec<u8> = vec![
        0x02, 0x00, 0b00000000, 0xFF,
        0x02, 0x00, 0b00000000, 0x02,
        0x09, 0x00,
        0x00, 0x00,
    ];
    assert_eq!(vm.run_program(program), RunEnd::Finished(Ok(())));
    let sum = vm.stack_pop(false).unwrap();
    assert_eq!(vm.read_object(sum).unwrap(), &vec![1]);
    assert_eq!(vm.read_object_type(sum).unwrap().id, "byte");
}

#[test]
fn add_needs_primitives() {
    let mut vm = VMState::default();
    let r = Object::new_object(PRIM_FN_RT, &mut vm).unwrap();
    vm.stack_push(r, false).unwrap();
    assert_eq!(get_opcode(9).unwrap().call(&mut vm, vec![]), Err((ERR_TYPE_MISH, "bytecode::get_primitive_value_unsigned")));
}

#[test]
fn comparisons_set_the_jump_flag() {
    let mut vm = VMState::default();
    get_opcode(2).unwrap().call(&mut vm, vec![operand(3, Size::Byte)]).unwrap();
    get_opcode(2).unwrap().call(&mut vm, vec![operand(9, Size::Byte)]).unwrap();
    get_opcode(13).unwrap().call(&mut vm, vec![]).unwrap();
    assert!(!vm.jump_trueth);
    get_opcode(2).unwrap().call(&mut vm, vec![operand(3, Size::Byte)]).unwrap();
    get_opcode(2).unwrap().call(&mut vm, vec![operand(9, Size::Byte)]).unwrap();
    get_opcode(14).unwrap().call(&mut vm, vec![]).unwrap();
    assert!(vm.jump_trueth);
}

#[test]
fn call_and_return_restore_the_pointers() {
    let mut vm = VMState::default();
    let f = vm.write_function(Function::new(vec![PRIM_BYTE], None, vec![20, 0])).unwrap();
    vm.program_pointer = 7;
    vm.base_pointer = 3;
    vm.function_pointer = 5;
    get_opcode(2).unwrap().call(&mut vm, vec![operand(9, Size::Byte)]).unwrap();
    let arg = vm.stack[0];
    get_opcode(19).unwrap().call(&mut vm, vec![operand(f, Size::Byte)]).unwrap();
    assert_eq!(vm.program_pointer, 0);
    assert_eq!(vm.base_pointer, 1);
    assert_eq!(vm.function_pointer, f);
    assert_eq!(vm.stack.len(), 2);
    assert_eq!(vm.stack[1], arg);
    let record = vm.stack[0];
    assert_eq!(
        vm.read_object(record).unwrap(),
        &vec![0, 0, 0, 0, 0, 0, 0, 7, 0, 0, 0, 0, 0, 0, 0, 3, 0, 0, 0, 0, 0, 0, 0, 5]
    );
    assert_eq!(vm.read_object_type(record).unwrap().id, "function_return");
    get_opcode(20).unwrap().call(&mut vm, vec![]).unwrap();
    assert_eq!(vm.program_pointer, 7);
    assert_eq!(vm.base_pointer, 3);
    assert_eq!(vm.function_pointer, 5);
    assert!(vm.stack.is_empty());
    assert!(vm.read_object(record).is_err());
    assert!(vm.read_object(arg).is_err());
}

#[test]
fn call_errors() {
    let mut vm = VMState::default();
    assert_eq!(get_opcode(19).unwrap().call(&mut vm, vec![]), Err((ERR_OPERAND, "bytecode::Cal")));
    assert_eq!(get_opcode(19).unwrap().call(&mut vm, vec![operand(0, Size::Byte)]), Err((ERR_PROGRAM_READ, "bytecode::Cal")));
    let f = vm.write_function(Function::new(vec![PRIM_BYTE, PRIM_BYTE], None, vec![20, 0])).unwrap();
    get_opcode(2).unwrap().call(&mut vm, vec![operand(1, Size::Byte)]).unwrap();
    assert_eq!(get_opcode(19).unwrap().call(&mut vm, vec![operand(f, Size::Byte)]), Err((ERR_STACK_EMPTY, "bytecode::Cal")));
    assert_eq!(vm.stack.len(), 1);
    assert_eq!(get_opcode(21).unwrap().call(&mut vm, vec![]), Err((ERR_OPERAND, "bytecode::RetVal")));
    assert_eq!(get_opcode(20).unwrap().call(&mut vm, vec![]), Err((ERR_STACK_EMPTY, "vm_state::stack_pop")));
}

#[test]
fn return_values_land_on_the_callers_stack() {
    let mut vm = VMState::default();
    let f = vm.write_function(Function::new(vec![], None, vec![])).unwrap();
    get_opcode(2).unwrap().call(&mut vm, vec![operand(1, Size::Byte)]).unwrap();
    let below = vm.stack[0];
    get_opcode(19).unwrap().call(&mut vm, vec![operand(f, Size::Byte)]).unwrap();
    get_opcode(2).unwrap().call(&mut vm, vec![operand(2, Size::Byte)]).unwrap();
    get_opcode(2).unwrap().call(&mut vm, vec![operand(3, Size::Byte)]).unwrap();
    get_opcode(2).unwrap().call(&mut vm, vec![operand(4, Size::Byte)]).unwrap();
    let (a, b) = (vm.stack[3], vm.stack[4]);
    get_opcode(21).unwrap().call(&mut vm, vec![operand(2, Size::Byte)]).unwrap();
    assert_eq!(vm.stack, vec![below, a, b]);
    assert_eq!(vm.read_object(a).unwrap(), &vec![3]);
    assert_eq!(vm.read_object(b).unwrap(), &vec![4]);
    assert_eq!(vm.function_pointer, 0);
}

#[test]
fn dup_copies_values() {
    let mut vm = VMState::default();
    get_opcode(2).unwrap().call(&mut vm, vec![operand(0x1234, Size::Word)]).unwrap();
    get_opcode(3).unwrap().call(&mut vm, vec![]).unwrap();
    let top = vm.stack_pop(false).unwrap();
    let copy = vm.stack_pop(false).unwrap();
    assert_ne!(top, copy);
    assert_eq!(vm.read_object(copy).unwrap(), &vec![0x34, 0x12]);
    assert_eq!(vm.read_object(top).unwrap(), &vec![0x34, 0x12]);
}

#[test]
fn trim_value_cuts_and_pads() {
    assert_eq!(trim_value(&vec![1, 2, 3], 2), vec![1, 2]);
    assert_eq!(trim_value(&vec![1], 3), vec![1, 0, 0]);
    assert_eq!(trim_value(&vec![4, 5], 2), vec![4, 5]);
}

#[test]
fn sizes_and_modes() {
    assert_eq!(Size::to_size(0), Size::Byte);
    assert_eq!(Size::to_size(1), Size::Word);
    assert_eq!(Size::to_size(3), Size::Long);
    assert_eq!(Size::to_size(3).get_size(), 8);
    assert_eq!(Size::to_size(9), Size::Byte);
    assert_eq!(Size::to_size(2).get_size(), 4);
    assert_eq!(AddressMode::to_mode(1), AddressMode::Stack);
    assert_eq!(AddressMode::to_mode(7), AddressMode::Memory);
}

#[test]
fn object_type_bytes() {
    let t = ObjectType { size: 5, types: vec![0, 2], pass_by: PassBy::Reference, id: "aa".to_string() };
    assert_eq!(t.to_bytes(), vec![0, 0, 0, 5, 1, 0, 0, 0, 2, 0, 0, 0, 0, 0, 0, 0, 2, 0, 0, 0, 2, b'a', b'a']);
}

#[test]
fn program_bytes() {
    let t = ObjectType { size: 1, types: vec![], pass_by: PassBy::Value, id: "b".to_string() };
    let p = Program::new(1, 2, 3, vec![0xAB], vec![t]);
    let bytes = p.to_bytes();
    assert_eq!(bytes.len(), 22 + 14 + 1);
    assert_eq!(&bytes[0..8], &[36, 0, 0, 0, 0, 0, 0, 0]);
    assert_eq!(&bytes[16..22], &[0, 1, 0, 2, 0, 3]);
    assert_eq!(bytes[36], 0xAB);
    let start = u64::from_le_bytes([bytes[0], bytes[1], bytes[2], bytes[3], bytes[4], bytes[5], bytes[6], bytes[7]]);
    assert_eq!(&bytes[start as usize..], &[0xAB]);
    let empty = Program::from_bytes(bytes).to_bytes();
    assert_eq!(empty, vec![22, 0, 0, 0, 0, 0, 0, 0, 0, 0, 0, 0, 0, 0, 0, 0, 0, 0, 0, 0, 0, 0]);
}

#[test]
fn test_cal() {
    let mut vm = VMState::default();
    let main: Vec<u8> = vec![
        19, 0, 0b00000000, 0,
        0x00, 0x00,
        255, 255, 255, 255,
    ];
    let func: Vec<u8> = vec![20, 0];
    vm.write_function(Function::new(vec![], None, func)).unwrap();
    assert_eq!(vm.run_program(main), RunEnd::Finished(Ok(())));
}

#[test]
fn test_ret_ret() {
    let mut vm = VMState::default();
    let func = Function::new(vec![], Some(PRIM_BYTE), vec![
        0x02, 0x00, 0b00000000, 0x05,
        0x02, 0x00, 0b00000000, 0x05,
        0x09, 0x00,
        21, 0, 0b00000000, 1,
    ]);
    let add_func = vm.write_function(func).unwrap();
    let main: Vec<u8> = vec![
        19, 0, 0b00000000, add_func as u8,
        0x00, 0x00,
        255, 255, 255, 255,
    ];
    assert_eq!(vm.run_program(main), RunEnd::Finished(Ok(())));
    let added = vm.stack_pop(false).unwrap();
    let typ = vm.read_object_type(added).unwrap().id.clone();
    assert_eq!(vm.read_object(added).unwrap(), &vec![10]);
    assert_eq!(typ, "byte");
}

#[test]
fn test_cal_ret_types() {
    let mut vm = VMState::default();
    let func = Function::new(vec![PRIM_BYTE], Some(PRIM_BYTE), vec![
        0x02, 0x00, 0b00000000, 0x05,
        0x09, 0x00,
        21, 0, 0b00000000, 1,
    ]);
    let fnc = vm.write_function(func).unwrap();
    let main: Vec<u8> = vec![
        0x02, 0x00, 0b00000000, 0x05,
        19, 0, 0b00000000, fnc as u8,
        19, 0, 0b00000000, fnc as u8,
        19, 0, 0b00000000, fnc as u8,
        0x00, 0x00,
        255, 255, 255, 255,
    ];
    assert_eq!(vm.run_program(main), RunEnd::Finished(Ok(())));
    let added = vm.stack_pop(false).unwrap();
    let typ = vm.read_object_type(added).unwrap().id.clone();
    assert_eq!(vm.read_object(added).unwrap(), &vec![20]);
    assert_eq!(typ, "byte");
}

#[test]
fn test_call_inner_function() {
    let mut vm = VMState::default();
    let func_get_2 = Function::new(vec![], Some(PRIM_BYTE), vec![
        0x02, 0x00, 0b00000000, 0x02,
        21, 0, 0b00000000, 1,
    ]);
    let fnc_get_2 = vm.write_function(func_get_2).unwrap();
    let func_add_5 = Function::new(vec![PRIM_BYTE], Some(PRIM_BYTE), vec![
        0x02, 0x00, 0b00000000, 0x03,
        19, 0, 0b00000000, fnc_get_2 as u8,
        0x09, 0x00,
        0x09, 0x00,
        21, 0, 0b00000000, 1,
    ]);
    let fnc_add_5 = vm.write_function(func_add_5).unwrap();
    let main: Vec<u8> = vec![
        0x02, 0x00, 0b00000000, 0x05,
        19, 0, 0b00000000, fnc_add_5 as u8,
        19, 0, 0b00000000, fnc_add_5 as u8,
        19, 0, 0b00000000, fnc_add_5 as u8,
        0x00, 0x00,
        255, 255, 255, 255,
    ];
    assert_eq!(vm.run_program(main), RunEnd::Finished(Ok(())));
    let added = vm.stack_pop(false).unwrap();
    let typ = vm.read_object_type(added).unwrap().id.clone();
    assert_eq!(vm.read_object(added).unwrap(), &vec![20]);
    assert_eq!(typ, "byte");
}

#[test]
fn code_start_spans_several_bytes() {
    let t = ObjectType { size: 1, types: vec![], pass_by: PassBy::Value, id: "x".repeat(300) };
    let p = Program::new(0, 0, 0, vec![7, 8], vec![t]);
    let bytes = p.to_bytes();
    assert_eq!(bytes.len(), 22 + 313 + 2);
    assert_eq!(&bytes[0..8], &[0x4F, 0x01, 0, 0, 0, 0, 0, 0]);
    assert_eq!(&bytes[335..], &[7, 8]);
}
