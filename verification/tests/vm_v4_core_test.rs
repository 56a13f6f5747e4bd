use lib::vm_v4::object::{Object, ObjectType, PassBy};
use lib::vm_v4::vm_core::VMState;

#[test]
fn store_fills_structs_and_counts_references() {
    let mut vm = VMState::default();
    assert!(vm.get_type(0).is_none());
    let word = ObjectType { size: 2, types: vec![], pass_by: PassBy::Value, id: "w".to_string() };
    assert_eq!(vm.new_type(word), 1);
    let pair = ObjectType { size: 4, types: vec![0, 0], pass_by: PassBy::Value, id: "pair".to_string() };
    assert_eq!(vm.new_type(pair), 2);
    assert_eq!(vm.get_type(1).unwrap().id, "pair");

    let a = vm.new_object_direct(Object::fresh(0, 2)).unwrap();
    let b = vm.new_object_direct(Object::fresh(0, 2)).unwrap();
    let p = vm.new_object_direct(Object::fresh(1, 4)).unwrap();
    assert_eq!((a, b, p), (0, 1, 2));

    assert!(vm.write_object(a, vec![1, 2]));
    assert!(vm.write_object(b, vec![3]));
    assert!(vm.write_object_typed(p, vec![a, b]));
    assert_eq!(vm.read_object(p), Some(&vec![1, 2, 3, 0]));
    assert!(!vm.write_object_typed(p, vec![a]));
    assert!(!vm.write_object_typed(p, vec![a, 9]));

    assert!(vm.write_object(a, vec![9, 9, 9]));
    assert_eq!(vm.read_object(a), Some(&vec![0, 0]));

    assert!(vm.inc_object_count(a));
    assert!(vm.dec_object_count(a));
    assert!(vm.read_object(a).is_some());
    assert!(vm.dec_object_count(a));
    assert!(vm.read_object(a).is_none());
    assert!(!vm.dec_object_count(a));
    assert!(!vm.inc_object_count(a));
    assert!(!vm.write_object(7, vec![]));

    assert_eq!(vm.new_object_direct(Object::fresh(0, 2)), Some(0));
}

#[test]
fn store_respects_the_memory_limit() {
    let mut vm = VMState::new(3);
    vm.new_type(ObjectType { size: 2, types: vec![], pass_by: PassBy::Value, id: "w".to_string() });
    assert_eq!(vm.new_object_direct(Object::fresh(0, 2)), Some(0));
    assert_eq!(vm.new_object_direct(Object::fresh(0, 2)), None);
}
