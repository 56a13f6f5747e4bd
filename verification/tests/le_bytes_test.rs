use lib::le_bytes::{read_le, truncate_to, write_le};

#[test]
fn write_then_read_little_endian() {
    let mut mem = vec![0u8; 10];
    write_le(&mut mem, 1, 0x1122334455667788, 8);
    assert_eq!(mem, vec![0, 0x88, 0x77, 0x66, 0x55, 0x44, 0x33, 0x22, 0x11, 0]);
    assert_eq!(read_le(&mem, 1, 8), 0x1122334455667788);
    assert_eq!(read_le(&mem, 1, 4), 0x55667788);
    assert_eq!(read_le(&mem, 1, 2), 0x7788);
    assert_eq!(read_le(&mem, 1, 1), 0x88);
}

#[test]
fn truncation() {
    assert_eq!(truncate_to(0x1234_5678_9ABC_DEF0, 1), 0xF0);
    assert_eq!(truncate_to(0x1234_5678_9ABC_DEF0, 2), 0xDEF0);
    assert_eq!(truncate_to(0x1234_5678_9ABC_DEF0, 4), 0x9ABC_DEF0);
    assert_eq!(truncate_to(0x1234_5678_9ABC_DEF0, 8), 0x1234_5678_9ABC_DEF0);
}
