use gamedig::buffer::Buffer;
use gamedig::error::GDError;

#[test]
fn read_u8_consumes_one_byte() {
    let mut b = Buffer::new(vec![0x2A, 0x99]);
    assert_eq!(b.read_u8().unwrap(), 0x2A);
    assert_eq!(b.available(), 1);
    assert_eq!(b.read_u8().unwrap(), 0x99);
    assert_eq!(b.available(), 0);
}

#[test]
fn read_i8_two_complement() {
    let mut b = Buffer::new(vec![0xFF, 0x80, 0x7F]);
    assert_eq!(b.read_i8().unwrap(), -1);
    assert_eq!(b.read_i8().unwrap(), -128);
    assert_eq!(b.read_i8().unwrap(), 127);
}

#[test]
fn read_u16_both_orders() {
    let mut b = Buffer::new(vec![0x01, 0x02, 0x01, 0x02]);
    assert_eq!(b.read_u16_be().unwrap(), 0x0102);
    assert_eq!(b.read_u16_le().unwrap(), 0x0201);
}

#[test]
fn read_i16_negative() {
    let mut b = Buffer::new(vec![0xFF, 0xFE, 0xFE, 0xFF]);
    assert_eq!(b.read_i16_be().unwrap(), -2);
    assert_eq!(b.read_i16_le().unwrap(), -2);
}

#[test]
fn read_u32_both_orders() {
    let mut b = Buffer::new(vec![0xDE, 0xAD, 0xBE, 0xEF, 0xEF, 0xBE, 0xAD, 0xDE]);
    assert_eq!(b.read_u32_be().unwrap(), 0xDEADBEEF);
    assert_eq!(b.read_u32_le().unwrap(), 0xDEADBEEF);
}

#[test]
fn read_i32_negative() {
    let mut b = Buffer::new(vec![0xFF, 0xFF, 0xFF, 0xFB]);
    assert_eq!(b.read_i32_be().unwrap(), -5);
}

#[test]
fn read_u64_and_i64() {
    let mut b = Buffer::new(vec![
        0x01, 0x02, 0x03, 0x04, 0x05, 0x06, 0x07, 0x08, 0xFF, 0xFF, 0xFF, 0xFF, 0xFF, 0xFF, 0xFF,
        0xFF,
    ]);
    assert_eq!(b.read_u64_be().unwrap(), 0x0102030405060708);
    assert_eq!(b.read_i64_le().unwrap(), -1);
}

#[test]
fn read_u128_both_orders() {
    let bytes: Vec<u8> = (1..=16).collect();
    let mut b = Buffer::new(bytes.clone());
    assert_eq!(b.read_u128_be().unwrap(), 0x0102030405060708090A0B0C0D0E0F10);
    let mut b = Buffer::new(bytes);
    assert_eq!(b.read_u128_le().unwrap(), 0x100F0E0D0C0B0A090807060504030201);
}

#[test]
fn read_i128_negative() {
    let mut b = Buffer::new(vec![0xFF; 16]);
    assert_eq!(b.read_i128_be().unwrap(), -1);
    let mut b = Buffer::new(vec![0xFF; 16]);
    assert_eq!(b.read_i128_le().unwrap(), -1);
}

#[test]
fn underflow_reports_counts_and_leaves_position() {
    let mut b = Buffer::new(vec![0x01, 0x02, 0x03]);
    assert_eq!(b.read_u16_be().unwrap(), 0x0102);
    // One byte left: a four-byte read must fail with the exact counts and
    // a snapshot, and the cursor must not move.
    match b.read_u32_be() {
        Err(GDError::UnderflowError { attempted, available, pos, buffer }) => {
            assert_eq!(attempted, 4);
            assert_eq!(available, 1);
            assert_eq!(pos, 2);
            assert_eq!(buffer, vec![0x01, 0x02, 0x03]);
        }
        other => panic!("expected underflow, got {:?}", other),
    }
    // The failed read consumed nothing: the remaining byte is intact.
    assert_eq!(b.read_u8().unwrap(), 0x03);
}

#[test]
fn underflow_on_empty_buffer() {
    let mut b = Buffer::new(vec![]);
    match b.read_u8() {
        Err(GDError::UnderflowError { attempted, available, pos, buffer }) => {
            assert_eq!(attempted, 1);
            assert_eq!(available, 0);
            assert_eq!(pos, 0);
            assert!(buffer.is_empty());
        }
        other => panic!("expected underflow, got {:?}", other),
    }
}

#[test]
fn get_inner_slice_returns_exact_bytes() {
    let mut b = Buffer::new(vec![9, 8, 7, 6]);
    assert_eq!(b._get_inner_slice(3).unwrap(), vec![9, 8, 7]);
    assert_eq!(b.available(), 1);
}

#[test]
fn remaining_bytes_after_reads() {
    let mut b = Buffer::new(vec![1, 2, 3, 4, 5]);
    b.read_u16_be().unwrap();
    assert_eq!(b.remaining_bytes(), vec![3, 4, 5]);
}
