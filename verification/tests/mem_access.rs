//! The bounds-checked linear-memory accessor.

use aurorashell::WireError;
use aurorashell::mem::{
    read_bytes, read_u16_be, read_u32_be, read_u32_le, read_u64_be, read_u64_le, read_u8,
};

#[test]
fn read_bytes_is_all_or_nothing() {
    let m = vec![1u8, 2, 3, 4, 5];
    assert_eq!(read_bytes(&m, 1, 3).unwrap(), vec![2, 3, 4]);
    // A range touching the end is fine.
    assert_eq!(read_bytes(&m, 3, 2).unwrap(), vec![4, 5]);
    assert_eq!(read_bytes(&m, 0, 0).unwrap(), Vec::<u8>::new());
    assert_eq!(read_bytes(&m, 5, 0).unwrap(), Vec::<u8>::new());
    // One byte past the end fails, with nothing read.
    assert_eq!(read_bytes(&m, 4, 2), Err(WireError::OutOfBounds));
    assert_eq!(read_bytes(&m, 6, 0), Err(WireError::OutOfBounds));
    assert_eq!(read_bytes(&m, 0, 6), Err(WireError::OutOfBounds));
}

#[test]
fn truncated_reads_fail_at_every_cut() {
    let m: Vec<u8> = (0u8..16).collect();
    for cut in 0..8 {
        let shorter: Vec<u8> = m[..cut].to_vec();
        assert!(read_u64_be(&shorter, 0).is_err(), "cut {}", cut);
    }
    assert!(read_u64_be(&m[..8].to_vec(), 0).is_ok());
}

#[test]
fn fixed_endian_reads() {
    let m = vec![0x12u8, 0x34, 0x56, 0x78, 0x9A, 0xBC, 0xDE, 0xF0];
    assert_eq!(read_u8(&m, 0).unwrap(), 0x12);
    assert_eq!(read_u16_be(&m, 0).unwrap(), 0x1234);
    assert_eq!(read_u32_be(&m, 0).unwrap(), 0x1234_5678);
    assert_eq!(read_u64_be(&m, 0).unwrap(), 0x1234_5678_9ABC_DEF0);
    assert_eq!(read_u32_le(&m, 0).unwrap(), 0x7856_3412);
    assert_eq!(read_u64_le(&m, 0).unwrap(), 0xF0DE_BC9A_7856_3412);
    // Unaligned offsets are fine.
    assert_eq!(read_u16_be(&m, 3).unwrap(), 0x789A);
    assert_eq!(read_u32_le(&m, 1).unwrap(), 0x9A78_5634);
}
