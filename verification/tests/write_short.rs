use lzfse_rust::ops::{Allocate, Pos, Truncate, WriteShort};
use lzfse_rust::types::Idx;
use lzfse_rust::WIDE;

#[test]
fn vec_0() -> std::io::Result<()> {
    let mut vec = vec![0, 1, 2, 3, 4];
    let bytes = vec.short_block(0)?;
    assert_eq!(bytes.len(), 0);
    assert_eq!(vec, vec![0, 1, 2, 3, 4]);
    Ok(())
}

#[test]
fn vec_1() -> std::io::Result<()> {
    let mut vec = vec![0, 1, 2, 3, 4];
    let bytes = vec.short_block(1)?;
    assert_eq!(bytes.len(), 1);
    bytes[0] = 5;
    assert_eq!(vec, vec![0, 1, 2, 3, 4, 5]);
    Ok(())
}

#[test]
fn vec_2() -> std::io::Result<()> {
    let mut vec = vec![0, 1, 2, 3, 4];
    let bytes = vec.short_block(1)?;
    bytes[0] = 5;
    let bytes = vec.short_block(2)?;
    bytes[0] = 6;
    bytes[1] = 7;
    assert_eq!(vec, vec![0, 1, 2, 3, 4, 5, 6, 7]);
    Ok(())
}

#[test]
fn vec_3() -> std::io::Result<()> {
    let mut vec = vec![0, 1, 2, 3, 4];
    vec.write_short_bytes(&[])?;
    assert_eq!(vec, vec![0, 1, 2, 3, 4]);
    Ok(())
}

#[test]
fn vec_4() -> std::io::Result<()> {
    let mut vec = vec![0, 1, 2, 3, 4];
    vec.write_short_bytes(&[5])?;
    assert_eq!(vec, vec![0, 1, 2, 3, 4, 5]);
    Ok(())
}

#[test]
fn vec_5() -> std::io::Result<()> {
    let mut vec = vec![0, 1, 2, 3, 4];
    vec.write_short_bytes(&[5])?;
    vec.write_short_bytes(&[6])?;
    assert_eq!(vec, vec![0, 1, 2, 3, 4, 5, 6]);
    Ok(())
}

#[test]
fn write_short_integers_are_little_endian() -> std::io::Result<()> {
    let mut vec: Vec<u8> = Vec::new();
    vec.write_short_u8(0x01)?;
    vec.write_short_u16(0x0302)?;
    vec.write_short_u32(0x0706_0504)?;
    vec.write_short_u64(0x0f0e_0d0c_0b0a_0908)?;
    assert_eq!(vec, (1u8..=15).collect::<Vec<u8>>());
    let mut vec: Vec<u8> = Vec::new();
    vec.write_short_u128(0x0f0e_0d0c_0b0a_0908_0706_0504_0302_0100)?;
    assert_eq!(vec, (0u8..=15).collect::<Vec<u8>>());
    let mut vec: Vec<u8> = Vec::new();
    vec.write_short_usize(0x0201)?;
    assert_eq!(vec.len(), std::mem::size_of::<usize>());
    assert_eq!(&vec[..2], &[1, 2]);
    assert!(vec[2..].iter().all(|&b| b == 0));
    Ok(())
}

#[test]
fn short_wide_block_keeps_slack_until_truncated() -> std::io::Result<()> {
    let mut vec = vec![9u8, 9];
    let start = vec.pos();
    let mut block = vec.short_wide_block(3)?;
    block.poke_at(0, &[1, 2, 3, 4]);
    assert_eq!(vec.len(), 2 + 3 + WIDE);
    assert!(Truncate::truncate(&mut vec, start.advance(3)));
    assert_eq!(vec, vec![9, 9, 1, 2, 3]);
    Ok(())
}

#[test]
fn truncate_refuses_positions_past_the_end() {
    let mut vec = vec![1u8, 2, 3];
    assert!(!Truncate::truncate(&mut vec, Idx::new(4)));
    assert_eq!(vec, vec![1, 2, 3]);
    assert!(Truncate::truncate(&mut vec, Idx::new(3)));
    assert_eq!(vec, vec![1, 2, 3]);
    assert!(Truncate::truncate(&mut vec, Idx::new(0)));
    assert_eq!(vec, Vec::<u8>::new());
    let mut vec = vec![1u8, 2, 3];
    assert!(!Truncate::truncate(&mut vec, Idx::new(u32::MAX)));
    assert_eq!(vec, vec![1, 2, 3]);
}

#[test]
fn allocate_refuses_more_than_isize_max() {
    let mut v: Vec<u8> = vec![1, 2, 3];
    let err = v.allocate(usize::MAX).unwrap_err();
    assert_eq!(err.kind(), std::io::ErrorKind::Other);
    assert_eq!(v, vec![1, 2, 3]);
    assert!(v.allocate(isize::MAX as usize - 3 + 1).is_err());
    assert!(v.allocate(16).is_ok());
    assert!(v.capacity() >= 19);
    assert_eq!(v, vec![1, 2, 3]);
}
