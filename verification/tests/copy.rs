use lzfse_rust::kit::{CopyType, CopyTypeIndex, CopyTypeLong, CopyTypePtr, W08, W16, WIDE};
use lzfse_rust::ops::{CopyLong, CopyShort, Limit, Skip};
use lzfse_rust::types::{ShortBytes, WideBytesMut};

#[test]
fn copy_long_test_seq() {
    let mut bytes = [0u8; 1 + WIDE];
    let vec: Vec<u8> = (0u8..=255).collect();
    let mut literals = vec.as_slice();
    for i in 0..=255 {
        let dst = WideBytesMut::from_bytes(&mut bytes, 1);
        literals.read_long(dst);
        assert_eq!(bytes[0], i);
    }
}

#[allow(clippy::needless_range_loop)]
#[test]
fn copy_long_test_inc() {
    let mut bytes = [0u8; 255 + WIDE];
    for i in 0..=255 {
        let vec: Vec<u8> = (0u8..=255).collect();
        let mut literals = vec.as_slice();
        let dst = WideBytesMut::from_bytes(&mut bytes, i);
        literals.read_long(dst);
        for j in 0..i {
            assert_eq!(bytes[j], j as u8);
        }
    }
}

#[test]
fn copy_short_test_seq() {
    let mut bytes = [0u8; 1 + WIDE];
    let vec: Vec<u8> = (0u8..=255).collect();
    let mut literals = vec.as_slice();
    for i in 0..=255 {
        let dst = WideBytesMut::from_bytes(&mut bytes, 1);
        literals.read_short::<CopyTypeIndex>(dst);
        assert_eq!(bytes[0], i);
    }
}

#[allow(clippy::needless_range_loop)]
#[test]
fn copy_short_test_inc() {
    let mut bytes = [0u8; 255 + WIDE];
    for i in 0..=255 {
        let vec: Vec<u8> = (0u8..=255).collect();
        let mut literals = vec.as_slice();
        let dst = WideBytesMut::from_bytes(&mut bytes, i);
        literals.read_short::<CopyTypeIndex>(dst);
        for j in 0..i {
            assert_eq!(bytes[j], j as u8);
        }
    }
}

#[test]
fn wide_copy_index_rounds_up_to_whole_chunks() {
    let src: Vec<u8> = (1u8..=40).collect();
    let mut dst = [0u8; 40];
    CopyTypeIndex::wide_copy::<W08>(&src, &mut dst, 9);
    // Two chunks of eight bytes.
    assert_eq!(&dst[..16], &src[..16]);
    assert!(dst[16..].iter().all(|&b| b == 0));
    let mut dst = [0u8; 40];
    CopyTypePtr::wide_copy::<W08>(&src, &mut dst, 0);
    // At least one chunk.
    assert_eq!(&dst[..8], &src[..8]);
    assert!(dst[8..].iter().all(|&b| b == 0));
}

#[test]
fn wide_copy_stops_at_the_room_available() {
    let src: Vec<u8> = (1u8..=12).collect();
    let mut dst = [0u8; 20];
    // Chunks of sixteen: none fits in the twelve source bytes, so exactly `len` bytes move.
    CopyTypeIndex::wide_copy::<W16>(&src, &mut dst, 10);
    assert_eq!(&dst[..10], &src[..10]);
    assert!(dst[10..].iter().all(|&b| b == 0));
}

#[test]
fn wide_copy_long_uses_blocks_then_chunks() {
    let src: Vec<u8> = (0u8..=255).collect();
    let mut dst = [0u8; 256];
    // Block of 64, then chunks of 8 up to 72: 70 bytes asked, 72 copied.
    CopyTypeLong::wide_copy::<W08>(&src, &mut dst, 70);
    assert_eq!(&dst[..72], &src[..72]);
    assert!(dst[72..].iter().all(|&b| b == 0));
}

#[test]
fn short_bytes_copy_into_the_slack() {
    let src: Vec<u8> = (1u8..=24).collect();
    let mut literals = ShortBytes::<&[u8], W08>::from_bytes(&src, 3);
    let mut dst = [0u8; 16];
    literals.copy_short_raw::<CopyTypeIndex>(&mut dst, 3);
    assert_eq!(&dst[..8], &src[..8]);
    assert!(dst[8..].iter().all(|&b| b == 0));
    literals.skip(2);
    assert_eq!(literals.as_slice(), &[3]);
    let mut dst = [0u8; 16];
    literals.copy_long_raw(&mut dst, 1);
    assert_eq!(&dst[..8], &src[2..10]);
}

#[test]
fn slices_skip_and_limit() {
    let data = [1u8, 2, 3, 4, 5];
    let mut s: &[u8] = &data;
    s.skip(2);
    assert_eq!(s, &[3, 4, 5]);
    s.limit(9);
    assert_eq!(s, &[3, 4, 5]);
    s.limit(1);
    assert_eq!(s, &[3]);
    let mut data = [1u8, 2, 3, 4, 5];
    {
        let mut m: &mut [u8] = &mut data;
        m.skip(1);
        m.limit(2);
        m[0] = 9;
        m[1] = 8;
    }
    assert_eq!(data, [1, 9, 8, 4, 5]);
}

#[test]
fn wide_bytes_mut_write_data_advances() {
    let mut bytes = [0u8; 4 + WIDE];
    let mut w = WideBytesMut::from_bytes(&mut bytes, 4);
    w.write_data(&[1, 2]);
    w.write_data(&[3]);
    assert_eq!(w.as_nominal(), &[0]);
    let full = w.into_full_slice();
    assert_eq!(full.len(), 1 + WIDE);
    assert_eq!(&bytes[..4], &[1, 2, 3, 0]);
}

#[test]
fn short_copies_stay_within_one_width_of_len() {
    let src: Vec<u8> = (1u8..=80).collect();
    let literals = ShortBytes::<&[u8], W16>::from_bytes(&src, 40);
    assert_eq!(&literals[..], &src[..40]);
    let mut dst = [0u8; 80];
    literals.copy_short_raw::<CopyTypeLong>(&mut dst, 5);
    assert_eq!(&dst[..16], &src[..16]);
    assert!(dst[5 + WIDE..].iter().all(|&b| b == 0));
    let mut dst = [0u8; 80];
    literals.copy_long_raw(&mut dst, 33);
    assert_eq!(&dst[..48], &src[..48]);
    assert!(dst[33 + WIDE..].iter().all(|&b| b == 0));
}

#[test]
fn wide_bytes_mut_derefs_to_its_nominal_bytes() {
    let mut bytes = [5u8; 3 + WIDE];
    let w = WideBytesMut::from_bytes(&mut bytes, 3);
    assert_eq!(&w[..], &[5, 5, 5]);
    assert_eq!(w.len(), 3);
}
