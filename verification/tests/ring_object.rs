use lzfse_rust::ring::{Ring, RingBox, RingSize, RingType, OVERMATCH_LEN};
use lzfse_rust::types::Idx;

#[derive(Copy, Clone, Debug)]
struct T;

impl RingSize for T {
    const RING_SIZE: u32 = 0x0100;
}

impl RingType for T {
    const RING_LIMIT: u32 = 0x0040;
}

// Cycling match_index, match_distance and match_len combinations.
#[test]
fn object_match_inc_1() {
    let mut ring_box = RingBox::<T>::default();
    let mut ring = Ring::from(&mut ring_box);
    for match_index in 0x0000..0x0100 {
        for match_distance in 0x0001..0x0100 {
            ring.nominal_slice_mut().fill(0xFF);
            for n in 0..match_distance {
                ring.nominal_slice_mut()[(match_index + n) % 0x0100] = (n + 1) as u8;
            }
            let index = match_index + match_distance;
            for match_len in 0..0x0100 - match_distance {
                ring.head_copy_out();
                ring.tail_copy_out();
                let n = ring.match_inc_coarse::<0>(
                    (Idx::new(index as u32), Idx::new(match_index as u32)),
                    0x100,
                );
                assert_eq!(n, match_len);
                ring.nominal_slice_mut()[(index + match_len) % 0x0100] =
                    (match_len % match_distance + 1) as u8;
            }
        }
    }
}

// Cycling match_index, match_distance combinations with overmatch limit checking.
#[test]
fn object_match_inc_2() {
    let mut ring_box = RingBox::<T>::default();
    let mut ring = Ring::from(&mut ring_box);
    for match_index in 0x0000..0x0100 {
        for match_distance in 0x0001..0x0100 {
            ring.nominal_slice_mut().fill(0xFF);
            for n in 0..match_distance {
                ring.nominal_slice_mut()[(match_index + n) % 0x0100] = (n + 1) as u8;
            }
            let index = match_index + match_distance;
            for match_len in 0..0x0100 - match_distance {
                ring.nominal_slice_mut()[(index + match_len) % 0x0100] =
                    (match_len % match_distance + 1) as u8;
            }
            ring.head_copy_out();
            ring.tail_copy_out();
            let match_len = 0x0100 - match_distance;
            let n = ring.match_inc_coarse::<0>(
                (Idx::new(index as u32), Idx::new(match_index as u32)),
                0,
            );
            assert!(n <= match_len);
            assert!(n <= OVERMATCH_LEN);
            let n = ring.match_inc_coarse::<4>(
                (Idx::new(index as u32), Idx::new(match_index as u32)),
                0,
            );
            assert!(n <= match_len + 4);
            assert!(n <= 4 + OVERMATCH_LEN);
        }
    }
}

// Cycling match_index, match_distance and match_len combinations.
#[test]
fn object_match_dec_1() {
    let mut ring_box = RingBox::<T>::default();
    let mut ring = Ring::from(&mut ring_box);
    for match_index in 0x0000..0x0100usize {
        for match_distance in 0x0001..0x0100 {
            ring.nominal_slice_mut().fill(0xFF);
            for n in 1..=match_distance {
                ring.nominal_slice_mut()[(match_index.wrapping_sub(n)) % 0x0100] = n as u8;
            }
            let index = match_index.wrapping_sub(match_distance);
            for match_len in 0..0x0100 - match_distance {
                ring.head_copy_out();
                ring.tail_copy_out();
                let n = ring.match_dec_coarse::<0>(
                    (Idx::new(index as u32), Idx::new(match_index as u32)),
                    0x100,
                );
                assert_eq!(n, match_len);
                ring.nominal_slice_mut()[index.wrapping_sub(match_len + 1) % 0x0100] =
                    (match_len % match_distance + 1) as u8;
            }
        }
    }
}

// Cycling match_index, match_distance combinations with overmatch limit checking.
#[test]
fn object_match_dec_2() {
    let mut ring_box = RingBox::<T>::default();
    let mut ring = Ring::from(&mut ring_box);
    for match_index in 0x0000..0x0100usize {
        for match_distance in 0x0001..0x0100 {
            ring.nominal_slice_mut().fill(0xFF);
            for n in 1..=match_distance {
                ring.nominal_slice_mut()[(match_index.wrapping_sub(n)) % 0x0100] = n as u8;
            }
            let index = match_index.wrapping_sub(match_distance);
            for match_len in 0..0x0100 - match_distance {
                ring.nominal_slice_mut()[index.wrapping_sub(match_len + 1) % 0x0100] =
                    (match_len % match_distance + 1) as u8;
            }
            ring.head_copy_out();
            ring.tail_copy_out();
            let match_len = 0x0100 - match_distance;
            let n = ring.match_dec_coarse::<0>(
                (Idx::new(index as u32), Idx::new(match_index as u32)),
                0,
            );
            assert!(n <= match_len);
            assert!(n <= OVERMATCH_LEN);
            let n = ring.match_dec_coarse::<4>(
                (Idx::new(index as u32), Idx::new(match_index as u32)),
                0,
            );
            assert!(n <= match_len + 4);
            assert!(n <= 4 + OVERMATCH_LEN);
        }
    }
}

#[test]
fn shadows_copy_and_compare() {
    let mut ring_box = RingBox::<T>::default();
    let mut ring = Ring::from(&mut ring_box);
    for (i, b) in ring.nominal_slice_mut().iter_mut().enumerate() {
        *b = i as u8;
    }
    assert!(!ring.head_shadowed());
    assert!(!ring.tail_shadowed());
    ring.head_copy_out();
    ring.tail_copy_out();
    assert!(ring.head_shadowed());
    assert!(ring.tail_shadowed());
    ring.nominal_slice_mut()[0] = 0xAA;
    assert!(!ring.head_shadowed());
    assert!(ring.head_shadowed_len(0));
    ring.head_copy_in();
    assert_eq!(ring.nominal_slice()[0], 0);
    ring.nominal_slice_mut()[0xFF] = 0xAA;
    assert!(ring.tail_shadowed_len(0x3F));
    assert!(!ring.tail_shadowed());
    ring.tail_copy_in();
    assert_eq!(ring.nominal_slice()[0xFF], 0xFF);
}

#[test]
fn quads_wrap_into_the_head_shadow() {
    let mut ring_box = RingBox::<T>::default();
    let mut ring = Ring::from(&mut ring_box);
    ring.set_quad_index(0, 0x0403_0201);
    ring.head_copy_out();
    ring.set_quad_index(0xFE, 0x0807_0605);
    assert_eq!(ring.get_u32(Idx::new(0xFE)), 0x0807_0605);
    assert_eq!(ring.get_u32(Idx::new(0x1FE)), 0x0807_0605);
    assert_eq!(ring.nominal_slice()[0xFE], 0x05);
    assert_eq!(ring.nominal_slice()[0xFF], 0x06);
    ring.set_quad_index(0xFF, 0x0c0b_0a09);
    assert_eq!(ring.get_u32(Idx::new(0xFF)), 0x0c0b_0a09);
    assert_eq!(ring.get_u32(Idx::new(0)), 0x0403_0201);
    let view = ring.view(Idx::new(1), Idx::new(2));
    assert_eq!(view.head, Idx::new(1));
    assert_eq!(view.tail, Idx::new(2));
}

#[test]
fn coarse_scans_stop_within_the_overmatch_bound() {
    let mut ring_box = RingBox::<T>::default();
    let mut ring = Ring::from(&mut ring_box);
    let idxs = (Idx::new(0x80), Idx::new(0));
    ring.nominal_slice_mut().fill(0);
    ring.nominal_slice_mut()[0x80 + 70] = 1;
    ring.head_copy_out();
    ring.tail_copy_out();
    assert_eq!(ring.match_inc_coarse::<0>(idxs, 0x100), 70);
    let n = ring.match_inc_coarse::<0>(idxs, 9);
    assert!(n <= 9 + OVERMATCH_LEN);
    assert_eq!(n, 9);
    ring.nominal_slice_mut().fill(0);
    ring.nominal_slice_mut()[0x80 - 1 - 70] = 2;
    ring.head_copy_out();
    ring.tail_copy_out();
    assert_eq!(ring.match_dec_coarse::<0>(idxs, 0x100), 70);
    let n = ring.match_dec_coarse::<0>(idxs, 9);
    assert!(n <= 9 + OVERMATCH_LEN);
    assert_eq!(n, 9);
}

#[test]
fn ring_derefs_to_its_nominal_bytes() {
    let mut ring_box = RingBox::<T>::default();
    let mut ring = Ring::from(&mut ring_box);
    ring.nominal_slice_mut()[0x10] = 7;
    assert_eq!(ring.len(), 0x100);
    assert_eq!(ring[0x10], 7);
    assert_eq!(&ring[..], ring.nominal_slice());
}
