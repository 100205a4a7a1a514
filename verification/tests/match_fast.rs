use lzfse_rust::match_kit::{
    fast_match_dec, fast_match_inc, fast_match_inc_unchecked, nclz_bytes, nctz_bytes,
};

#[test]
fn nclz_and_nctz_count_equal_bytes() {
    assert_eq!(nclz_bytes(0), 8);
    assert_eq!(nclz_bytes(1), 0);
    assert_eq!(nclz_bytes(0x0100), 1);
    assert_eq!(nclz_bytes(0x8000_0000_0000_0000), 7);
    assert_eq!(nctz_bytes(0), 8);
    assert_eq!(nctz_bytes(0x8000_0000_0000_0000), 0);
    assert_eq!(nctz_bytes(0x00ff_0000_0000_0000), 1);
    assert_eq!(nctz_bytes(1), 7);
}

fn build_match_inc(buf: &mut [u8], index: usize, match_index: usize, match_len: usize) {
    for (i, b) in buf.iter_mut().enumerate() {
        *b = (i % 251) as u8;
    }
    for k in 0..match_len {
        buf[index + k] = buf[match_index + k];
    }
    if index + match_len < buf.len() {
        buf[index + match_len] = buf[match_index + match_len].wrapping_add(1);
    }
}

fn build_match_dec(buf: &mut [u8], index: usize, match_index: usize, match_len: usize) {
    for (i, b) in buf.iter_mut().enumerate() {
        *b = (i % 251) as u8;
    }
    if match_len < match_index {
        buf[index - 1 - match_len] = buf[match_index - 1 - match_len].wrapping_add(1);
    }
    for k in (0..match_len).rev() {
        buf[index - 1 - k] = buf[match_index - 1 - k];
    }
}

#[test]
fn fast_match_inc_finds_first_difference() {
    let mut buf = [0u8; 64];
    for index in 1..buf.len() {
        let max = buf.len() - index;
        for match_index in 0..index {
            for match_len in 0..max {
                build_match_inc(&mut buf, index, match_index, match_len);
                for len in 0..=match_len {
                    assert_eq!(fast_match_inc(&buf, index, match_index, len, max), match_len);
                }
            }
        }
    }
}

#[test]
fn fast_match_inc_caps_at_max() {
    let buf = [7u8; 64];
    assert_eq!(fast_match_inc(&buf, 10, 0, 0, 54), 54);
    assert_eq!(fast_match_inc(&buf, 10, 0, 3, 20), 20);
    assert_eq!(fast_match_inc_unchecked(&buf, 10, 0, 30, 20), 20);
}

#[test]
fn fast_match_dec_finds_first_difference() {
    let mut buf = [0u8; 64];
    for index in 1..buf.len() {
        for match_index in 0..index {
            let max = match_index;
            for match_len in 0..max {
                build_match_dec(&mut buf, index, match_index, match_len);
                assert_eq!(fast_match_dec(&buf, index, match_index, max), match_len);
            }
            build_match_dec(&mut buf, index, match_index, max);
            assert_eq!(fast_match_dec(&buf, index, match_index, max), max);
        }
    }
}
