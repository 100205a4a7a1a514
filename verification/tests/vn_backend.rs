use lzfse_rust::vn::backend::VnBackend;
use lzfse_rust::vn::block::VnBlock;
use lzfse_rust::vn::opc;

fn started() -> (VnBackend, Vec<u8>) {
    let mut backend = VnBackend::default();
    let mut dst: Vec<u8> = Vec::new();
    backend.init(&mut dst, Some(100)).unwrap();
    (backend, dst)
}

#[test]
fn vn_init_writes_blank_header() {
    let (_, dst) = started();
    assert_eq!(dst, vec![0u8; 12]);
}

#[test]
fn vn_init_without_length_fails() {
    let mut backend = VnBackend::default();
    let mut dst: Vec<u8> = vec![7, 8];
    assert!(backend.init(&mut dst, None).is_err());
    assert_eq!(dst, vec![7, 8]);
}

#[test]
fn vn_small_literal_run() {
    let (mut backend, mut dst) = started();
    backend.push_literals(&mut dst, &[1u8, 2, 3][..]).unwrap();
    assert_eq!(&dst[12..], &[0xE3, 1, 2, 3]);
}

#[test]
fn vn_large_literal_runs() {
    let (mut backend, mut dst) = started();
    let literals: Vec<u8> = (0..300u32).map(|i| (i % 251) as u8).collect();
    backend.push_literals(&mut dst, literals.as_slice()).unwrap();
    let out = &dst[12..];
    assert_eq!(out.len(), 2 + 271 + 2 + 29);
    assert_eq!(&out[..2], &[0xE0, 255]);
    assert_eq!(&out[2..273], &literals[..271]);
    assert_eq!(&out[273..275], &[0xE0, 13]);
    assert_eq!(&out[275..], &literals[271..]);
}

#[test]
fn vn_small_distance_match() {
    let (mut backend, mut dst) = started();
    backend.push_match(&mut dst, &[][..], 5, 1).unwrap();
    assert_eq!(&dst[12..], &[0x10, 0x01]);
}

#[test]
fn vn_previous_distance_match() {
    let (mut backend, mut dst) = started();
    backend.push_match(&mut dst, &[][..], 5, 1).unwrap();
    backend.push_match(&mut dst, &[9u8][..], 20, 1).unwrap();
    assert_eq!(&dst[14..], &[0x6E, 9, 0xFC]);
}

#[test]
fn vn_previous_distance_match_without_literals() {
    let (mut backend, mut dst) = started();
    backend.push_match(&mut dst, &[][..], 5, 1).unwrap();
    backend.push_match(&mut dst, &[][..], 7, 1).unwrap();
    assert_eq!(&dst[14..], &[0xF7]);
}

#[test]
fn vn_medium_distance_match() {
    let (mut backend, mut dst) = started();
    backend.push_match(&mut dst, &[4u8, 5][..], 20, 0x700).unwrap();
    assert_eq!(&dst[12..], &[0xB0, 0x03, 0x1C, 4, 5, 0xFE]);
}

#[test]
fn vn_large_distance_match() {
    let (mut backend, mut dst) = started();
    backend.push_match(&mut dst, &[][..], 40, 0x4000).unwrap();
    assert_eq!(&dst[12..], &[0x3F, 0x00, 0x40, 0xF0, 14]);
}

#[test]
fn vn_match_after_four_literals() {
    let (mut backend, mut dst) = started();
    backend.push_match(&mut dst, &[1u8, 2, 3, 4][..], 3, 2).unwrap();
    assert_eq!(&dst[12..], &[0xE4, 1, 2, 3, 4, 0x00, 0x02]);
}

#[test]
fn vn_finalize_block() {
    let (mut backend, mut dst) = started();
    backend.push_literals(&mut dst, &[1u8, 2, 3][..]).unwrap();
    backend.finalize(&mut dst).unwrap();
    assert_eq!(
        dst,
        vec![
            0x62, 0x76, 0x78, 0x6e, 3, 0, 0, 0, 12, 0, 0, 0, 0xE3, 1, 2, 3, 6, 0, 0, 0, 0, 0, 0,
            0,
        ]
    );
}

#[test]
fn vn_finalize_counts_matches() {
    let (mut backend, mut dst) = started();
    backend.push_match(&mut dst, &[1u8][..], 5, 1).unwrap();
    backend.finalize(&mut dst).unwrap();
    assert_eq!(&dst[..12], &[0x62, 0x76, 0x78, 0x6e, 6, 0, 0, 0, 11, 0, 0, 0]);
}

#[test]
fn vn_block_store() {
    let mut buf = vec![0xAAu8; 14];
    VnBlock::new(0x0102_0304, 9).store(&mut buf);
    assert_eq!(buf, vec![0x62, 0x76, 0x78, 0x6e, 4, 3, 2, 1, 9, 0, 0, 0, 0xAA, 0xAA]);
}

#[test]
fn vn_opcode_encodings() {
    assert_eq!(opc::encode_sml_l(3), 0xE3);
    assert_eq!(opc::encode_lrg_l(16), 0x00E0);
    assert_eq!(opc::encode_sml_m(15), 0xFF);
    assert_eq!(opc::encode_lrg_m(271), 0xFFF0);
    assert_eq!(opc::match_len_x(0), 10);
    assert_eq!(opc::match_len_x(3), 4);
}

#[test]
fn vn_short_match_at_previous_distance() {
    let (mut backend, mut dst) = started();
    backend.push_match(&mut dst, &[][..], 5, 1).unwrap();
    backend.push_match(&mut dst, &[][..], 2, 1).unwrap();
    backend.push_match(&mut dst, &[1u8, 2, 3, 4][..], 1, 1).unwrap();
    assert_eq!(&dst[14..], &[0xF2, 0xE4, 1, 2, 3, 4, 0xF1]);
}
