use lzfse_rust::types::Idx;

#[test]
fn idx_advance_then_diff() {
    let a = Idx::new(0xFFFF_FFF0);
    let b = a.advance(0x20);
    assert_eq!(b.get(), 0x10);
    assert_eq!(b.diff(a), 0x20);
    assert_eq!(a.diff(b), -0x20);
}

#[test]
fn idx_from_usize_wraps() {
    assert_eq!(Idx::from_usize(5).get(), 5);
    assert_eq!(Idx::from_usize(0x1_0000_0007).get(), 7);
}

#[test]
fn idx_diff_half_way() {
    let a = Idx::new(0);
    assert_eq!(Idx::new(0x7FFF_FFFF).diff(a), i32::MAX);
    assert_eq!(Idx::new(0x8000_0000).diff(a), i32::MIN);
}
