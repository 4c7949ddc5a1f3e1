use disjoint_poly::{StructId, StructInfo, VOffset};

#[test]
fn packs_and_unpacks() {
    let o = VOffset::new(4, 1, 16);
    assert_eq!(o.base_offset(), 16);
    assert_eq!(o.offset(), 16);
    let o = VOffset::new(3, 5, 100);
    assert_eq!(o.base_offset(), 40);
    assert_eq!(o.offset(), 100);
}

#[test]
fn new_offset_keeps_origin() {
    let o = VOffset::new(3, 5, 100).new_offset(64);
    assert_eq!(o.base_offset(), 40);
    assert_eq!(o.offset(), 64);
}

#[test]
fn zero_origin() {
    let o = VOffset::new(0, 0, 0);
    assert_eq!(o.base_offset(), 0);
    assert_eq!(o.offset(), 0);
    let o = VOffset::new(200, 0, 12);
    assert_eq!(o.base_offset(), 0);
    assert_eq!(o.offset(), 12);
}

#[test]
fn largest_offset() {
    let max = (1i64 << 48) as isize - 1;
    let o = VOffset::new(47, 1, max);
    assert_eq!(o.base_offset(), 1isize << 47);
    assert_eq!(o.offset(), max);
}

#[test]
fn struct_info_packs_size_and_alignment() {
    let a = StructInfo::new(StructId::new(1), 24, 8, vec![(StructId::new(1), 0)], false);
    assert_eq!(a.size(), 24);
    assert_eq!(a.log2_align(), 3);
    assert!(!a.is_clonable());
    let b = StructInfo::new(StructId::new(2), 3, 1, Vec::new(), true);
    assert_eq!(b.log2_align(), 0);
    assert_eq!(b.size(), 3);
    let c = StructInfo::new(StructId::new(3), (1usize << 56) - 1, 1usize << 40, Vec::new(), true);
    assert_eq!(c.size(), (1usize << 56) - 1);
    assert_eq!(c.log2_align(), 40);
}
