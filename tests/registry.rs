use disjoint_poly::dom::{
    register_struct_info, register_trait_info, register_vtables, ELEMENT, ELEMENT_DATA, HTML_IMAGE_ELEMENT,
    HTML_VIDEO_ELEMENT, NODE, NODE_DATA, TEXT_NODE,
};
use disjoint_poly::{
    struct_info, trait_info, v_table, v_table_by_id, Registry, StructId, StructInfo, TraitId, TraitInfo, VRef,
    VTable, VTableRegistryIndices, VTableRegistryTables,
};

fn s(id: u64) -> StructId {
    StructId::new(id)
}

fn t(id: u64) -> TraitId {
    TraitId::new(id)
}

struct Parts {
    structs: Vec<StructInfo>,
    traits: Vec<TraitInfo>,
    tables: VTableRegistryTables,
    indices: VTableRegistryIndices,
}

fn parts() -> Parts {
    let mut structs = Vec::new();
    register_struct_info(&mut structs);
    let mut traits = Vec::new();
    register_trait_info(&mut traits);
    let mut tables = Vec::new();
    let mut indices = Vec::new();
    register_vtables(&mut tables, &mut indices);
    Parts { structs, traits, tables, indices }
}

fn build(p: Parts) -> Option<Registry> {
    Registry::new(p.structs, p.traits, p.tables, p.indices)
}

#[test]
fn dom_registry_is_accepted() {
    assert!(build(parts()).is_some());
}

#[test]
fn empty_registry_is_accepted() {
    assert!(Registry::new(Vec::new(), Vec::new(), Vec::new(), Vec::new()).is_some());
}

#[test]
fn lookups_find_direct_and_indirect_tables() {
    let reg = build(parts()).unwrap();
    // Blocks are laid out in order: NodeData, TextNode, then two tables each.
    assert_eq!(v_table_by_id(&reg, t(NODE), s(NODE_DATA)), Some(0));
    assert_eq!(v_table_by_id(&reg, t(NODE), s(TEXT_NODE)), Some(1));
    assert_eq!(v_table_by_id(&reg, t(ELEMENT), s(ELEMENT_DATA)), Some(2));
    assert_eq!(v_table_by_id(&reg, t(NODE), s(ELEMENT_DATA)), Some(3));
    assert_eq!(v_table_by_id(&reg, t(NODE), s(HTML_VIDEO_ELEMENT)), Some(7));
    assert_eq!(v_table_by_id(&reg, t(ELEMENT), s(TEXT_NODE)), None);
    assert_eq!(v_table_by_id(&reg, t(9), s(NODE_DATA)), None);
    assert_eq!(v_table(&reg, t(ELEMENT), s(HTML_IMAGE_ELEMENT)), 4);
    let vt = reg.v_table_at(5);
    assert_eq!((vt.trait_id(), vt.struct_id(), vt.table()), (t(NODE), s(HTML_IMAGE_ELEMENT), 5));
}

#[test]
fn descriptors_by_id() {
    let reg = build(parts()).unwrap();
    let info = struct_info(&reg, s(HTML_VIDEO_ELEMENT));
    assert_eq!(info.size(), 72);
    assert_eq!(info.log2_align(), 3);
    assert_eq!(info.struct_id(), s(HTML_VIDEO_ELEMENT));
    assert_eq!(info.offsets(s(NODE_DATA)), vec![0]);
    assert_eq!(info.offsets(s(TEXT_NODE)), Vec::<usize>::new());
    assert!(info.is_clonable());
    assert_eq!(info.v_table(&reg, t(NODE)), Some(7));
    assert_eq!(trait_info(&reg, t(ELEMENT)).trait_id(), t(ELEMENT));
    assert_eq!(trait_info(&reg, t(ELEMENT)).offset(t(NODE)), 1);
    assert_eq!(trait_info(&reg, t(NODE)).v_table(&reg, s(TEXT_NODE)), Some(1));
    assert_eq!(trait_info(&reg, t(ELEMENT)).v_table(&reg, s(TEXT_NODE)), None);
    let vt = reg.v_table_at(6);
    assert_eq!(vt.struct_info(&reg).size(), 72);
    assert_eq!(vt.trait_info(&reg).trait_id(), t(ELEMENT));
    assert_eq!(vt.cast_to_trait(&reg, t(NODE)), Some(7));
}

#[test]
fn handles_cast_between_capabilities() {
    let reg = build(parts()).unwrap();
    let h = VRef::new(&reg, t(ELEMENT), s(HTML_IMAGE_ELEMENT));
    assert_eq!(h.untyped().v_table(&reg).table(), 4);
    let up = h.up_cast(&reg, t(NODE));
    assert_eq!(up.trait_id(), t(NODE));
    assert_eq!(up.untyped().v_table(&reg).table(), 5);
    assert_eq!(up.down_cast(&reg, t(ELEMENT)), Some(h));
    let node = VRef::new(&reg, t(NODE), s(TEXT_NODE));
    assert_eq!(node.down_cast(&reg, t(ELEMENT)), None);
    assert!(h.is(&reg, s(ELEMENT_DATA)));
    assert!(!h.is(&reg, s(HTML_VIDEO_ELEMENT)));
    assert_eq!(h.struct_info(&reg).struct_id(), s(HTML_IMAGE_ELEMENT));
    assert_eq!(h.trait_info(&reg).trait_id(), t(ELEMENT));
    let u = h.untyped();
    assert_eq!(u.up_cast(&reg, t(ELEMENT), t(NODE)), up.untyped());
    assert_eq!(up.untyped().down_cast(&reg, t(NODE), t(ELEMENT)), Some(u));
    assert_eq!(u.struct_info(&reg).size(), 64);
    assert_eq!(u.trait_info(&reg).trait_id(), t(ELEMENT));
    let d = h.drop(&reg, vec![3u8; 64], 16);
    assert_eq!((d.struct_id, d.base_offset, d.object.len()), (s(HTML_IMAGE_ELEMENT), 16, 64));
}

#[test]
fn duplicate_struct_is_rejected() {
    let mut p = parts();
    p.structs.push(StructInfo::new(s(NODE_DATA), 16, 8, vec![(s(NODE_DATA), 0)], true));
    assert!(build(p).is_none());
}

#[test]
fn duplicate_trait_is_rejected() {
    let mut p = parts();
    p.traits.push(TraitInfo::new(t(NODE), Vec::new()));
    assert!(build(p).is_none());
}

#[test]
fn diamond_is_rejected() {
    let mut p = parts();
    p.structs[1] = StructInfo::new(s(TEXT_NODE), 16, 8, vec![(s(TEXT_NODE), 0), (s(NODE_DATA), 0), (s(NODE_DATA), 8)], true);
    assert!(build(p).is_none());
}

#[test]
fn diamond_table_reports_both_offsets() {
    let info = StructInfo::new(s(TEXT_NODE), 32, 8, vec![(s(TEXT_NODE), 0), (s(NODE_DATA), 0), (s(NODE_DATA), 16)], true);
    assert_eq!(info.offsets(s(NODE_DATA)), vec![0, 16]);
}

#[test]
fn missing_self_entry_is_rejected() {
    let mut p = parts();
    p.structs[0] = StructInfo::new(s(NODE_DATA), 16, 8, Vec::new(), true);
    assert!(build(p).is_none());
}

#[test]
fn embedded_struct_outside_is_rejected() {
    let mut p = parts();
    // NodeData (16 bytes) at offset 8 of a 16-byte TextNode does not fit.
    p.structs[1] = StructInfo::new(s(TEXT_NODE), 16, 8, vec![(s(TEXT_NODE), 0), (s(NODE_DATA), 8)], true);
    assert!(build(p).is_none());
}

#[test]
fn unregistered_ancestor_is_rejected() {
    let mut p = parts();
    p.structs[1] = StructInfo::new(s(TEXT_NODE), 16, 8, vec![(s(TEXT_NODE), 0), (s(42), 0)], true);
    assert!(build(p).is_none());
}

#[test]
fn missing_transitive_entry_is_rejected() {
    let mut p = parts();
    // A video element that embeds ElementData but forgets NodeData.
    p.structs[4] = StructInfo::new(s(HTML_VIDEO_ELEMENT), 72, 8, vec![(s(HTML_VIDEO_ELEMENT), 0), (s(ELEMENT_DATA), 0)], true);
    assert!(build(p).is_none());
}

#[test]
fn misplaced_slot_is_rejected() {
    let mut p = parts();
    p.traits[1] = TraitInfo::new(t(ELEMENT), vec![(t(NODE), 2)]);
    assert!(build(p).is_none());
}

#[test]
fn index_into_wrong_slot_is_rejected() {
    let mut p = parts();
    p.indices[0] = ((t(NODE), s(ELEMENT_DATA)), (t(ELEMENT), s(ELEMENT_DATA)), 0);
    assert!(build(p).is_none());
}

#[test]
fn unreachable_table_is_rejected() {
    let mut p = parts();
    p.indices.remove(0);
    assert!(build(p).is_none());
}

#[test]
fn duplicate_table_is_rejected() {
    let mut p = parts();
    p.tables.push(((t(NODE), s(NODE_DATA)), vec![VTable::new(t(NODE), s(NODE_DATA), 9)]));
    assert!(build(p).is_none());
}

#[test]
fn empty_block_is_rejected() {
    let mut p = parts();
    p.tables.push(((t(NODE), s(NODE_DATA)), Vec::new()));
    assert!(build(p).is_none());
}

#[test]
fn unregistered_capability_is_rejected() {
    let mut p = parts();
    p.traits.remove(1);
    assert!(build(p).is_none());
}
