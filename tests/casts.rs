use disjoint_poly::dom::{
    register_struct_info, register_trait_info, register_vtables, CROSS_ORIGIN_BYTE, ELEMENT, ELEMENT_DATA,
    HTML_IMAGE_ELEMENT, HTML_VIDEO_ELEMENT, NODE, NODE_DATA, TEXT_NODE,
};
use disjoint_poly::{Cast, Class, DownCast, DynClass, DynRef, Registry, StructId, TraitId, UpCast};

fn dom_registry() -> Registry {
    let mut structs = Vec::new();
    register_struct_info(&mut structs);
    let mut traits = Vec::new();
    register_trait_info(&mut traits);
    let mut tables = Vec::new();
    let mut indices = Vec::new();
    register_vtables(&mut tables, &mut indices);
    Registry::new(structs, traits, tables, indices).expect("the document tree is a supported hierarchy")
}

fn s(id: u64) -> StructId {
    StructId::new(id)
}

fn t(id: u64) -> TraitId {
    TraitId::new(id)
}

fn video(reg: &Registry) -> DynClass {
    let bytes: Vec<u8> = (0..72u8).collect();
    Class::new(reg, t(ELEMENT), s(HTML_VIDEO_ELEMENT), bytes).into_clonable(reg).into_dyn()
}

fn text(reg: &Registry) -> DynClass {
    Class::new(reg, t(NODE), s(TEXT_NODE), vec![7u8; 16]).into_dyn()
}

#[test]
fn fresh_container_views_its_own_struct() {
    let reg = dom_registry();
    let v = video(&reg);
    assert_eq!(v.view_struct(), s(HTML_VIDEO_ELEMENT));
    assert_eq!(v.v_ref().trait_id(), t(ELEMENT));
    assert_eq!(v.v_offset().base_offset(), 16);
    assert_eq!(v.v_offset().offset(), 16);
    assert_eq!(v.offset_into_struct(&reg), 0);
    assert_eq!(v.as_struct(&reg).len(), 72);
    assert_eq!(v.as_struct(&reg)[5], 5);
    assert!(v.is_clonable());
}

#[test]
fn base_derived_scenario() {
    let reg = dom_registry();
    // A derived object, up-cast to the base view.
    let b = video(&reg);
    let up = b.up_cast(&reg, t(NODE), s(NODE_DATA));
    assert_eq!(up.v_ref().trait_id(), t(NODE));
    assert_eq!(up.view_struct(), s(NODE_DATA));
    assert_eq!(up.as_struct(&reg).len(), 16);
    // Back down to the derived capability: it succeeds.
    let down = up.down_cast(&reg, t(ELEMENT), s(HTML_VIDEO_ELEMENT));
    assert!(down.is_ok());
    let down = down.ok().unwrap();
    // To an unrelated struct: it fails.
    let up = down.up_cast(&reg, t(NODE), s(NODE_DATA));
    assert!(up.cast(&reg, t(ELEMENT), s(TEXT_NODE)).is_err());
    // A base-only object cannot be down-cast to the derived capability.
    let a = text(&reg);
    assert!(a.down_cast(&reg, t(ELEMENT), s(TEXT_NODE)).is_err());
}

#[test]
fn up_then_down_cast_gives_back_the_container() {
    let reg = dom_registry();
    let b = video(&reg);
    let before = (b.v_ref(), b.v_offset().offset(), b.v_offset().base_offset(), b.view_struct(), b.as_struct(&reg).to_vec());
    let up = b.up_cast(&reg, t(NODE), s(ELEMENT_DATA));
    let back = match up.down_cast(&reg, t(ELEMENT), s(HTML_VIDEO_ELEMENT)) {
        Ok(c) => c,
        Err(_) => panic!("down-cast after up-cast failed"),
    };
    let after = (back.v_ref(), back.v_offset().offset(), back.v_offset().base_offset(), back.view_struct(), back.as_struct(&reg).to_vec());
    assert_eq!(before, after);
}

#[test]
fn cast_to_own_view_is_identity() {
    let reg = dom_registry();
    let b = video(&reg);
    let h = b.v_ref();
    assert_eq!(h.cast(&reg, t(ELEMENT)), Some(h));
    let u = h.untyped();
    assert_eq!(u.cast(&reg, t(ELEMENT), t(ELEMENT)), Some(u));
    let before = (b.v_ref(), b.v_offset().offset(), b.view_struct());
    let same = match b.cast(&reg, t(ELEMENT), s(HTML_VIDEO_ELEMENT)) {
        Ok(c) => c,
        Err(_) => panic!("identity cast failed"),
    };
    assert_eq!((same.v_ref(), same.v_offset().offset(), same.view_struct()), before);
}

#[test]
fn failed_down_cast_returns_the_container_unchanged() {
    let reg = dom_registry();
    let a = text(&reg);
    let before = (a.v_ref(), a.v_offset().offset(), a.v_offset().base_offset(), a.view_struct(), a.as_struct(&reg).to_vec());
    let back = match a.down_cast(&reg, t(ELEMENT), s(TEXT_NODE)) {
        Ok(_) => panic!("a text node is no element"),
        Err(c) => c,
    };
    let after = (back.v_ref(), back.v_offset().offset(), back.v_offset().base_offset(), back.view_struct(), back.as_struct(&reg).to_vec());
    assert_eq!(before, after);
}

#[test]
fn down_cast_fails_on_struct_alone() {
    let reg = dom_registry();
    // The live object is an image element: it is an Element, but no video.
    let img = Class::new(&reg, t(ELEMENT), s(HTML_IMAGE_ELEMENT), vec![1u8; 64]).into_dyn();
    let up = img.up_cast(&reg, t(NODE), s(ELEMENT_DATA));
    let back = match up.down_cast(&reg, t(ELEMENT), s(HTML_VIDEO_ELEMENT)) {
        Ok(_) => panic!("an image is no video"),
        Err(c) => c,
    };
    assert_eq!(back.view_struct(), s(ELEMENT_DATA));
    assert_eq!(back.v_ref().trait_id(), t(NODE));
}

#[test]
fn clone_then_mutate_leaves_source() {
    let reg = dom_registry();
    let b = video(&reg);
    let mut copy = b.clone_to_box(&reg);
    assert_eq!(copy.as_struct(&reg), b.as_struct(&reg));
    copy.as_struct_mut(&reg)[CROSS_ORIGIN_BYTE] = 1;
    assert_eq!(copy.as_struct(&reg)[CROSS_ORIGIN_BYTE], 1);
    assert_eq!(b.as_struct(&reg)[CROSS_ORIGIN_BYTE], CROSS_ORIGIN_BYTE as u8);
    assert_ne!(copy.as_struct(&reg), b.as_struct(&reg));
}

#[test]
fn clone_keeps_header() {
    let reg = dom_registry();
    let b = video(&reg).up_cast(&reg, t(NODE), s(NODE_DATA));
    let copy = b.clone_to_box(&reg);
    assert_eq!(copy.v_ref(), b.v_ref());
    assert_eq!(copy.v_offset().offset(), b.v_offset().offset());
    assert_eq!(copy.view_struct(), b.view_struct());
    assert_eq!(copy.as_struct(&reg), b.as_struct(&reg));
}

#[test]
fn drop_after_casts_uses_the_origin() {
    let reg = dom_registry();
    let b = video(&reg);
    let up = b.up_cast(&reg, t(NODE), s(NODE_DATA));
    let other = match up.cast(&reg, t(ELEMENT), s(ELEMENT_DATA)) {
        Ok(c) => c,
        Err(_) => panic!("a video is an element"),
    };
    let d = other.drop(&reg);
    assert_eq!(d.struct_id, s(HTML_VIDEO_ELEMENT));
    assert_eq!(d.base_offset, 16);
    assert_eq!(d.object, (0..72u8).collect::<Vec<u8>>());
}

#[test]
fn drop_fresh_container() {
    let reg = dom_registry();
    let d = text(&reg).drop(&reg);
    assert_eq!(d.struct_id, s(TEXT_NODE));
    assert_eq!(d.base_offset, 16);
    assert_eq!(d.object, vec![7u8; 16]);
}

#[test]
fn unchecked_casts_land_where_checked_ones_do() {
    let reg = dom_registry();
    let up = video(&reg).up_cast(&reg, t(NODE), s(NODE_DATA));
    let down = up.unchecked_down_cast(&reg, t(ELEMENT), s(ELEMENT_DATA));
    assert_eq!(down.view_struct(), s(ELEMENT_DATA));
    assert_eq!(down.v_ref().trait_id(), t(ELEMENT));
    let across = down.unchecked_cast(&reg, t(NODE), s(HTML_VIDEO_ELEMENT));
    assert_eq!(across.view_struct(), s(HTML_VIDEO_ELEMENT));
    assert_eq!(across.v_ref().trait_id(), t(NODE));
    assert_eq!(across.v_offset().offset(), 16);
}

#[test]
fn struct_offsets_of_casts() {
    let reg = dom_registry();
    let b = video(&reg);
    assert_eq!(b.up_cast_struct(&reg, s(NODE_DATA)).offset(), 16);
    assert!(b.cast_struct(&reg, s(TEXT_NODE)).is_none());
    assert_eq!(b.cast_struct(&reg, s(ELEMENT_DATA)).map(|o| o.offset()), Some(16));
    let up = b.up_cast(&reg, t(NODE), s(NODE_DATA));
    assert_eq!(up.down_cast_struct(&reg, s(HTML_VIDEO_ELEMENT)).map(|o| o.offset()), Some(16));
    assert!(up.down_cast_struct(&reg, s(HTML_IMAGE_ELEMENT)).is_none());
}

#[test]
fn borrowed_view_sees_the_same_bytes() {
    let reg = dom_registry();
    let b = video(&reg).up_cast(&reg, t(NODE), s(ELEMENT_DATA));
    let r = DynRef::new(&b, &reg);
    assert_eq!(r.as_struct(&reg), b.as_struct(&reg));
    assert_eq!(r.as_struct(&reg).len(), 64);
}

#[test]
fn trait_view_carries_the_dispatch_token() {
    let reg = dom_registry();
    let b = video(&reg);
    let (token, bytes) = b.as_trait(&reg);
    assert_eq!(token, 6);
    assert_eq!(bytes.len(), 72);
    let up = b.up_cast(&reg, t(NODE), s(NODE_DATA));
    let (token, bytes) = up.as_trait(&reg);
    assert_eq!(token, 7);
    assert_eq!(bytes.len(), 16);
    let r = DynRef::new(&up, &reg);
    assert_eq!(r.as_trait(&reg).0, 7);
}

#[test]
fn borrowed_casts() {
    let reg = dom_registry();
    let b = video(&reg);
    let node = b.up_cast_ref(&reg, t(NODE), s(NODE_DATA));
    assert_eq!(node.as_struct(&reg).len(), 16);
    assert_eq!(node.as_trait(&reg).0, 7);
    let back = match node.down_cast(&reg, t(ELEMENT), s(ELEMENT_DATA)) {
        Ok(e) => e,
        Err(_) => panic!("a video is an element"),
    };
    assert_eq!(back.as_struct(&reg).len(), 64);
    assert_eq!(back.as_trait(&reg).0, 6);
    let node = back.up_cast(&reg, t(NODE), s(NODE_DATA));
    assert!(node.cast(&reg, t(NODE), s(TEXT_NODE)).is_err());
    let text = text(&reg);
    let text_ref = text.up_cast_ref(&reg, t(NODE), s(NODE_DATA));
    assert!(text_ref.down_cast(&reg, t(ELEMENT), s(ELEMENT_DATA)).is_err());
    assert!(text.down_cast_ref(&reg, t(NODE), s(TEXT_NODE)).is_some());
    let up = b.up_cast(&reg, t(NODE), s(NODE_DATA));
    assert!(up.down_cast_ref(&reg, t(ELEMENT), s(HTML_IMAGE_ELEMENT)).is_none());
    let video_ref = up.down_cast_ref(&reg, t(ELEMENT), s(HTML_VIDEO_ELEMENT)).unwrap();
    assert_eq!(video_ref.as_struct(&reg).len(), 72);
    let across = DynRef::new(&up, &reg).unchecked_cast(&reg, t(ELEMENT), s(HTML_VIDEO_ELEMENT));
    assert_eq!(across.as_trait(&reg).0, 6);
    let narrowed = DynRef::new(&up, &reg).unchecked_down_cast(&reg, t(ELEMENT), s(ELEMENT_DATA));
    assert_eq!(narrowed.as_struct(&reg).len(), 64);
}
