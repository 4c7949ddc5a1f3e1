use crate::ids::{StructId, TraitId};
use crate::registry::{
    is_power_of_two, StructInfo, TraitInfo, VTable, VTableRegistryId, VTableRegistryIndices, VTableRegistryTables,
};
use vstd::arithmetic::power2::{lemma2_to64, pow2};
use vstd::prelude::*;

verus! {

//  A small document tree: every node is a `Node`; elements are `Element`s,
//  which extend `Node`. Each struct embeds its parent struct first.
/// Token of the `Node` capability.
pub const NODE: u64 = 1;

/// Token of the `Element` capability.
pub const ELEMENT: u64 = 2;

/// Token of `NodeData`: the links of a node (16 bytes).
pub const NODE_DATA: u64 = 1;

/// Token of `TextNode`: a `NodeData` (16 bytes).
pub const TEXT_NODE: u64 = 2;

/// Token of `ElementData`: a `NodeData` and an attribute map (64 bytes).
pub const ELEMENT_DATA: u64 = 3;

/// Token of `HTMLImageElement`: an `ElementData` (64 bytes).
pub const HTML_IMAGE_ELEMENT: u64 = 4;

/// Token of `HTMLVideoElement`: an `ElementData` and a flag (72 bytes).
pub const HTML_VIDEO_ELEMENT: u64 = 5;

/// Byte of `HTMLVideoElement` that holds its cross-origin flag.
pub const CROSS_ORIGIN_BYTE: usize = 64;

pub open spec fn sid(id: u64) -> StructId {
    StructId { id }
}

pub open spec fn tid(id: u64) -> TraitId {
    TraitId { id }
}

/// Each struct's size and table of embedded structs.
pub open spec fn dom_struct(id: u64) -> (nat, Seq<(StructId, usize)>) {
    if id == NODE_DATA {
        (16, seq![(sid(NODE_DATA), 0usize)])
    } else if id == TEXT_NODE {
        (16, seq![(sid(TEXT_NODE), 0usize), (sid(NODE_DATA), 0usize)])
    } else if id == ELEMENT_DATA {
        (64, seq![(sid(ELEMENT_DATA), 0usize), (sid(NODE_DATA), 0usize)])
    } else if id == HTML_IMAGE_ELEMENT {
        (64, seq![(sid(HTML_IMAGE_ELEMENT), 0usize), (sid(ELEMENT_DATA), 0usize), (sid(NODE_DATA), 0usize)])
    } else {
        (72, seq![(sid(HTML_VIDEO_ELEMENT), 0usize), (sid(ELEMENT_DATA), 0usize), (sid(NODE_DATA), 0usize)])
    }
}

fn describe(id: u64, size: usize, parents: Vec<u64>) -> (r: StructInfo)
    requires
        size < 0x1_0000,
    ensures
        r@.struct_id == sid(id),
        r@.size == size,
        pow2(r@.log2_align) == 8,
        r@.offsets == seq![(sid(id), 0usize)] + parents@.map_values(|p: u64| (sid(p), 0usize)),
        r@.clonable,
{
    let mut offsets: Vec<(StructId, usize)> = Vec::new();
    offsets.push((StructId::new(id), 0));
    let mut i: usize = 0;
    while i < parents.len()
        invariant
            i <= parents@.len(),
            offsets@ == seq![(sid(id), 0usize)] + parents@.subrange(0, i as int).map_values(|p: u64| (sid(p), 0usize)),
        decreases parents.len() - i,
    {
        offsets.push((StructId::new(parents[i]), 0));
        i = i + 1;
        proof {
            assert(parents@.subrange(0, i as int) == parents@.subrange(0, i - 1).push(parents@[i - 1]));
            assert(offsets@ =~= seq![(sid(id), 0usize)] + parents@.subrange(0, i as int).map_values(
                |p: u64| (sid(p), 0usize),
            ));
        }
    }
    proof {
        assert(parents@.subrange(0, i as int) == parents@);
        lemma2_to64();
        assert(pow2(3) == 8);
    }
    StructInfo::new(StructId::new(id), size, 8, offsets, true)
}

/// Appends the descriptors of the five structs of the tree, in token order.
pub fn register_struct_info(collector: &mut Vec<StructInfo>)
    ensures
        final(collector)@.len() == old(collector)@.len() + 5,
        final(collector)@.subrange(0, old(collector)@.len() as int) == old(collector)@,
        forall|k: int|
            0 <= k < 5 ==> {
                let info = #[trigger] final(collector)@[old(collector)@.len() + k]@;
                &&& info.struct_id == sid((k + 1) as u64)
                &&& info.size == dom_struct((k + 1) as u64).0
                &&& info.offsets == dom_struct((k + 1) as u64).1
                &&& pow2(info.log2_align) == 8
                &&& info.clonable
            },
{
    let ghost n = old(collector)@.len();
    let a = describe(NODE_DATA, 16, Vec::new());
    let b = describe(TEXT_NODE, 16, vec![NODE_DATA]);
    let c = describe(ELEMENT_DATA, 64, vec![NODE_DATA]);
    let d = describe(HTML_IMAGE_ELEMENT, 64, vec![ELEMENT_DATA, NODE_DATA]);
    let e = describe(HTML_VIDEO_ELEMENT, 72, vec![ELEMENT_DATA, NODE_DATA]);
    proof {
        assert(a@.offsets =~= dom_struct(NODE_DATA).1);
        assert(b@.offsets =~= dom_struct(TEXT_NODE).1);
        assert(c@.offsets =~= dom_struct(ELEMENT_DATA).1);
        assert(d@.offsets =~= dom_struct(HTML_IMAGE_ELEMENT).1);
        assert(e@.offsets =~= dom_struct(HTML_VIDEO_ELEMENT).1);
    }
    collector.push(a);
    collector.push(b);
    collector.push(c);
    collector.push(d);
    collector.push(e);
    proof {
        assert(final(collector)@.subrange(0, n as int) =~= old(collector)@);
    }
}

/// Appends the descriptors of `Node` and of `Element`, which extends `Node`
/// with `Node`'s table one slot after its own.
pub fn register_trait_info(collector: &mut Vec<TraitInfo>)
    ensures
        final(collector)@.len() == old(collector)@.len() + 2,
        final(collector)@.subrange(0, old(collector)@.len() as int) == old(collector)@,
        final(collector)@[old(collector)@.len() as int]@.trait_id == tid(NODE),
        final(collector)@[old(collector)@.len() as int]@.extends == Seq::<(TraitId, usize)>::empty(),
        final(collector)@[old(collector)@.len() + 1int]@.trait_id == tid(ELEMENT),
        final(collector)@[old(collector)@.len() + 1int]@.extends == seq![(tid(NODE), 1usize)],
{
    let ghost n = old(collector)@.len();
    collector.push(TraitInfo::new(TraitId::new(NODE), Vec::new()));
    let mut extends: Vec<(TraitId, usize)> = Vec::new();
    extends.push((TraitId::new(NODE), 1));
    collector.push(TraitInfo::new(TraitId::new(ELEMENT), extends));
    proof {
        assert(final(collector)@.subrange(0, n as int) =~= old(collector)@);
        assert(extends@ =~= seq![(tid(NODE), 1usize)]);
    }
}

/// The key and the dispatch token of each table of a block.
pub open spec fn block_layout(block: Seq<VTable>) -> Seq<(VTableRegistryId, usize)> {
    block.map_values(|v: VTable| (v.key(), v.spec_table()))
}

/// Registers the block of struct `s`: its first capability's table, then,
/// for an element, the `Node` table one slot on, reached through the first.
fn register_struct(
    tables: &mut VTableRegistryTables,
    indices: &mut VTableRegistryIndices,
    s: u64,
    element: bool,
    token: usize,
)
    requires
        token < 100,
    ensures
        final(tables)@ == old(tables)@.push(final(tables)@.last()),
        final(tables)@.last().0 == (tid(if element { ELEMENT } else { NODE }), sid(s)),
        block_layout(final(tables)@.last().1@) == if element {
            seq![((tid(ELEMENT), sid(s)), token), ((tid(NODE), sid(s)), (token + 1) as usize)]
        } else {
            seq![((tid(NODE), sid(s)), token)]
        },
        final(indices)@ == if element {
            old(indices)@.push(((tid(NODE), sid(s)), (tid(ELEMENT), sid(s)), 1usize))
        } else {
            old(indices)@
        },
{
    let struct_id = StructId::new(s);
    let mut block: Vec<VTable> = Vec::new();
    if element {
        let head = (TraitId::new(ELEMENT), struct_id);
        block.push(VTable::new(TraitId::new(ELEMENT), struct_id, token));
        block.push(VTable::new(TraitId::new(NODE), struct_id, token + 1));
        tables.push((head, block));
        indices.push(((TraitId::new(NODE), struct_id), head, 1));
    } else {
        block.push(VTable::new(TraitId::new(NODE), struct_id, token));
        tables.push(((TraitId::new(NODE), struct_id), block));
    }
    proof {
        assert(block_layout(final(tables)@.last().1@) =~= if element {
            seq![((tid(ELEMENT), sid(s)), token), ((tid(NODE), sid(s)), (token + 1) as usize)]
        } else {
            seq![((tid(NODE), sid(s)), token)]
        });
    }
}

/// Registers the dispatch tables of the five structs, in token order: the
/// two nodes under `Node`, the three elements under `Element` with their
/// `Node` tables reached through an index; dispatch tokens count from 0.
pub fn register_vtables(tables: &mut VTableRegistryTables, indices: &mut VTableRegistryIndices)
    ensures
        final(tables)@.len() == old(tables)@.len() + 5,
        final(tables)@.subrange(0, old(tables)@.len() as int) == old(tables)@,
        final(indices)@ == old(indices)@ + seq![
            ((tid(NODE), sid(ELEMENT_DATA)), (tid(ELEMENT), sid(ELEMENT_DATA)), 1usize),
            ((tid(NODE), sid(HTML_IMAGE_ELEMENT)), (tid(ELEMENT), sid(HTML_IMAGE_ELEMENT)), 1usize),
            ((tid(NODE), sid(HTML_VIDEO_ELEMENT)), (tid(ELEMENT), sid(HTML_VIDEO_ELEMENT)), 1usize),
        ],
        final(tables)@[old(tables)@.len() as int].0 == (tid(NODE), sid(NODE_DATA)),
        block_layout(final(tables)@[old(tables)@.len() as int].1@) == seq![((tid(NODE), sid(NODE_DATA)), 0usize)],
        final(tables)@[old(tables)@.len() + 1int].0 == (tid(NODE), sid(TEXT_NODE)),
        block_layout(final(tables)@[old(tables)@.len() + 1int].1@) == seq![((tid(NODE), sid(TEXT_NODE)), 1usize)],
        final(tables)@[old(tables)@.len() + 2int].0 == (tid(ELEMENT), sid(ELEMENT_DATA)),
        block_layout(final(tables)@[old(tables)@.len() + 2int].1@) == seq![
            ((tid(ELEMENT), sid(ELEMENT_DATA)), 2usize),
            ((tid(NODE), sid(ELEMENT_DATA)), 3usize),
        ],
        final(tables)@[old(tables)@.len() + 3int].0 == (tid(ELEMENT), sid(HTML_IMAGE_ELEMENT)),
        block_layout(final(tables)@[old(tables)@.len() + 3int].1@) == seq![
            ((tid(ELEMENT), sid(HTML_IMAGE_ELEMENT)), 4usize),
            ((tid(NODE), sid(HTML_IMAGE_ELEMENT)), 5usize),
        ],
        final(tables)@[old(tables)@.len() + 4int].0 == (tid(ELEMENT), sid(HTML_VIDEO_ELEMENT)),
        block_layout(final(tables)@[old(tables)@.len() + 4int].1@) == seq![
            ((tid(ELEMENT), sid(HTML_VIDEO_ELEMENT)), 6usize),
            ((tid(NODE), sid(HTML_VIDEO_ELEMENT)), 7usize),
        ],
{
    let ghost t0 = old(tables)@;
    let ghost i0 = old(indices)@;
    register_struct(tables, indices, NODE_DATA, false, 0);
    register_struct(tables, indices, TEXT_NODE, false, 1);
    register_struct(tables, indices, ELEMENT_DATA, true, 2);
    register_struct(tables, indices, HTML_IMAGE_ELEMENT, true, 4);
    register_struct(tables, indices, HTML_VIDEO_ELEMENT, true, 6);
    proof {
        assert(final(tables)@.subrange(0, t0.len() as int) =~= t0);
        assert(final(indices)@ =~= i0 + seq![
            ((tid(NODE), sid(ELEMENT_DATA)), (tid(ELEMENT), sid(ELEMENT_DATA)), 1usize),
            ((tid(NODE), sid(HTML_IMAGE_ELEMENT)), (tid(ELEMENT), sid(HTML_IMAGE_ELEMENT)), 1usize),
            ((tid(NODE), sid(HTML_VIDEO_ELEMENT)), (tid(ELEMENT), sid(HTML_VIDEO_ELEMENT)), 1usize),
        ]);
    }
}

} // verus!
