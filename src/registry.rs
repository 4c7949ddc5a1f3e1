use crate::ids::{StructId, TraitId};
use vstd::arithmetic::power2::{lemma2_to64, lemma_pow2_pos, lemma_pow2_strictly_increases, lemma_pow2_unfold, pow2};
use vstd::prelude::*;

verus! {

/// A (capability, concrete struct) pair: the key of a dispatch table.
pub type VTableRegistryId = (TraitId, StructId);

/// Contiguous blocks of dispatch tables, each under the key of its first table.
pub type VTableRegistryTables = Vec<(VTableRegistryId, Vec<VTable>)>;

/// Keys that are reached through another block: (key, key of the block, slot).
pub type VTableRegistryIndices = Vec<(VTableRegistryId, VTableRegistryId, usize)>;

const SIZE_MASK: u64 = 0xff_ffff_ffff_ffff;

const ALIGN_SHIFT: u64 = 56;

/// Exclusive bound of a struct size.
pub const MAX_SIZE: u64 = 0x100_0000_0000_0000;

/// What a struct descriptor says.
pub struct StructModel {
    pub struct_id: StructId,
    pub size: nat,
    pub log2_align: nat,
    /// Embedded structs and the byte offset of each, this struct itself at 0.
    pub offsets: Seq<(StructId, usize)>,
    pub clonable: bool,
}

/// Metadata of one concrete struct.
#[derive(Debug)]
pub struct StructInfo {
    /// High 8 bits: log2 of the alignment; low 56 bits: the size.
    size_align: u64,
    struct_id: StructId,
    offsets: Vec<(StructId, usize)>,
    clonable: bool,
}

/// Metadata of one capability: the capabilities it extends, each with the
/// slot at which its table follows this capability's table in every block.
#[derive(Debug)]
pub struct TraitInfo {
    trait_id: TraitId,
    extends: Vec<(TraitId, usize)>,
}

/// What a capability descriptor says.
pub struct TraitModel {
    pub trait_id: TraitId,
    pub extends: Seq<(TraitId, usize)>,
}

/// The binding of one capability to one concrete struct.
#[derive(Clone, Copy, Debug, PartialEq, Eq, Structural)]
pub struct VTable {
    struct_id: StructId,
    trait_id: TraitId,
    /// Token of the dispatch table that the application keeps for the pair.
    table: usize,
}

impl View for StructInfo {
    type V = StructModel;

    closed spec fn view(&self) -> StructModel {
        StructModel {
            struct_id: self.struct_id,
            size: (self.size_align & SIZE_MASK) as nat,
            log2_align: (self.size_align >> ALIGN_SHIFT) as nat,
            offsets: self.offsets@,
            clonable: self.clonable,
        }
    }
}

impl View for TraitInfo {
    type V = TraitModel;

    closed spec fn view(&self) -> TraitModel {
        TraitModel { trait_id: self.trait_id, extends: self.extends@ }
    }
}

impl VTable {
    pub closed spec fn spec_struct_id(self) -> StructId {
        self.struct_id
    }

    pub closed spec fn spec_trait_id(self) -> TraitId {
        self.trait_id
    }

    pub closed spec fn spec_table(self) -> usize {
        self.table
    }

    pub open spec fn key(self) -> VTableRegistryId {
        (self.spec_trait_id(), self.spec_struct_id())
    }

    pub fn new(trait_id: TraitId, struct_id: StructId, table: usize) -> (r: VTable)
        ensures
            r.spec_trait_id() == trait_id,
            r.spec_struct_id() == struct_id,
            r.spec_table() == table,
    {
        VTable { struct_id, trait_id, table }
    }

    pub fn struct_id(&self) -> (r: StructId)
        ensures
            r == self.spec_struct_id(),
    {
        self.struct_id
    }

    pub fn trait_id(&self) -> (r: TraitId)
        ensures
            r == self.spec_trait_id(),
    {
        self.trait_id
    }

    pub fn table(&self) -> (r: usize)
        ensures
            r == self.spec_table(),
    {
        self.table
    }

    /// The descriptor of the bound struct.
    pub fn struct_info<'a>(&self, reg: &'a Registry) -> (r: &'a StructInfo)
        requires
            reg@.wf(),
            reg@.has_struct(self.spec_struct_id()),
        ensures
            r@ == reg@.struct_of(self.spec_struct_id()),
    {
        struct_info(reg, self.struct_id)
    }

    /// The descriptor of the bound capability.
    pub fn trait_info<'a>(&self, reg: &'a Registry) -> (r: &'a TraitInfo)
        requires
            reg@.wf(),
            reg@.has_trait(self.spec_trait_id()),
        ensures
            r@ == reg@.trait_of(self.spec_trait_id()),
    {
        trait_info(reg, self.trait_id)
    }

    /// The table that binds capability `t` to the same struct, if there is one.
    pub fn cast_to_trait(&self, reg: &Registry, t: TraitId) -> (r: Option<usize>)
        requires
            reg@.wf(),
        ensures
            r == reg@.lookup(t, self.spec_struct_id()),
    {
        v_table_by_id(reg, t, self.struct_id)
    }
}

/// `n` is a power of two.
pub open spec fn is_power_of_two(n: int) -> bool {
    exists|e: nat| pow2(e) == n
}

/// The exponent of a power of two.
fn log2(n: u64) -> (r: u64)
    requires
        is_power_of_two(n as int),
    ensures
        pow2(r as nat) == n,
        r < 64,
{
    let ghost e0: nat = choose|e: nat| pow2(e) == n;
    let ghost mut e: nat = e0;
    let mut m: u64 = n;
    let mut acc: u64 = 0;
    proof {
        lemma2_to64();
        if e0 >= 64 {
            if e0 > 64 {
                lemma_pow2_strictly_increases(64, e0);
            }
            assert(false);
        }
    }
    while m != 1
        invariant
            pow2(e) == m,
            acc + e == e0,
            e0 < 64,
        decreases m,
    {
        proof {
            if e == 0 {
                lemma2_to64();
                assert(false);
            }
            lemma_pow2_unfold(e);
            e = (e - 1) as nat;
            lemma_pow2_pos(e);
        }
        m = m / 2;
        acc = acc + 1;
    }
    proof {
        if e != 0 {
            lemma_pow2_strictly_increases(0, e);
            lemma2_to64();
        }
    }
    acc
}

proof fn lemma_size_align(size: u64, l: u64)
    by (bit_vector)
    requires
        size < 0x100_0000_0000_0000,
        l < 64,
    ensures
        (size | (l << 56u64)) & 0xff_ffff_ffff_ffffu64 == size,
        (size | (l << 56u64)) >> 56u64 == l,
{
}

impl StructInfo {
    #[verifier::type_invariant]
    spec fn inv(self) -> bool {
        &&& self@.size <= usize::MAX
        &&& self@.log2_align < 64
    }

    /// Describes a struct of `size` bytes aligned to `align` bytes, with its
    /// table of embedded structs and whether it may be cloned.
    pub fn new(struct_id: StructId, size: usize, align: usize, offsets: Vec<(StructId, usize)>, clonable: bool) -> (r:
        StructInfo)
        requires
            size < MAX_SIZE,
            is_power_of_two(align as int),
        ensures
            r@.struct_id == struct_id,
            r@.size == size,
            pow2(r@.log2_align) == align,
            r@.offsets == offsets@,
            r@.clonable == clonable,
    {
        let l = log2(align as u64);
        let sz = size as u64;
        proof {
            lemma_size_align(sz, l);
        }
        StructInfo { size_align: sz | (l << ALIGN_SHIFT), struct_id, offsets, clonable }
    }

    pub fn size(&self) -> (r: usize)
        ensures
            r == self@.size,
    {
        proof {
            use_type_invariant(self);
        }
        (self.size_align & SIZE_MASK) as usize
    }

    pub fn log2_align(&self) -> (r: usize)
        ensures
            r == self@.log2_align,
    {
        proof {
            use_type_invariant(self);
        }
        (self.size_align >> ALIGN_SHIFT) as usize
    }

    pub fn struct_id(&self) -> (r: StructId)
        ensures
            r == self@.struct_id,
    {
        self.struct_id
    }

    pub fn is_clonable(&self) -> (r: bool)
        ensures
            r == self@.clonable,
    {
        self.clonable
    }

    /// Every offset at which this struct embeds `id`: empty when it does not,
    /// one in a registered hierarchy, more only in a diamond.
    pub fn offsets(&self, id: StructId) -> (r: Vec<usize>)
        ensures
            r@ == offsets_of(self@.offsets, id),
    {
        let mut r: Vec<usize> = Vec::new();
        let mut i: usize = 0;
        while i < self.offsets.len()
            invariant
                i <= self@.offsets.len(),
                self@.offsets == self.offsets@,
                r@ == offsets_of(self@.offsets.subrange(0, i as int), id),
            decreases self.offsets.len() - i,
        {
            let (p, a) = self.offsets[i];
            proof {
                let sub = self@.offsets.subrange(0, i + 1);
                assert(sub.drop_last() == self@.offsets.subrange(0, i as int));
                assert(sub.last() == (p, a));
            }
            if p == id {
                r.push(a);
            }
            i = i + 1;
        }
        proof {
            assert(self@.offsets.subrange(0, i as int) == self@.offsets);
        }
        r
    }

    /// The table that binds capability `t` to this struct, if there is one.
    pub fn v_table(&self, reg: &Registry, t: TraitId) -> (r: Option<usize>)
        requires
            reg@.wf(),
        ensures
            r == reg@.lookup(t, self@.struct_id),
    {
        v_table_by_id(reg, t, self.struct_id)
    }

    /// Hands the whole object to the struct's disposal, at its storage origin.
    pub fn drop(&self, object: Vec<u8>, base_offset: isize) -> (r: Disposal)
        ensures
            r.struct_id == self@.struct_id,
            r.base_offset == base_offset,
            r.object@ == object@,
    {
        Disposal { struct_id: self.struct_id, base_offset, object }
    }
}

/// What ends an object's life: its struct, its storage origin and its bytes,
/// handed once to the disposal that the struct was registered with.
#[derive(Debug)]
pub struct Disposal {
    pub struct_id: StructId,
    pub base_offset: isize,
    pub object: Vec<u8>,
}

impl TraitInfo {
    /// Describes a capability and the capabilities that it extends.
    pub fn new(trait_id: TraitId, extends: Vec<(TraitId, usize)>) -> (r: TraitInfo)
        ensures
            r@.trait_id == trait_id,
            r@.extends == extends@,
    {
        TraitInfo { trait_id, extends }
    }

    pub fn trait_id(&self) -> (r: TraitId)
        ensures
            r == self@.trait_id,
    {
        self.trait_id
    }

    /// The table that binds this capability to struct `s`, if there is one.
    pub fn v_table(&self, reg: &Registry, s: StructId) -> (r: Option<usize>)
        requires
            reg@.wf(),
        ensures
            r == reg@.lookup(self@.trait_id, s),
    {
        v_table_by_id(reg, self.trait_id, s)
    }

    /// The slot of the table of `b`, which this capability extends, after its own.
    pub fn offset(&self, b: TraitId) -> (r: usize)
        requires
            names_trait(self@.extends, b),
            distinct_keys(self@.extends),
        ensures
            r == trait_slot(self@.extends, b),
    {
        let mut i: usize = 0;
        loop
            invariant
                i < self.extends@.len(),
                self@.extends == self.extends@,
                names_trait(self@.extends, b),
                distinct_keys(self@.extends),
                forall|j: int| 0 <= j < i ==> (#[trigger] self@.extends[j]).0 != b,
            decreases self.extends.len() - i,
        {
            let (t, slot) = self.extends[i];
            if t == b {
                proof {
                    let k = choose|k: int| 0 <= k < self@.extends.len() && #[trigger] self@.extends[k].0 == b;
                    assert(self@.extends[i as int].0 == self@.extends[k].0);
                    assert(k == i);
                    assert(slot == self@.extends[i as int].1);
                }
                return slot;
            }
            proof {
                assert(self@.extends[i as int].0 != b);
            }
            i = i + 1;
        }
    }
}

/// Whether a table of embedded structs names `p`.
pub open spec fn embeds(offsets: Seq<(StructId, usize)>, p: StructId) -> bool {
    exists|k: int| 0 <= k < offsets.len() && #[trigger] offsets[k].0 == p
}

/// The byte offset at which a table places `p`.
pub open spec fn embed_pos(offsets: Seq<(StructId, usize)>, p: StructId) -> int {
    offsets[choose|k: int| 0 <= k < offsets.len() && #[trigger] offsets[k].0 == p].1 as int
}

/// All the offsets at which a table places `p`, in table order.
pub open spec fn offsets_of(offsets: Seq<(StructId, usize)>, p: StructId) -> Seq<usize>
    decreases offsets.len(),
{
    if offsets.len() == 0 {
        Seq::empty()
    } else {
        let rest = offsets_of(offsets.drop_last(), p);
        if offsets.last().0 == p {
            rest.push(offsets.last().1)
        } else {
            rest
        }
    }
}

/// No struct is named twice in a table.
pub open spec fn distinct_keys<K, V>(s: Seq<(K, V)>) -> bool {
    forall|i: int, j: int| 0 <= i < s.len() && 0 <= j < s.len() && #[trigger] s[i].0 == #[trigger] s[j].0 ==> i == j
}

/// Whether a capability table names `b`.
pub open spec fn names_trait(extends: Seq<(TraitId, usize)>, b: TraitId) -> bool {
    exists|k: int| 0 <= k < extends.len() && #[trigger] extends[k].0 == b
}

/// The slot that a capability table gives `b`.
pub open spec fn trait_slot(extends: Seq<(TraitId, usize)>, b: TraitId) -> int {
    extends[choose|k: int| 0 <= k < extends.len() && #[trigger] extends[k].0 == b].1 as int
}

/// Entry `e` of an embedded struct at offset `a` reappears in `offsets`
/// at the sum of the two offsets.
pub open spec fn inherited_wf(offsets: Seq<(StructId, usize)>, a: usize, e: (StructId, usize)) -> bool {
    &&& embeds(offsets, e.0)
    &&& embed_pos(offsets, e.0) == a + e.1
}

/// The registry's contents.
pub struct RegistryModel {
    pub structs: Seq<StructModel>,
    pub traits: Seq<TraitModel>,
    pub v_tables: Seq<VTable>,
    pub tables: Seq<(VTableRegistryId, usize)>,
    pub indices: Seq<(VTableRegistryId, VTableRegistryId, usize)>,
}

impl RegistryModel {
    pub open spec fn has_struct(self, s: StructId) -> bool {
        exists|i: int| 0 <= i < self.structs.len() && #[trigger] self.structs[i].struct_id == s
    }

    pub open spec fn struct_of(self, s: StructId) -> StructModel {
        self.structs[choose|i: int| 0 <= i < self.structs.len() && #[trigger] self.structs[i].struct_id == s]
    }

    pub open spec fn has_trait(self, t: TraitId) -> bool {
        exists|i: int| 0 <= i < self.traits.len() && #[trigger] self.traits[i].trait_id == t
    }

    pub open spec fn trait_of(self, t: TraitId) -> TraitModel {
        self.traits[choose|i: int| 0 <= i < self.traits.len() && #[trigger] self.traits[i].trait_id == t]
    }

    /// Whether capability `t` is bound to struct `s`.
    pub open spec fn has_entry(self, t: TraitId, s: StructId) -> bool {
        exists|i: int| 0 <= i < self.v_tables.len() && #[trigger] self.v_tables[i].key() == (t, s)
    }

    /// The position of the table that binds `t` to `s`.
    pub open spec fn entry_of(self, t: TraitId, s: StructId) -> int {
        choose|i: int| 0 <= i < self.v_tables.len() && #[trigger] self.v_tables[i].key() == (t, s)
    }

    /// What a look-up of the pair finds.
    pub open spec fn lookup(self, t: TraitId, s: StructId) -> Option<usize> {
        if self.has_entry(t, s) {
            Some(self.entry_of(t, s) as usize)
        } else {
            None
        }
    }

    /// Capability `t` is `b` or declares that it extends `b`.
    pub open spec fn trait_extends(self, t: TraitId, b: TraitId) -> bool {
        t == b || names_trait(self.trait_of(t).extends, b)
    }

    /// Struct `s` embeds struct `p` (every struct embeds itself).
    pub open spec fn struct_extends(self, s: StructId, p: StructId) -> bool {
        embeds(self.struct_of(s).offsets, p)
    }

    /// Byte offset of `p` inside `s`.
    pub open spec fn pos(self, s: StructId, p: StructId) -> int {
        embed_pos(self.struct_of(s).offsets, p)
    }

    pub open spec fn structs_wf(self) -> bool {
        &&& self.struct_ids_unique()
        &&& forall|i: int| 0 <= i < self.structs.len() ==> #[trigger] self.struct_wf(self.structs[i])
    }

    pub open spec fn struct_ids_unique(self) -> bool {
        forall|i: int, j: int|
            0 <= i < self.structs.len() && 0 <= j < self.structs.len()
                && #[trigger] self.structs[i].struct_id == #[trigger] self.structs[j].struct_id ==> i == j
    }

    /// A struct's table: no struct twice, itself at 0, and each entry sound.
    pub open spec fn struct_wf(self, m: StructModel) -> bool {
        &&& distinct_keys(m.offsets)
        &&& embeds(m.offsets, m.struct_id)
        &&& embed_pos(m.offsets, m.struct_id) == 0
        &&& forall|k: int| 0 <= k < m.offsets.len() ==> #[trigger] self.embedding_wf(m, m.offsets[k])
    }

    /// An embedded struct is registered and lies inside the struct, and what
    /// it embeds the struct embeds too, at the sum of the two offsets.
    pub open spec fn embedding_wf(self, m: StructModel, e: (StructId, usize)) -> bool {
        let (p, a) = e;
        &&& self.has_struct(p)
        &&& a + self.struct_of(p).size <= m.size
        &&& forall|q: int|
            0 <= q < self.struct_of(p).offsets.len() ==> #[trigger] inherited_wf(
                m.offsets,
                a,
                self.struct_of(p).offsets[q],
            )
    }

    pub open spec fn traits_wf(self) -> bool {
        &&& forall|i: int, j: int|
            0 <= i < self.traits.len() && 0 <= j < self.traits.len()
                && #[trigger] self.traits[i].trait_id == #[trigger] self.traits[j].trait_id ==> i == j
        &&& forall|i: int| 0 <= i < self.traits.len() ==> distinct_keys(#[trigger] self.traits[i].extends)
    }

    pub open spec fn v_table_keys_unique(self) -> bool {
        forall|i: int, j: int|
            0 <= i < self.v_tables.len() && 0 <= j < self.v_tables.len()
                && #[trigger] self.v_tables[i].key() == #[trigger] self.v_tables[j].key() ==> i == j
    }

    /// Every table binds registered descriptors, no pair twice, and the
    /// tables of the capabilities that its capability extends follow it at
    /// the declared slots.
    pub open spec fn v_tables_wf(self) -> bool {
        &&& self.v_table_keys_unique()
        &&& forall|i: int| 0 <= i < self.v_tables.len() ==> #[trigger] self.v_table_wf(i)
    }

    pub open spec fn v_table_wf(self, i: int) -> bool {
        let v = self.v_tables[i];
        &&& self.has_struct(v.spec_struct_id())
        &&& self.has_trait(v.spec_trait_id())
        &&& forall|k: int|
            0 <= k < self.trait_of(v.spec_trait_id()).extends.len() ==> #[trigger] self.slot_wf(
                i,
                self.trait_of(v.spec_trait_id()).extends[k],
            )
    }

    /// The table of capability `e.0` for the same struct sits `e.1` slots on.
    pub open spec fn slot_wf(self, i: int, e: (TraitId, usize)) -> bool {
        &&& i + e.1 < self.v_tables.len()
        &&& self.v_tables[i + e.1].key() == (e.0, self.v_tables[i].spec_struct_id())
    }

    /// Some block or some indirect route is registered under `key`.
    pub open spec fn routed(self, key: VTableRegistryId) -> bool {
        ||| exists|k: int| 0 <= k < self.tables.len() && #[trigger] self.tables[k].0 == key
        ||| exists|k: int| 0 <= k < self.indices.len() && #[trigger] self.indices[k].0 == key
    }

    pub open spec fn block_wf(self, e: (VTableRegistryId, usize)) -> bool {
        &&& e.1 < self.v_tables.len()
        &&& self.v_tables[e.1 as int].key() == e.0
    }

    pub open spec fn index_wf(self, e: (VTableRegistryId, VTableRegistryId, usize)) -> bool {
        exists|n: int| 0 <= n < self.tables.len() && #[trigger] self.lands(self.tables[n], e)
    }

    /// Route `e` through block `t` ends on the table of its key.
    pub open spec fn lands(self, t: (VTableRegistryId, usize), e: (VTableRegistryId, VTableRegistryId, usize)) -> bool {
        &&& t.0 == e.1
        &&& t.1 + e.2 < self.v_tables.len()
        &&& self.v_tables[t.1 + e.2].key() == e.0
    }

    /// Each block starts with the table of its key; each indirect key lands,
    /// through its block, on its own table; every table is reached by one of
    /// the two.
    pub open spec fn routes_wf(self) -> bool {
        &&& forall|k: int| 0 <= k < self.tables.len() ==> #[trigger] self.block_wf(self.tables[k])
        &&& forall|k: int| 0 <= k < self.indices.len() ==> #[trigger] self.index_wf(self.indices[k])
        &&& forall|i: int| 0 <= i < self.v_tables.len() ==> self.routed(#[trigger] self.v_tables[i].key())
    }

    pub open spec fn wf(self) -> bool {
        &&& self.structs_wf()
        &&& self.traits_wf()
        &&& self.v_tables_wf()
        &&& self.routes_wf()
    }
}

/// The process's type descriptions: built once, read by every cast.
#[derive(Debug)]
pub struct Registry {
    structs: Vec<StructInfo>,
    traits: Vec<TraitInfo>,
    v_tables: Vec<VTable>,
    tables: Vec<(VTableRegistryId, usize)>,
    indices: VTableRegistryIndices,
}

impl View for Registry {
    type V = RegistryModel;

    closed spec fn view(&self) -> RegistryModel {
        RegistryModel {
            structs: self.structs@.map_values(|s: StructInfo| s@),
            traits: self.traits@.map_values(|t: TraitInfo| t@),
            v_tables: self.v_tables@,
            tables: self.tables@,
            indices: self.indices@,
        }
    }
}

impl Registry {
    /// The registry's tables can be counted in a `usize`.
    pub proof fn lemma_v_tables_len(&self)
        ensures
            self@.v_tables.len() <= usize::MAX,
    {
        assert(self@.v_tables.len() == self.v_tables.len());
    }

    /// The dispatch table at position `i`.
    pub fn v_table_at(&self, i: usize) -> (r: &VTable)
        requires
            i < self@.v_tables.len(),
        ensures
            *r == self@.v_tables[i as int],
    {
        &self.v_tables[i]
    }
}

/// The descriptor of struct `id`; the registry must know it.
pub fn struct_info(reg: &Registry, id: StructId) -> (r: &StructInfo)
    requires
        reg@.wf(),
        reg@.has_struct(id),
    ensures
        r@ == reg@.struct_of(id),
{
    let ghost m = reg@;
    let mut i: usize = 0;
    loop
        invariant
            m == reg@,
            m.wf(),
            m.has_struct(id),
            i < reg.structs.len(),
            forall|j: int| 0 <= j < i ==> (#[trigger] m.structs[j]).struct_id != id,
        decreases reg.structs.len() - i,
    {
        if reg.structs[i].struct_id == id {
            proof {
                assert(m.structs[i as int].struct_id == id);
            }
            return &reg.structs[i];
        }
        proof {
            assert(m.structs[i as int].struct_id != id);
        }
        i = i + 1;
    }
}

/// The descriptor of capability `id`; the registry must know it.
pub fn trait_info(reg: &Registry, id: TraitId) -> (r: &TraitInfo)
    requires
        reg@.wf(),
        reg@.has_trait(id),
    ensures
        r@ == reg@.trait_of(id),
{
    let ghost m = reg@;
    let mut i: usize = 0;
    loop
        invariant
            m == reg@,
            m.wf(),
            m.has_trait(id),
            i < reg.traits.len(),
            forall|j: int| 0 <= j < i ==> (#[trigger] m.traits[j]).trait_id != id,
        decreases reg.traits.len() - i,
    {
        if reg.traits[i].trait_id == id {
            proof {
                assert(m.traits[i as int].trait_id == id);
            }
            return &reg.traits[i];
        }
        proof {
            assert(m.traits[i as int].trait_id != id);
        }
        i = i + 1;
    }
}

/// Dispatch tables laid out block after block.
pub open spec fn flatten(blocks: Seq<(VTableRegistryId, Vec<VTable>)>) -> Seq<VTable>
    decreases blocks.len(),
{
    if blocks.len() == 0 {
        Seq::empty()
    } else {
        flatten(blocks.drop_last()) + blocks.last().1@
    }
}

/// Each block's key and the position of its first table once laid out.
pub open spec fn block_starts(blocks: Seq<(VTableRegistryId, Vec<VTable>)>) -> Seq<(VTableRegistryId, usize)>
    decreases blocks.len(),
{
    if blocks.len() == 0 {
        Seq::empty()
    } else {
        block_starts(blocks.drop_last()).push((blocks.last().0, flatten(blocks.drop_last()).len() as usize))
    }
}

/// The registry that the given descriptors describe.
pub open spec fn registry_model(
    structs: Seq<StructInfo>,
    traits: Seq<TraitInfo>,
    blocks: Seq<(VTableRegistryId, Vec<VTable>)>,
    indices: Seq<(VTableRegistryId, VTableRegistryId, usize)>,
) -> RegistryModel {
    RegistryModel {
        structs: structs.map_values(|s: StructInfo| s@),
        traits: traits.map_values(|t: TraitInfo| t@),
        v_tables: flatten(blocks),
        tables: block_starts(blocks),
        indices,
    }
}

proof fn lemma_struct_of(m: RegistryModel, i: int)
    requires
        m.struct_ids_unique(),
        0 <= i < m.structs.len(),
    ensures
        m.has_struct(m.structs[i].struct_id),
        m.struct_of(m.structs[i].struct_id) == m.structs[i],
{
    let id = m.structs[i].struct_id;
    assert(m.has_struct(id));
    let j = choose|j: int| 0 <= j < m.structs.len() && #[trigger] m.structs[j].struct_id == id;
    assert(m.structs[j].struct_id == m.structs[i].struct_id);
}

proof fn lemma_trait_of(m: RegistryModel, i: int)
    requires
        m.traits_wf(),
        0 <= i < m.traits.len(),
    ensures
        m.has_trait(m.traits[i].trait_id),
        m.trait_of(m.traits[i].trait_id) == m.traits[i],
{
    let id = m.traits[i].trait_id;
    assert(m.has_trait(id));
    let j = choose|j: int| 0 <= j < m.traits.len() && #[trigger] m.traits[j].trait_id == id;
    assert(m.traits[j].trait_id == m.traits[i].trait_id);
}

proof fn lemma_embed_pos(tbl: Seq<(StructId, usize)>, k: int)
    requires
        distinct_keys(tbl),
        0 <= k < tbl.len(),
    ensures
        embeds(tbl, tbl[k].0),
        embed_pos(tbl, tbl[k].0) == tbl[k].1,
{
    let p = tbl[k].0;
    assert(embeds(tbl, p));
    let j = choose|j: int| 0 <= j < tbl.len() && #[trigger] tbl[j].0 == p;
    assert(tbl[j].0 == tbl[k].0);
}

fn find_offset(tbl: &Vec<(StructId, usize)>, id: StructId) -> (r: Option<usize>)
    ensures
        match r {
            Some(k) => k < tbl@.len() && tbl@[k as int].0 == id,
            None => !embeds(tbl@, id),
        },
{
    let mut k: usize = 0;
    while k < tbl.len()
        invariant
            k <= tbl@.len(),
            forall|j: int| 0 <= j < k ==> (#[trigger] tbl@[j]).0 != id,
        decreases tbl.len() - k,
    {
        if tbl[k].0 == id {
            return Some(k);
        }
        k = k + 1;
    }
    None
}

fn distinct_struct_keys(tbl: &Vec<(StructId, usize)>) -> (r: bool)
    ensures
        r == distinct_keys(tbl@),
{
    let mut i: usize = 0;
    while i < tbl.len()
        invariant
            i <= tbl@.len(),
            forall|a: int, b: int| 0 <= a < i && 0 <= b < i && #[trigger] tbl@[a].0 == #[trigger] tbl@[b].0 ==> a == b,
        decreases tbl.len() - i,
    {
        let mut j: usize = 0;
        while j < i
            invariant
                j <= i < tbl@.len(),
                forall|a: int, b: int| 0 <= a < i && 0 <= b < i && #[trigger] tbl@[a].0 == #[trigger] tbl@[b].0 ==> a == b,
                forall|b: int| 0 <= b < j ==> (#[trigger] tbl@[b]).0 != tbl@[i as int].0,
            decreases i - j,
        {
            if tbl[j].0 == tbl[i].0 {
                proof {
                    assert(tbl@[j as int].0 == tbl@[i as int].0);
                }
                return false;
            }
            j = j + 1;
        }
        i = i + 1;
    }
    true
}

fn distinct_trait_keys(tbl: &Vec<(TraitId, usize)>) -> (r: bool)
    ensures
        r == distinct_keys(tbl@),
{
    let mut i: usize = 0;
    while i < tbl.len()
        invariant
            i <= tbl@.len(),
            forall|a: int, b: int| 0 <= a < i && 0 <= b < i && #[trigger] tbl@[a].0 == #[trigger] tbl@[b].0 ==> a == b,
        decreases tbl.len() - i,
    {
        let mut j: usize = 0;
        while j < i
            invariant
                j <= i < tbl@.len(),
                forall|a: int, b: int| 0 <= a < i && 0 <= b < i && #[trigger] tbl@[a].0 == #[trigger] tbl@[b].0 ==> a == b,
                forall|b: int| 0 <= b < j ==> (#[trigger] tbl@[b]).0 != tbl@[i as int].0,
            decreases i - j,
        {
            if tbl[j].0 == tbl[i].0 {
                proof {
                    assert(tbl@[j as int].0 == tbl@[i as int].0);
                }
                return false;
            }
            j = j + 1;
        }
        i = i + 1;
    }
    true
}

impl Registry {
    /// Installs the descriptors, once: `None` when they do not describe a
    /// supported hierarchy (a name twice, a diamond, an embedded struct that
    /// does not fit, a table out of place or unreachable).
    pub fn new(
        structs: Vec<StructInfo>,
        traits: Vec<TraitInfo>,
        tables: VTableRegistryTables,
        indices: VTableRegistryIndices,
    ) -> (r: Option<Registry>)
        ensures
            match r {
                Some(reg) => reg@ == registry_model(structs@, traits@, tables@, indices@) && reg@.wf(),
                None => !registry_model(structs@, traits@, tables@, indices@).wf(),
            },
    {
        let mut v_tables: Vec<VTable> = Vec::new();
        let mut starts: Vec<(VTableRegistryId, usize)> = Vec::new();
        let mut k: usize = 0;
        while k < tables.len()
            invariant
                k <= tables@.len(),
                v_tables@ == flatten(tables@.subrange(0, k as int)),
                starts@ == block_starts(tables@.subrange(0, k as int)),
            decreases tables.len() - k,
        {
            let key = tables[k].0;
            let block = &tables[k].1;
            proof {
                let sub = tables@.subrange(0, k + 1);
                assert(sub.drop_last() == tables@.subrange(0, k as int));
                assert(sub.last() == tables@[k as int]);
            }
            starts.push((key, v_tables.len()));
            let mut j: usize = 0;
            while j < block.len()
                invariant
                    k < tables@.len(),
                    j <= block@.len(),
                    block@ == tables@[k as int].1@,
                    v_tables@ == flatten(tables@.subrange(0, k as int)) + block@.subrange(0, j as int),
                    starts@ == block_starts(tables@.subrange(0, k + 1)),
                decreases block.len() - j,
            {
                v_tables.push(block[j]);
                j = j + 1;
                proof {
                    assert(block@.subrange(0, j as int) == block@.subrange(0, j - 1).push(block@[j - 1]));
                }
            }
            proof {
                assert(block@.subrange(0, j as int) == block@);
            }
            k = k + 1;
        }
        proof {
            assert(tables@.subrange(0, k as int) == tables@);
        }
        let reg = Registry { structs, traits, v_tables, tables: starts, indices };
        if reg.check_structs() && reg.check_traits() && reg.check_v_tables() && reg.check_routes() {
            Some(reg)
        } else {
            None
        }
    }

    fn find_struct(&self, id: StructId) -> (r: Option<usize>)
        ensures
            match r {
                Some(i) => i < self@.structs.len() && self@.structs[i as int].struct_id == id,
                None => !self@.has_struct(id),
            },
    {
        let mut i: usize = 0;
        while i < self.structs.len()
            invariant
                i <= self@.structs.len(),
                forall|j: int| 0 <= j < i ==> (#[trigger] self@.structs[j]).struct_id != id,
            decreases self.structs.len() - i,
        {
            if self.structs[i].struct_id == id {
                return Some(i);
            }
            i = i + 1;
        }
        None
    }

    fn find_trait(&self, id: TraitId) -> (r: Option<usize>)
        ensures
            match r {
                Some(i) => i < self@.traits.len() && self@.traits[i as int].trait_id == id,
                None => !self@.has_trait(id),
            },
    {
        let mut i: usize = 0;
        while i < self.traits.len()
            invariant
                i <= self@.traits.len(),
                forall|j: int| 0 <= j < i ==> (#[trigger] self@.traits[j]).trait_id != id,
            decreases self.traits.len() - i,
        {
            if self.traits[i].trait_id == id {
                return Some(i);
            }
            i = i + 1;
        }
        None
    }

    fn find_block(&self, key: VTableRegistryId) -> (r: Option<usize>)
        ensures
            match r {
                Some(n) => n < self@.tables.len() && self@.tables[n as int].0 == key,
                None => forall|n: int| 0 <= n < self@.tables.len() ==> (#[trigger] self@.tables[n]).0 != key,
            },
    {
        let mut n: usize = 0;
        while n < self.tables.len()
            invariant
                n <= self@.tables.len(),
                forall|j: int| 0 <= j < n ==> (#[trigger] self@.tables[j]).0 != key,
            decreases self.tables.len() - n,
        {
            if same_key(self.tables[n].0, key) {
                return Some(n);
            }
            n = n + 1;
        }
        None
    }

    fn check_struct(&self, info: &StructInfo) -> (r: bool)
        requires
            self@.struct_ids_unique(),
        ensures
            r == self@.struct_wf(info@),
    {
        let ghost m = self@;
        let tbl = &info.offsets;
        if !distinct_struct_keys(tbl) {
            return false;
        }
        match find_offset(tbl, info.struct_id) {
            None => {
                return false;
            },
            Some(k) => {
                proof {
                    lemma_embed_pos(tbl@, k as int);
                }
                if tbl[k].1 != 0 {
                    return false;
                }
            },
        }
        let msize = info.size();
        let mut k: usize = 0;
        while k < tbl.len()
            invariant
                m == self@,
                m.struct_ids_unique(),
                distinct_keys(tbl@),
                tbl@ == info@.offsets,
                msize == info@.size,
                embeds(info@.offsets, info@.struct_id),
                embed_pos(info@.offsets, info@.struct_id) == 0,
                k <= tbl@.len(),
                forall|x: int| 0 <= x < k ==> #[trigger] m.embedding_wf(info@, tbl@[x]),
            decreases tbl.len() - k,
        {
            let (p, a) = tbl[k];
            let j = match self.find_struct(p) {
                None => {
                    proof {
                        assert(!m.embedding_wf(info@, tbl@[k as int]));
                    }
                    return false;
                },
                Some(j) => j,
            };
            proof {
                lemma_struct_of(m, j as int);
            }
            let ps = &self.structs[j];
            let psize = ps.size();
            if a > msize || psize > msize - a {
                proof {
                    assert(!m.embedding_wf(info@, tbl@[k as int]));
                }
                return false;
            }
            let ptbl = &ps.offsets;
            let mut q: usize = 0;
            while q < ptbl.len()
                invariant
                    m == self@,
                    distinct_keys(tbl@),
                    tbl@ == info@.offsets,
                    ptbl@ == m.struct_of(p).offsets,
                    k < tbl@.len(),
                    tbl@[k as int] == (p, a),
                    q <= ptbl@.len(),
                    forall|x: int| 0 <= x < q ==> #[trigger] inherited_wf(info@.offsets, a, ptbl@[x]),
                decreases ptbl.len() - q,
            {
                let (g, b) = ptbl[q];
                match find_offset(tbl, g) {
                    None => {
                        proof {
                            assert(!inherited_wf(info@.offsets, a, ptbl@[q as int]));
                            assert(!m.embedding_wf(info@, tbl@[k as int]));
                        }
                        return false;
                    },
                    Some(n) => {
                        proof {
                            lemma_embed_pos(tbl@, n as int);
                        }
                        let c = tbl[n].1;
                        if c < a || c - a != b {
                            proof {
                                assert(!inherited_wf(info@.offsets, a, ptbl@[q as int]));
                                assert(!m.embedding_wf(info@, tbl@[k as int]));
                            }
                            return false;
                        }
                    },
                }
                q = q + 1;
            }
            proof {
                assert(m.embedding_wf(info@, tbl@[k as int]));
            }
            k = k + 1;
        }
        true
    }

    fn check_structs(&self) -> (r: bool)
        ensures
            r == self@.structs_wf(),
    {
        let ghost m = self@;
        let mut i: usize = 0;
        while i < self.structs.len()
            invariant
                m == self@,
                i <= m.structs.len(),
                forall|a: int, b: int|
                    0 <= a < i && 0 <= b < i && #[trigger] m.structs[a].struct_id == #[trigger] m.structs[b].struct_id
                        ==> a == b,
            decreases self.structs.len() - i,
        {
            let mut j: usize = 0;
            while j < i
                invariant
                    m == self@,
                    j <= i < m.structs.len(),
                    forall|a: int, b: int|
                        0 <= a < i && 0 <= b < i && #[trigger] m.structs[a].struct_id
                            == #[trigger] m.structs[b].struct_id ==> a == b,
                    forall|b: int| 0 <= b < j ==> (#[trigger] m.structs[b]).struct_id != m.structs[i as int].struct_id,
                decreases i - j,
            {
                if self.structs[j].struct_id == self.structs[i].struct_id {
                    proof {
                        assert(m.structs[j as int].struct_id == m.structs[i as int].struct_id);
                    }
                    return false;
                }
                j = j + 1;
            }
            i = i + 1;
        }
        let mut i: usize = 0;
        while i < self.structs.len()
            invariant
                m == self@,
                m.struct_ids_unique(),
                i <= m.structs.len(),
                forall|a: int| 0 <= a < i ==> #[trigger] m.struct_wf(m.structs[a]),
            decreases self.structs.len() - i,
        {
            proof {
                assert(m.structs[i as int] == self.structs@[i as int]@);
            }
            if !self.check_struct(&self.structs[i]) {
                return false;
            }
            i = i + 1;
        }
        true
    }

    fn check_traits(&self) -> (r: bool)
        ensures
            r == self@.traits_wf(),
    {
        let ghost m = self@;
        let mut i: usize = 0;
        while i < self.traits.len()
            invariant
                m == self@,
                i <= m.traits.len(),
                forall|a: int, b: int|
                    0 <= a < i && 0 <= b < i && #[trigger] m.traits[a].trait_id == #[trigger] m.traits[b].trait_id
                        ==> a == b,
                forall|a: int| 0 <= a < i ==> distinct_keys(#[trigger] m.traits[a].extends),
            decreases self.traits.len() - i,
        {
            let mut j: usize = 0;
            while j < i
                invariant
                    m == self@,
                    j <= i < m.traits.len(),
                    forall|b: int| 0 <= b < j ==> (#[trigger] m.traits[b]).trait_id != m.traits[i as int].trait_id,
                decreases i - j,
            {
                if self.traits[j].trait_id == self.traits[i].trait_id {
                    proof {
                        assert(m.traits[j as int].trait_id == m.traits[i as int].trait_id);
                    }
                    return false;
                }
                j = j + 1;
            }
            if !distinct_trait_keys(&self.traits[i].extends) {
                proof {
                    assert(!distinct_keys(m.traits[i as int].extends));
                }
                return false;
            }
            i = i + 1;
        }
        true
    }

    fn check_v_tables(&self) -> (r: bool)
        requires
            self@.traits_wf(),
        ensures
            r == self@.v_tables_wf(),
    {
        let ghost m = self@;
        let nv = self.v_tables.len();
        let mut i: usize = 0;
        while i < nv
            invariant
                m == self@,
                nv == m.v_tables.len(),
                i <= nv,
                forall|a: int, b: int|
                    0 <= a < i && 0 <= b < i && #[trigger] m.v_tables[a].key() == #[trigger] m.v_tables[b].key() ==> a
                        == b,
            decreases nv - i,
        {
            let mut j: usize = 0;
            while j < i
                invariant
                    m == self@,
                    nv == m.v_tables.len(),
                    j <= i < nv,
                    forall|b: int| 0 <= b < j ==> (#[trigger] m.v_tables[b]).key() != m.v_tables[i as int].key(),
                decreases i - j,
            {
                let a = self.v_tables[j];
                let b = self.v_tables[i];
                if a.trait_id == b.trait_id && a.struct_id == b.struct_id {
                    proof {
                        assert(m.v_tables[j as int].key() == m.v_tables[i as int].key());
                    }
                    return false;
                }
                j = j + 1;
            }
            i = i + 1;
        }
        let mut i: usize = 0;
        while i < nv
            invariant
                m == self@,
                m.traits_wf(),
                m.v_table_keys_unique(),
                nv == m.v_tables.len(),
                i <= nv,
                forall|a: int| 0 <= a < i ==> #[trigger] m.v_table_wf(a),
            decreases nv - i,
        {
            let v = self.v_tables[i];
            proof {
                assert(v == m.v_tables[i as int]);
            }
            if self.find_struct(v.struct_id).is_none() {
                proof {
                    assert(!m.v_table_wf(i as int));
                }
                return false;
            }
            let tj = match self.find_trait(v.trait_id) {
                None => {
                    proof {
                        assert(!m.v_table_wf(i as int));
                    }
                    return false;
                },
                Some(tj) => tj,
            };
            proof {
                lemma_trait_of(m, tj as int);
            }
            let ext = &self.traits[tj].extends;
            let mut k: usize = 0;
            while k < ext.len()
                invariant
                    m == self@,
                    nv == m.v_tables.len(),
                    i < nv,
                    v == m.v_tables[i as int],
                    ext@ == m.trait_of(v.spec_trait_id()).extends,
                    k <= ext@.len(),
                    forall|x: int| 0 <= x < k ==> #[trigger] m.slot_wf(i as int, ext@[x]),
                decreases ext.len() - k,
            {
                let (b, slot) = ext[k];
                if slot >= nv - i {
                    proof {
                        assert(!m.slot_wf(i as int, ext@[k as int]));
                        assert(!m.v_table_wf(i as int));
                    }
                    return false;
                }
                let w = self.v_tables[i + slot];
                if !(w.trait_id == b && w.struct_id == v.struct_id) {
                    proof {
                        assert(!m.slot_wf(i as int, ext@[k as int]));
                        assert(!m.v_table_wf(i as int));
                    }
                    return false;
                }
                k = k + 1;
            }
            proof {
                assert(m.v_table_wf(i as int));
            }
            i = i + 1;
        }
        true
    }

    fn check_routes(&self) -> (r: bool)
        requires
            self@.v_table_keys_unique(),
        ensures
            r == self@.routes_wf(),
    {
        let ghost m = self@;
        let nv = self.v_tables.len();
        let mut k: usize = 0;
        while k < self.tables.len()
            invariant
                m == self@,
                nv == m.v_tables.len(),
                k <= m.tables.len(),
                forall|x: int| 0 <= x < k ==> #[trigger] m.block_wf(m.tables[x]),
            decreases self.tables.len() - k,
        {
            let (key, start) = self.tables[k];
            proof {
                assert((key, start) == m.tables[k as int]);
            }
            if start >= nv {
                proof {
                    assert(!m.block_wf(m.tables[k as int]));
                }
                return false;
            }
            let v = self.v_tables[start];
            if !same_key((v.trait_id, v.struct_id), key) {
                proof {
                    assert(v == m.v_tables[start as int]);
                    assert(!m.block_wf(m.tables[k as int]));
                }
                return false;
            }
            k = k + 1;
        }
        let mut k: usize = 0;
        while k < self.indices.len()
            invariant
                m == self@,
                m.v_table_keys_unique(),
                nv == m.v_tables.len(),
                forall|x: int| 0 <= x < m.tables.len() ==> #[trigger] m.block_wf(m.tables[x]),
                k <= m.indices.len(),
                forall|x: int| 0 <= x < k ==> #[trigger] m.index_wf(m.indices[x]),
            decreases self.indices.len() - k,
        {
            let (key, head, slot) = self.indices[k];
            let ghost e = (key, head, slot);
            match self.find_block(head) {
                None => {
                    proof {
                        assert(e == m.indices[k as int]);
                        assert(!m.index_wf(e));
                    }
                    return false;
                },
                Some(n) => {
                    let start = self.tables[n].1;
                    proof {
                        assert(m.block_wf(m.tables[n as int]));
                    }
                    let ok = slot < nv - start && {
                        let v = self.v_tables[start + slot];
                        proof {
                            assert(v == m.v_tables[start + slot]);
                        }
                        same_key((v.trait_id, v.struct_id), key)
                    };
                    if !ok {
                        proof {
                            assert(e == m.indices[k as int]);
                            assert forall|n2: int| 0 <= n2 < m.tables.len() implies !#[trigger] m.lands(m.tables[n2], e) by {
                                if m.tables[n2].0 == head {
                                    assert(m.block_wf(m.tables[n2]));
                                    assert(m.v_tables[m.tables[n2].1 as int].key() == m.v_tables[start as int].key());
                                }
                            }
                            assert(!m.index_wf(m.indices[k as int]));
                        }
                        return false;
                    }
                    proof {
                        assert(m.lands(m.tables[n as int], e));
                        assert(e == m.indices[k as int]);
                    }
                },
            }
            k = k + 1;
        }
        let mut i: usize = 0;
        while i < nv
            invariant
                m == self@,
                nv == m.v_tables.len(),
                i <= nv,
                forall|x: int| 0 <= x < i ==> m.routed(#[trigger] m.v_tables[x].key()),
            decreases nv - i,
        {
            let v = self.v_tables[i];
            let key = (v.trait_id, v.struct_id);
            proof {
                assert(key == m.v_tables[i as int].key());
            }
            match self.find_block(key) {
                Some(n) => {
                    proof {
                        assert(m.tables[n as int].0 == key);
                    }
                },
                None => match locate_index(self, key) {
                    Some((head, slot)) => {
                        proof {
                            let k = choose|k: int|
                                0 <= k < m.indices.len() && #[trigger] m.indices[k] == (key, head, slot);
                            assert(m.indices[k].0 == key);
                        }
                    },
                    None => {
                        return false;
                    },
                },
            }
            i = i + 1;
        }
        true
    }
}

fn same_key(a: VTableRegistryId, b: VTableRegistryId) -> (r: bool)
    ensures
        r == (a == b),
{
    a.0 == b.0 && a.1 == b.1
}

/// The first indirect route for `id`: the key of its block and its slot.
fn locate_index(reg: &Registry, id: VTableRegistryId) -> (r: Option<(VTableRegistryId, usize)>)
    ensures
        match r {
            Some((head, slot)) => exists|k: int|
                0 <= k < reg@.indices.len() && #[trigger] reg@.indices[k] == (id, head, slot),
            None => forall|k: int| 0 <= k < reg@.indices.len() ==> (#[trigger] reg@.indices[k]).0 != id,
        },
{
    let mut i: usize = 0;
    while i < reg.indices.len()
        invariant
            i <= reg@.indices.len(),
            forall|k: int| 0 <= k < i ==> (#[trigger] reg@.indices[k]).0 != id,
        decreases reg@.indices.len() - i,
    {
        let (k_id, v_id, off) = reg.indices[i];
        if same_key(k_id, id) {
            proof {
                assert(reg@.indices[i as int] == (id, v_id, off));
            }
            return Some((v_id, off));
        }
        i = i + 1;
    }
    None
}

/// The table `slot` places after the start of the first block under `id`.
fn locate_vtable(reg: &Registry, id: VTableRegistryId, slot: usize) -> (r: Option<usize>)
    requires
        forall|n: int|
            0 <= n < reg@.tables.len() && (#[trigger] reg@.tables[n]).0 == id ==> reg@.tables[n].1 + slot
                < reg@.v_tables.len(),
    ensures
        match r {
            Some(x) => exists|n: int|
                0 <= n < reg@.tables.len() && (#[trigger] reg@.tables[n]).0 == id && x == reg@.tables[n].1
                    + slot,
            None => forall|n: int| 0 <= n < reg@.tables.len() ==> (#[trigger] reg@.tables[n]).0 != id,
        },
{
    let mut i: usize = 0;
    while i < reg.tables.len()
        invariant
            i <= reg@.tables.len(),
            forall|k: int| 0 <= k < i ==> (#[trigger] reg@.tables[k]).0 != id,
            forall|n: int|
                0 <= n < reg@.tables.len() && (#[trigger] reg@.tables[n]).0 == id ==> reg@.tables[n].1 + slot
                    < reg@.v_tables.len(),
        decreases reg@.tables.len() - i,
    {
        let (k_id, start) = reg.tables[i];
        if same_key(k_id, id) {
            proof {
                assert(reg@.tables[i as int].0 == id);
                assert(start == reg@.tables[i as int].1);
                assert(reg@.tables[i as int].1 + slot < reg@.v_tables.len());
                assert(reg@.v_tables.len() == reg.v_tables.len());
            }
            return Some(start + slot);
        }
        i = i + 1;
    }
    None
}

/// The table that binds capability `t` to struct `s`: found directly under
/// its own key, or through the block of the struct's first capability.
pub fn v_table_by_id(reg: &Registry, t: TraitId, s: StructId) -> (r: Option<usize>)
    requires
        reg@.wf(),
    ensures
        r == reg@.lookup(t, s),
{
    let ghost m = reg@;
    let key = (t, s);
    match locate_index(reg, key) {
        Some((head, slot)) => {
            let ghost e = (key, head, slot);
            proof {
                let k = choose|k: int| 0 <= k < m.indices.len() && #[trigger] m.indices[k] == e;
                assert(m.index_wf(m.indices[k]));
                let n0 = choose|n: int| 0 <= n < m.tables.len() && #[trigger] m.lands(m.tables[n], e);
                assert forall|n: int|
                    0 <= n < m.tables.len() && (#[trigger] m.tables[n]).0 == head implies m.tables[n].1 + slot
                        < m.v_tables.len() by {
                    assert(m.block_wf(m.tables[n]));
                    assert(m.block_wf(m.tables[n0]));
                    assert(m.v_tables[m.tables[n].1 as int].key() == m.v_tables[m.tables[n0].1 as int].key());
                }
            }
            let r = locate_vtable(reg, head, slot);
            proof {
                let x = r->Some_0 as int;
                let n = choose|n: int|
                    0 <= n < m.tables.len() && (#[trigger] m.tables[n]).0 == head && x == m.tables[n].1 + slot;
                let k = choose|k: int| 0 <= k < m.indices.len() && #[trigger] m.indices[k] == e;
                assert(m.index_wf(m.indices[k]));
                let n0 = choose|n: int| 0 <= n < m.tables.len() && #[trigger] m.lands(m.tables[n], e);
                assert(m.block_wf(m.tables[n]));
                assert(m.block_wf(m.tables[n0]));
                assert(m.v_tables[m.tables[n].1 as int].key() == m.v_tables[m.tables[n0].1 as int].key());
                assert(m.v_tables[x].key() == key);
                assert(m.has_entry(t, s));
                assert(m.v_tables[m.entry_of(t, s)].key() == key);
            }
            r
        },
        None => {
            proof {
                assert forall|n: int|
                    0 <= n < m.tables.len() && (#[trigger] m.tables[n]).0 == key implies m.tables[n].1 + 0
                        < m.v_tables.len() by {
                    assert(m.block_wf(m.tables[n]));
                }
            }
            let r = locate_vtable(reg, key, 0);
            proof {
                if r is Some {
                    let x = r->Some_0 as int;
                    let n = choose|n: int|
                        0 <= n < m.tables.len() && (#[trigger] m.tables[n]).0 == key && x == m.tables[n].1 + 0;
                    assert(m.block_wf(m.tables[n]));
                    assert(m.v_tables[x].key() == key);
                    assert(m.has_entry(t, s));
                    assert(m.v_tables[m.entry_of(t, s)].key() == key);
                } else if m.has_entry(t, s) {
                    let i = m.entry_of(t, s);
                    assert(m.v_tables[i].key() == key);
                    assert(m.routed(key));
                    if exists|k: int| 0 <= k < m.tables.len() && #[trigger] m.tables[k].0 == key {
                        let k = choose|k: int| 0 <= k < m.tables.len() && #[trigger] m.tables[k].0 == key;
                        assert(m.tables[k].0 != key);
                    } else {
                        let k = choose|k: int| 0 <= k < m.indices.len() && #[trigger] m.indices[k].0 == key;
                        assert(m.indices[k].0 != key);
                    }
                }
            }
            r
        },
    }
}

/// The table that binds capability `t` to struct `s`; the pair must be bound.
pub fn v_table(reg: &Registry, t: TraitId, s: StructId) -> (r: usize)
    requires
        reg@.wf(),
        reg@.has_entry(t, s),
    ensures
        r == reg@.entry_of(t, s),
        r < reg@.v_tables.len(),
{
    proof {
        let i = reg@.entry_of(t, s);
        assert(0 <= i < reg@.v_tables.len() && reg@.v_tables[i].key() == (t, s));
        assert(reg@.v_tables.len() == reg.v_tables.len());
    }
    match v_table_by_id(reg, t, s) {
        Some(r) => r,
        None => {
            proof {
                assert(false);
            }
            0
        },
    }
}

/// A table names `p` exactly when it gives `p` at least one offset.
pub proof fn lemma_offsets_of_len(tbl: Seq<(StructId, usize)>, p: StructId)
    ensures
        offsets_of(tbl, p).len() > 0 <==> embeds(tbl, p),
        distinct_keys(tbl) && embeds(tbl, p) ==> offsets_of(tbl, p) == seq![embed_pos(tbl, p) as usize],
    decreases tbl.len(),
{
    if tbl.len() > 0 {
        let rest = tbl.drop_last();
        lemma_offsets_of_len(rest, p);
        if embeds(rest, p) {
            let k = choose|k: int| 0 <= k < rest.len() && #[trigger] rest[k].0 == p;
            assert(tbl[k].0 == p);
        }
        if embeds(tbl, p) && tbl.last().0 != p {
            let k = choose|k: int| 0 <= k < tbl.len() && #[trigger] tbl[k].0 == p;
            assert(rest[k].0 == p);
        }
        if distinct_keys(tbl) && embeds(tbl, p) {
            let k = choose|k: int| 0 <= k < tbl.len() && #[trigger] tbl[k].0 == p;
            if tbl.last().0 == p {
                assert(tbl[tbl.len() - 1].0 == tbl[k].0);
                if embeds(rest, p) {
                    let j = choose|j: int| 0 <= j < rest.len() && #[trigger] rest[j].0 == p;
                    assert(tbl[j].0 == tbl[k].0);
                }
                assert(offsets_of(rest, p).len() == 0);
                assert(offsets_of(tbl, p) =~= seq![tbl[k].1]);
            } else {
                assert(rest[k].0 == p);
                assert(distinct_keys(rest)) by {
                    assert forall|a: int, b: int|
                        0 <= a < rest.len() && 0 <= b < rest.len() && #[trigger] rest[a].0 == #[trigger] rest[b].0 implies a == b by {
                        assert(tbl[a].0 == tbl[b].0);
                    }
                }
                let j = choose|j: int| 0 <= j < rest.len() && #[trigger] rest[j].0 == p;
                assert(tbl[j].0 == tbl[k].0);
            }
        }
    }
}

/// In a well-formed registry, embedding is transitive and offsets add up.
pub proof fn lemma_embed_trans(reg: RegistryModel, c: StructId, s: StructId, p: StructId)
    requires
        reg.wf(),
        reg.has_struct(c),
        reg.struct_extends(c, s),
        reg.struct_extends(s, p),
    ensures
        reg.has_struct(s),
        reg.struct_extends(c, p),
        reg.pos(c, p) == reg.pos(c, s) + reg.pos(s, p),
{
    let i = choose|i: int| 0 <= i < reg.structs.len() && #[trigger] reg.structs[i].struct_id == c;
    let m = reg.structs[i];
    assert(reg.struct_wf(m));
    let k = choose|k: int| 0 <= k < m.offsets.len() && #[trigger] m.offsets[k].0 == s;
    assert(reg.embedding_wf(m, m.offsets[k]));
    let so = reg.struct_of(s).offsets;
    let q = choose|q: int| 0 <= q < so.len() && #[trigger] so[q].0 == p;
    assert(inherited_wf(m.offsets, m.offsets[k].1, so[q]));
    assert(reg.struct_of(c) == m);
    assert(reg.pos(c, s) == m.offsets[k].1);
    let j = choose|j: int| 0 <= j < reg.structs.len() && #[trigger] reg.structs[j].struct_id == s;
    assert(reg.struct_wf(reg.structs[j]));
    lemma_embed_pos(so, q);
    assert(reg.pos(s, p) == so[q].1);
    assert(embed_pos(m.offsets, p) == m.offsets[k].1 + so[q].1);
}

/// In a well-formed registry, what a struct embeds is registered and fits inside it.
pub proof fn lemma_embedded_fits(reg: RegistryModel, c: StructId, s: StructId)
    requires
        reg.wf(),
        reg.has_struct(c),
        reg.struct_extends(c, s),
    ensures
        reg.has_struct(s),
        0 <= reg.pos(c, s),
        reg.pos(c, s) + reg.struct_of(s).size <= reg.struct_of(c).size,
{
    let i = choose|i: int| 0 <= i < reg.structs.len() && #[trigger] reg.structs[i].struct_id == c;
    let m = reg.structs[i];
    assert(reg.struct_wf(m));
    let k = choose|k: int| 0 <= k < m.offsets.len() && #[trigger] m.offsets[k].0 == s;
    assert(reg.embedding_wf(m, m.offsets[k]));
}

/// In a well-formed registry, every struct embeds itself at offset 0.
pub proof fn lemma_embeds_self(reg: RegistryModel, c: StructId)
    requires
        reg.wf(),
        reg.has_struct(c),
    ensures
        reg.struct_extends(c, c),
        reg.pos(c, c) == 0,
{
    let i = choose|i: int| 0 <= i < reg.structs.len() && #[trigger] reg.structs[i].struct_id == c;
    assert(reg.struct_wf(reg.structs[i]));
}

/// In a well-formed registry, a table's struct and capability are registered,
/// and no other table binds the same pair.
pub proof fn lemma_entry(reg: RegistryModel, i: int)
    requires
        reg.wf(),
        0 <= i < reg.v_tables.len(),
    ensures
        reg.has_struct(reg.v_tables[i].spec_struct_id()),
        reg.has_trait(reg.v_tables[i].spec_trait_id()),
        reg.has_entry(reg.v_tables[i].spec_trait_id(), reg.v_tables[i].spec_struct_id()),
        reg.entry_of(reg.v_tables[i].spec_trait_id(), reg.v_tables[i].spec_struct_id()) == i,
{
    assert(reg.v_table_wf(i));
    let t = reg.v_tables[i].spec_trait_id();
    let s = reg.v_tables[i].spec_struct_id();
    assert(reg.v_tables[i].key() == (t, s));
    assert(reg.v_tables[reg.entry_of(t, s)].key() == (t, s));
}

/// In a well-formed registry, a struct bound to a capability is bound to
/// every capability that it extends.
pub proof fn lemma_extends_entry(reg: RegistryModel, i: int, b: TraitId)
    requires
        reg.wf(),
        0 <= i < reg.v_tables.len(),
        reg.trait_extends(reg.v_tables[i].spec_trait_id(), b),
    ensures
        reg.has_entry(b, reg.v_tables[i].spec_struct_id()),
{
    let t = reg.v_tables[i].spec_trait_id();
    let s = reg.v_tables[i].spec_struct_id();
    assert(reg.v_table_wf(i));
    if t == b {
        assert(reg.v_tables[i].key() == (b, s));
    } else {
        let ext = reg.trait_of(t).extends;
        let k = choose|k: int| 0 <= k < ext.len() && #[trigger] ext[k].0 == b;
        assert(reg.slot_wf(i, ext[k]));
        assert(reg.v_tables[i + ext[k].1].key() == (b, s));
    }
}

} // verus!
