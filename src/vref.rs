use crate::ids::{StructId, TraitId};
use crate::registry::{
    distinct_keys, lemma_offsets_of_len, struct_info, trait_info, v_table, Disposal, Registry,
    RegistryModel, StructInfo, TraitInfo, VTable,
};
use vstd::prelude::*;

verus! {

/// A handle on one dispatch table of a registry: a capability view of a
/// concrete struct, the size of an index.
#[derive(Clone, Copy, Debug, PartialEq, Eq, Structural)]
pub struct UntypedVRef {
    v_table: usize,
}

/// A handle that also carries the capability it is expected to view.
#[derive(Clone, Copy, Debug, PartialEq, Eq, Structural)]
pub struct VRef {
    untyped: UntypedVRef,
    trait_id: TraitId,
}

impl View for UntypedVRef {
    type V = usize;

    closed spec fn view(&self) -> usize {
        self.v_table
    }
}

impl UntypedVRef {
    /// The handle names a table of the registry.
    pub open spec fn valid(self, reg: RegistryModel) -> bool {
        self@ < reg.v_tables.len()
    }

    /// The table the handle names.
    pub open spec fn entry(self, reg: RegistryModel) -> VTable {
        reg.v_tables[self@ as int]
    }

    pub fn new(v_table: usize) -> (r: UntypedVRef)
        ensures
            r@ == v_table,
    {
        UntypedVRef { v_table }
    }

    pub fn v_table<'a>(&self, reg: &'a Registry) -> (r: &'a VTable)
        requires
            self.valid(reg@),
        ensures
            *r == self.entry(reg@),
    {
        reg.v_table_at(self.v_table)
    }

    pub fn struct_info<'a>(&self, reg: &'a Registry) -> (r: &'a StructInfo)
        requires
            reg@.wf(),
            self.valid(reg@),
        ensures
            r@ == reg@.struct_of(self.entry(reg@).spec_struct_id()),
    {
        proof {
            assert(reg@.v_table_wf(self@ as int));
        }
        self.v_table(reg).struct_info(reg)
    }

    pub fn trait_info<'a>(&self, reg: &'a Registry) -> (r: &'a TraitInfo)
        requires
            reg@.wf(),
            self.valid(reg@),
        ensures
            r@ == reg@.trait_of(self.entry(reg@).spec_trait_id()),
    {
        proof {
            assert(reg@.v_table_wf(self@ as int));
        }
        self.v_table(reg).trait_info(reg)
    }

    /// From a view of capability `t` to one of `b`, which `t` extends: the
    /// table of `b` sits at a fixed slot after the table of `t`.
    pub fn up_cast(&self, reg: &Registry, t: TraitId, b: TraitId) -> (r: UntypedVRef)
        requires
            reg@.wf(),
            self.valid(reg@),
            self.entry(reg@).spec_trait_id() == t,
            reg@.trait_extends(t, b),
        ensures
            reg@.has_entry(b, self.entry(reg@).spec_struct_id()),
            r@ == reg@.entry_of(b, self.entry(reg@).spec_struct_id()),
    {
        let ghost m = reg@;
        let ghost i = self@ as int;
        let ghost s = self.entry(m).spec_struct_id();
        proof {
            assert(m.v_table_wf(i));
        }
        if t == b {
            proof {
                assert(m.v_tables[i].key() == (b, s));
                assert(m.v_tables[m.entry_of(b, s)].key() == (b, s));
            }
            *self
        } else {
            let info = trait_info(reg, t);
            proof {
                let k = choose|k: int| 0 <= k < m.trait_of(t).extends.len() && #[trigger] m.trait_of(t).extends[k].0 == b;
                assert(m.traits_wf());
                let ti = choose|ti: int| 0 <= ti < m.traits.len() && #[trigger] m.traits[ti].trait_id == t;
                assert(distinct_keys(m.trait_of(t).extends));
                assert(m.slot_wf(i, m.trait_of(t).extends[k]));
            }
            let off = info.offset(b);
            proof {
                reg.lemma_v_tables_len();
                let j = i + off;
                assert(m.v_tables[j].key() == (b, s));
                assert(m.v_tables[m.entry_of(b, s)].key() == (b, s));
            }
            UntypedVRef::new(self.v_table + off)
        }
    }

    /// From a view of capability `t` to one of `d`, which extends `t`: found
    /// when the concrete struct implements `d`.
    pub fn down_cast(&self, reg: &Registry, t: TraitId, d: TraitId) -> (r: Option<UntypedVRef>)
        requires
            reg@.wf(),
            self.valid(reg@),
            self.entry(reg@).spec_trait_id() == t,
            reg@.trait_extends(d, t),
        ensures
            r is Some <==> reg@.has_entry(d, self.entry(reg@).spec_struct_id()),
            r matches Some(h) ==> h@ == reg@.entry_of(d, self.entry(reg@).spec_struct_id()),
    {
        self.cast(reg, t, d)
    }

    /// From a view of capability `t` to one of any capability `x`: found when
    /// the concrete struct implements `x`; a cast to `t` itself is the handle.
    pub fn cast(&self, reg: &Registry, t: TraitId, x: TraitId) -> (r: Option<UntypedVRef>)
        requires
            reg@.wf(),
            self.valid(reg@),
            self.entry(reg@).spec_trait_id() == t,
        ensures
            r is Some <==> reg@.has_entry(x, self.entry(reg@).spec_struct_id()),
            r matches Some(h) ==> h@ == reg@.entry_of(x, self.entry(reg@).spec_struct_id()),
            t == x ==> r == Some(*self),
    {
        let ghost m = reg@;
        let ghost s = self.entry(m).spec_struct_id();
        if t == x {
            proof {
                assert(m.v_tables[self@ as int].key() == (x, s));
                assert(m.v_tables[m.entry_of(x, s)].key() == (x, s));
            }
            return Some(*self);
        }
        match self.v_table(reg).cast_to_trait(reg, x) {
            Some(vt) => {
                proof {
                    reg.lemma_v_tables_len();
                    assert(m.v_tables[m.entry_of(x, s)].key() == (x, s));
                }
                Some(UntypedVRef::new(vt))
            },
            None => None,
        }
    }

    /// Hands the object to the disposal of the struct under this handle.
    pub fn drop(&self, reg: &Registry, object: Vec<u8>, base_offset: isize) -> (r: Disposal)
        requires
            reg@.wf(),
            self.valid(reg@),
        ensures
            r.struct_id == self.entry(reg@).spec_struct_id(),
            r.base_offset == base_offset,
            r.object@ == object@,
    {
        proof {
            assert(reg@.v_table_wf(self@ as int));
        }
        self.struct_info(reg).drop(object, base_offset)
    }
}

impl VRef {
    pub closed spec fn handle(self) -> UntypedVRef {
        self.untyped
    }

    /// The capability the handle is expected to view.
    pub closed spec fn tag(self) -> TraitId {
        self.trait_id
    }

    /// The handle names a table of the registry, and that table binds the
    /// capability it is tagged with.
    pub open spec fn wf(self, reg: RegistryModel) -> bool {
        &&& self.handle().valid(reg)
        &&& self.handle().entry(reg).spec_trait_id() == self.tag()
    }

    /// The concrete struct under the handle.
    pub open spec fn concrete(self, reg: RegistryModel) -> StructId {
        self.handle().entry(reg).spec_struct_id()
    }

    /// The handle for capability `t` of struct `s`, which must implement it.
    pub fn new(reg: &Registry, t: TraitId, s: StructId) -> (r: VRef)
        requires
            reg@.wf(),
            reg@.has_entry(t, s),
        ensures
            r.wf(reg@),
            r.tag() == t,
            r.concrete(reg@) == s,
            r.handle()@ == reg@.entry_of(t, s),
    {
        let i = v_table(reg, t, s);
        VRef { untyped: UntypedVRef::new(i), trait_id: t }
    }

    pub fn untyped(&self) -> (r: UntypedVRef)
        ensures
            r == self.handle(),
    {
        self.untyped
    }

    pub fn trait_id(&self) -> (r: TraitId)
        ensures
            r == self.tag(),
    {
        self.trait_id
    }

    pub fn v_table<'a>(&self, reg: &'a Registry) -> (r: &'a VTable)
        requires
            self.wf(reg@),
        ensures
            *r == self.handle().entry(reg@),
    {
        self.untyped.v_table(reg)
    }

    pub fn struct_info<'a>(&self, reg: &'a Registry) -> (r: &'a StructInfo)
        requires
            reg@.wf(),
            self.wf(reg@),
        ensures
            r@ == reg@.struct_of(self.concrete(reg@)),
    {
        self.untyped.struct_info(reg)
    }

    pub fn trait_info<'a>(&self, reg: &'a Registry) -> (r: &'a TraitInfo)
        requires
            reg@.wf(),
            self.wf(reg@),
        ensures
            r@ == reg@.trait_of(self.tag()),
    {
        self.untyped.trait_info(reg)
    }

    /// The view of `b`, a capability that the tagged one extends.
    pub fn up_cast(&self, reg: &Registry, b: TraitId) -> (r: VRef)
        requires
            reg@.wf(),
            self.wf(reg@),
            reg@.trait_extends(self.tag(), b),
        ensures
            r.wf(reg@),
            r.tag() == b,
            r.concrete(reg@) == self.concrete(reg@),
            r.handle()@ == reg@.entry_of(b, self.concrete(reg@)),
    {
        let u = self.untyped.up_cast(reg, self.trait_id, b);
        proof {
            let m = reg@;
            let s = self.concrete(m);
            assert(m.v_tables[m.entry_of(b, s)].key() == (b, s));
        }
        VRef { untyped: u, trait_id: b }
    }

    /// The view of `d`, a capability that extends the tagged one, when the
    /// concrete struct implements it.
    pub fn down_cast(&self, reg: &Registry, d: TraitId) -> (r: Option<VRef>)
        requires
            reg@.wf(),
            self.wf(reg@),
            reg@.trait_extends(d, self.tag()),
        ensures
            r is Some <==> reg@.has_entry(d, self.concrete(reg@)),
            r matches Some(h) ==> h.wf(reg@) && h.tag() == d && h.concrete(reg@) == self.concrete(reg@)
                && h.handle()@ == reg@.entry_of(d, self.concrete(reg@)),
    {
        self.cast(reg, d)
    }

    /// The view of any capability `x`, when the concrete struct implements
    /// it; the view of the tagged capability is the handle itself.
    pub fn cast(&self, reg: &Registry, x: TraitId) -> (r: Option<VRef>)
        requires
            reg@.wf(),
            self.wf(reg@),
        ensures
            r is Some <==> reg@.has_entry(x, self.concrete(reg@)),
            r matches Some(h) ==> h.wf(reg@) && h.tag() == x && h.concrete(reg@) == self.concrete(reg@)
                && h.handle()@ == reg@.entry_of(x, self.concrete(reg@)),
            x == self.tag() ==> r == Some(*self),
    {
        match self.untyped.cast(reg, self.trait_id, x) {
            Some(u) => {
                proof {
                    let m = reg@;
                    let s = self.concrete(m);
                    assert(m.v_tables[m.entry_of(x, s)].key() == (x, s));
                }
                Some(VRef { untyped: u, trait_id: x })
            },
            None => None,
        }
    }

    /// Whether the concrete struct under the handle embeds struct `s`.
    pub fn is(&self, reg: &Registry, s: StructId) -> (r: bool)
        requires
            reg@.wf(),
            self.wf(reg@),
        ensures
            r == reg@.struct_extends(self.concrete(reg@), s),
    {
        let info = self.struct_info(reg);
        proof {
            lemma_offsets_of_len(info@.offsets, s);
        }
        info.offsets(s).len() > 0
    }

    /// Hands the object to the disposal of the struct under this handle.
    pub fn drop(&self, reg: &Registry, object: Vec<u8>, base_offset: isize) -> (r: Disposal)
        requires
            reg@.wf(),
            self.wf(reg@),
        ensures
            r.struct_id == self.concrete(reg@),
            r.base_offset == base_offset,
            r.object@ == object@,
    {
        self.untyped.drop(reg, object, base_offset)
    }
}

} // verus!
