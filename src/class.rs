use crate::ids::{StructId, TraitId};
use crate::offset::{OffsetModel, VOffset, MAX_OFFSET};
use crate::registry::{
    distinct_keys, lemma_embed_trans, lemma_extends_entry, lemma_embedded_fits, lemma_embeds_self, lemma_entry, lemma_offsets_of_len,
    struct_info, Disposal, Registry, RegistryModel,
};
use crate::cast::{Cast, DownCast, UpCast};
use crate::vref::VRef;
use vstd::arithmetic::power2::{lemma2_to64, lemma2_to64_rest, lemma_pow2_strictly_increases, pow2};
use vstd::bits::lemma_u64_shl_is_mul;
use vstd::prelude::*;
use vstd::slice::slice_subrange;

verus! {

/// Bytes in front of a container's object: its handle and its packed offset.
pub const HEADER_SIZE: usize = 16;

/// Where the object of a fresh container starts: after the header, rounded
/// up to the alignment of the struct.
pub open spec fn data_offset(log2_align: nat) -> nat {
    if log2_align <= 4 {
        HEADER_SIZE as nat
    } else {
        pow2(log2_align)
    }
}

/// `data` with `bytes` written over it from position `start` on.
pub open spec fn splice(data: Seq<u8>, start: int, bytes: Seq<u8>) -> Seq<u8> {
    data.subrange(0, start) + bytes + data.subrange(start + bytes.len(), data.len() as int)
}

/// What a container holds: the handle (a table position and the capability
/// it views), the packed offset, the struct it views, whether it may be
/// cloned, and the bytes of the concrete object.
pub struct DynClassModel {
    pub v_table: int,
    pub trait_id: TraitId,
    pub offset: OffsetModel,
    pub view: StructId,
    pub clonable: bool,
    pub data: Seq<u8>,
}

impl DynClassModel {
    /// The struct of the live object.
    pub open spec fn concrete(self, reg: RegistryModel) -> StructId {
        reg.v_tables[self.v_table].spec_struct_id()
    }

    /// The handle binds the viewed capability to the live struct, which
    /// embeds the viewed struct at the active offset; the bytes are the whole
    /// object, and the offsets fit their encoding.
    pub open spec fn wf(self, reg: RegistryModel) -> bool {
        &&& reg.wf()
        &&& 0 <= self.v_table < reg.v_tables.len()
        &&& reg.v_tables[self.v_table].spec_trait_id() == self.trait_id
        &&& reg.struct_extends(self.concrete(reg), self.view)
        &&& self.offset.offset == self.offset.base_offset() + reg.pos(self.concrete(reg), self.view)
        &&& self.data.len() == reg.struct_of(self.concrete(reg)).size
        &&& self.offset.base_offset() + self.data.len() < MAX_OFFSET
        &&& self.offset.base_offset() + self.data.len() <= isize::MAX
        &&& self.clonable ==> reg.struct_of(self.concrete(reg)).clonable
    }

    /// The same object seen through capability `t` and struct `p`.
    pub open spec fn viewed_as(self, reg: RegistryModel, t: TraitId, p: StructId) -> DynClassModel {
        DynClassModel {
            v_table: reg.entry_of(t, self.concrete(reg)),
            trait_id: t,
            offset: OffsetModel {
                offset: (self.offset.base_offset() + reg.pos(self.concrete(reg), p)) as nat,
                ..self.offset
            },
            view: p,
            ..self
        }
    }

    /// The live object implements capability `x` and embeds struct `y`.
    pub open spec fn can_cast(self, reg: RegistryModel, x: TraitId, y: StructId) -> bool {
        &&& reg.has_entry(x, self.concrete(reg))
        &&& reg.struct_extends(self.concrete(reg), y)
    }

    /// A checked cast: the new view when the live object has it, else the
    /// container as it was.
    pub open spec fn cast(self, reg: RegistryModel, x: TraitId, y: StructId) -> Result<DynClassModel, DynClassModel> {
        if self.can_cast(reg, x, y) {
            Ok(self.viewed_as(reg, x, y))
        } else {
            Err(self)
        }
    }

    /// The same view, borrowed: offsets count from the object's origin.
    pub open spec fn borrowed(self, reg: RegistryModel) -> DynClassModel {
        DynClassModel {
            offset: OffsetModel {
                log2_align: 0,
                multiplier: 0,
                offset: reg.pos(self.concrete(reg), self.view) as nat,
            },
            clonable: false,
            ..self
        }
    }

    /// The dispatch token of the viewed capability for the live struct.
    pub open spec fn dispatch(self, reg: RegistryModel) -> usize {
        reg.v_tables[self.v_table].spec_table()
    }

    /// The bytes of the viewed struct.
    pub open spec fn struct_bytes(self, reg: RegistryModel) -> Seq<u8> {
        let pos = reg.pos(self.concrete(reg), self.view);
        self.data.subrange(pos, pos + reg.struct_of(self.view).size)
    }
}

/// Owning, type-erased storage of one object: a handle, a packed offset, the
/// viewed struct and the object's bytes.
#[derive(Debug)]
pub struct DynClass {
    v_ref: VRef,
    v_offset: VOffset,
    view: StructId,
    clonable: bool,
    data: Vec<u8>,
}

impl View for DynClass {
    type V = DynClassModel;

    closed spec fn view(&self) -> DynClassModel {
        DynClassModel {
            v_table: self.v_ref.handle()@ as int,
            trait_id: self.v_ref.tag(),
            offset: self.v_offset@,
            view: self.view,
            clonable: self.clonable,
            data: self.data@,
        }
    }
}

/// A container fresh from a value: its view is the value's own struct.
#[derive(Debug)]
pub struct Class {
    dyn_class: DynClass,
}

impl View for Class {
    type V = DynClassModel;

    closed spec fn view(&self) -> DynClassModel {
        self.dyn_class@
    }
}

impl Class {
    /// Stores the bytes of a value of struct `s`, viewed through capability
    /// `t`, which `s` implements.
    pub fn new(reg: &Registry, t: TraitId, s: StructId, data: Vec<u8>) -> (r: Class)
        requires
            reg@.wf(),
            reg@.has_entry(t, s),
            data@.len() == reg@.struct_of(s).size,
            data_offset(reg@.struct_of(s).log2_align) + data@.len() < MAX_OFFSET,
            data_offset(reg@.struct_of(s).log2_align) + data@.len() <= isize::MAX,
        ensures
            r@.wf(reg@),
            r@ == (DynClassModel {
                v_table: reg@.entry_of(t, s),
                trait_id: t,
                offset: OffsetModel {
                    log2_align: if reg@.struct_of(s).log2_align <= 4 {
                        4
                    } else {
                        reg@.struct_of(s).log2_align
                    },
                    multiplier: 1,
                    offset: data_offset(reg@.struct_of(s).log2_align),
                },
                view: s,
                clonable: false,
                data: data@,
            }),
    {
        let ghost m = reg@;
        proof {
            assert(m.v_tables[m.entry_of(t, s)].key() == (t, s));
            lemma_entry(m, m.entry_of(t, s));
        }
        let v_ref = VRef::new(reg, t, s);
        let l = struct_info(reg, s).log2_align();
        let shift: u64 = if l <= 4 {
            4
        } else {
            l as u64
        };
        proof {
            lemma2_to64();
            lemma2_to64_rest();
            if shift >= 48 {
                if shift > 48 {
                    lemma_pow2_strictly_increases(48, shift as nat);
                }
                assert(false);
            }
            lemma_u64_shl_is_mul(1, shift);
            lemma_embeds_self(m, s);
        }
        let offset = (1u64 << shift) as isize;
        let v_offset = VOffset::new(shift as u8, 1, offset);
        Class { dyn_class: DynClass { v_ref, v_offset, view: s, clonable: false, data } }
    }

    /// The same container, marked as one that may be cloned.
    pub fn into_clonable(self, reg: &Registry) -> (r: Class)
        requires
            self@.wf(reg@),
            reg@.struct_of(self@.concrete(reg@)).clonable,
        ensures
            r@ == (DynClassModel { clonable: true, ..self@ }),
            r@.wf(reg@),
    {
        let d = self.dyn_class;
        Class { dyn_class: DynClass { clonable: true, ..d } }
    }

    /// The container, type-erased.
    pub fn into_dyn(self) -> (r: DynClass)
        ensures
            r@ == self@,
    {
        self.dyn_class
    }
}

impl DynClass {
    pub fn v_ref(&self) -> (r: VRef)
        ensures
            r.handle()@ == self@.v_table,
            r.tag() == self@.trait_id,
    {
        self.v_ref
    }

    pub fn v_offset(&self) -> (r: VOffset)
        ensures
            r@ == self@.offset,
    {
        self.v_offset
    }

    /// The struct that the container views.
    pub fn view_struct(&self) -> (r: StructId)
        ensures
            r == self@.view,
    {
        self.view
    }

    pub fn is_clonable(&self) -> (r: bool)
        ensures
            r == self@.clonable,
    {
        self.clonable
    }

    proof fn lemma_wf(&self, reg: RegistryModel)
        requires
            self@.wf(reg),
        ensures
            self.v_ref.wf(reg),
            self.v_ref.concrete(reg) == self@.concrete(reg),
            reg.has_struct(self@.concrete(reg)),
            reg.has_struct(self@.view),
            0 <= reg.pos(self@.concrete(reg), self@.view),
            reg.pos(self@.concrete(reg), self@.view) + reg.struct_of(self@.view).size <= self@.data.len(),
    {
        lemma_entry(reg, self@.v_table);
        lemma_embedded_fits(reg, self@.concrete(reg), self@.view);
    }

    /// Distance from the object's origin to the viewed struct.
    pub fn offset_into_struct(&self, reg: &Registry) -> (r: usize)
        requires
            self@.wf(reg@),
        ensures
            r == reg@.pos(self@.concrete(reg@), self@.view),
    {
        proof {
            self.lemma_wf(reg@);
        }
        let o = self.v_offset.offset();
        let b = self.v_offset.base_offset();
        (o - b) as usize
    }

    /// The bytes of the viewed struct.
    pub fn as_struct(&self, reg: &Registry) -> (r: &[u8])
        requires
            self@.wf(reg@),
        ensures
            r@ == self@.struct_bytes(reg@),
            r@.len() == reg@.struct_of(self@.view).size,
    {
        proof {
            self.lemma_wf(reg@);
        }
        let start = self.offset_into_struct(reg);
        let size = struct_info(reg, self.view).size();
        slice_subrange(self.data.as_slice(), start, start + size)
    }

    /// The bytes of the viewed struct, to write in place; the rest of the
    /// container stays as it was.
    pub fn as_struct_mut(&mut self, reg: &Registry) -> (r: &mut [u8])
        requires
            old(self)@.wf(reg@),
        ensures
            r@ == old(self)@.struct_bytes(reg@),
            r@.len() == reg@.struct_of(old(self)@.view).size,
            0 <= reg@.pos(old(self)@.concrete(reg@), old(self)@.view),
            reg@.pos(old(self)@.concrete(reg@), old(self)@.view) + r@.len() <= old(self)@.data.len(),
            final(self)@ == (DynClassModel { data: final(self)@.data, ..old(self)@ }),
            final(r)@.len() == r@.len() ==> final(self)@.data =~= splice(
                old(self)@.data,
                reg@.pos(old(self)@.concrete(reg@), old(self)@.view),
                final(r)@,
            ),
    {
        proof {
            self.lemma_wf(reg@);
        }
        let start = self.offset_into_struct(reg);
        let size = struct_info(reg, self.view).size();
        let whole = self.data.as_mut_slice();
        let (head, rest) = whole.split_at_mut(start);
        proof {
            assert(has_resolved(head));
            assert(final(head)@ == head@);
            assert(head@ =~= old(self).data@.subrange(0, start as int));
        }
        let (mid, tail) = rest.split_at_mut(size);
        proof {
            assert(has_resolved(tail));
            assert(final(tail)@ == tail@);
            assert(tail@ =~= old(self).data@.subrange(start + size, old(self).data@.len() as int));
        }
        mid
    }

    /// The embedding table of a registered struct names no struct twice.
    pub(crate) proof fn lemma_distinct(reg: RegistryModel, s: StructId)
        requires
            reg.wf(),
            reg.has_struct(s),
        ensures
            distinct_keys(reg.struct_of(s).offsets),
    {
        let i = choose|i: int| 0 <= i < reg.structs.len() && #[trigger] reg.structs[i].struct_id == s;
        assert(reg.struct_wf(reg.structs[i]));
    }

    /// The packed offset of the view of `p`, a struct that the viewed one
    /// embeds at exactly one offset.
    pub fn up_cast_struct(&self, reg: &Registry, p: StructId) -> (r: VOffset)
        requires
            self@.wf(reg@),
            reg@.struct_extends(self@.view, p),
        ensures
            reg@.struct_extends(self@.concrete(reg@), p),
            r@ == self@.viewed_as(reg@, self@.trait_id, p).offset,
    {
        let ghost m = reg@;
        let ghost c = self@.concrete(m);
        proof {
            self.lemma_wf(m);
            lemma_embed_trans(m, c, self.view, p);
            lemma_embedded_fits(m, c, p);
        }
        if self.view == p {
            return self.v_offset;
        }
        let info = struct_info(reg, self.view);
        let offsets = info.offsets(p);
        proof {
            Self::lemma_distinct(m, self.view);
            lemma_offsets_of_len(info@.offsets, p);
        }
        let o = offsets[0];
        self.v_offset.new_offset(self.v_offset.offset() + o as isize)
    }

    /// The packed offset of the view of `c`, a struct that embeds the viewed
    /// one, when the live object embeds `c`.
    pub fn down_cast_struct(&self, reg: &Registry, c: StructId) -> (r: Option<VOffset>)
        requires
            self@.wf(reg@),
            reg@.has_struct(c),
            reg@.struct_extends(c, self@.view),
        ensures
            r is Some <==> reg@.struct_extends(self@.concrete(reg@), c),
            r matches Some(o) ==> o@ == self@.viewed_as(reg@, self@.trait_id, c).offset,
    {
        let ghost m = reg@;
        let ghost k = self@.concrete(m);
        proof {
            self.lemma_wf(m);
        }
        if self.view == c {
            return Some(self.v_offset);
        }
        if !self.v_ref.is(reg, c) {
            return None;
        }
        let info = struct_info(reg, c);
        let offsets = info.offsets(self.view);
        proof {
            lemma_embed_trans(m, k, c, self.view);
            lemma_embedded_fits(m, k, c);
            Self::lemma_distinct(m, c);
            lemma_offsets_of_len(info@.offsets, self.view);
        }
        let o = offsets[0];
        Some(self.v_offset.new_offset(self.v_offset.offset() - o as isize))
    }

    /// The packed offset of the view of any struct `y`, when the live object
    /// embeds it; the concrete struct's own table decides.
    pub fn cast_struct(&self, reg: &Registry, y: StructId) -> (r: Option<VOffset>)
        requires
            self@.wf(reg@),
        ensures
            r is Some <==> reg@.struct_extends(self@.concrete(reg@), y),
            r matches Some(o) ==> o@ == self@.viewed_as(reg@, self@.trait_id, y).offset,
    {
        let ghost m = reg@;
        let ghost k = self@.concrete(m);
        proof {
            self.lemma_wf(m);
        }
        if self.view == y {
            return Some(self.v_offset);
        }
        let info = self.v_ref.struct_info(reg);
        let offsets = info.offsets(y);
        proof {
            Self::lemma_distinct(m, k);
            lemma_offsets_of_len(info@.offsets, y);
        }
        if offsets.len() == 0 {
            return None;
        }
        proof {
            lemma_embedded_fits(m, k, y);
        }
        let o = offsets[0];
        Some(self.v_offset.new_offset(self.v_offset.base_offset() + o as isize))
    }

    /// A second container with the same header and a copy of the object's
    /// bytes in storage of its own.
    pub fn clone_to_box(&self, reg: &Registry) -> (r: Box<DynClass>)
        requires
            self@.wf(reg@),
            self@.clonable,
        ensures
            r@ == self@,
    {
        proof {
            self.lemma_wf(reg@);
        }
        let info = self.v_ref.struct_info(reg);
        let mut data: Vec<u8> = Vec::with_capacity(info.size());
        let mut i: usize = 0;
        while i < self.data.len()
            invariant
                i <= self.data@.len(),
                data@ == self.data@.subrange(0, i as int),
            decreases self.data.len() - i,
        {
            data.push(self.data[i]);
            i = i + 1;
            proof {
                assert(data@ =~= self.data@.subrange(0, i as int));
            }
        }
        proof {
            assert(self.data@.subrange(0, i as int) == self.data@);
        }
        Box::new(
            DynClass {
                v_ref: self.v_ref,
                v_offset: self.v_offset,
                view: self.view,
                clonable: self.clonable,
                data,
            },
        )
    }

    /// Ends the object's life: whatever view the container has, the struct of
    /// the live object gets the whole object, at its storage origin.
    pub fn drop(self, reg: &Registry) -> (r: Disposal)
        requires
            self@.wf(reg@),
        ensures
            r.struct_id == self@.concrete(reg@),
            r.base_offset == self@.offset.base_offset(),
            r.object@ == self@.data,
    {
        proof {
            self.lemma_wf(reg@);
        }
        let base = self.v_offset.base_offset();
        self.v_ref.drop(reg, self.data, base)
    }
}

/// A borrowed view of a container's object: the handle, the viewed struct
/// and an offset counted from the object's origin.
#[derive(Debug)]
pub struct DynRef<'a> {
    v_ref: VRef,
    view: StructId,
    v_offset: VOffset,
    object: &'a [u8],
}

impl<'a> View for DynRef<'a> {
    type V = DynClassModel;

    closed spec fn view(&self) -> DynClassModel {
        DynClassModel {
            v_table: self.v_ref.handle()@ as int,
            trait_id: self.v_ref.tag(),
            offset: self.v_offset@,
            view: self.view,
            clonable: false,
            data: self.object@,
        }
    }
}

impl<'a> DynRef<'a> {
    /// Borrows the container's object, with the container's view.
    pub fn new(c: &'a DynClass, reg: &Registry) -> (r: DynRef<'a>)
        requires
            c@.wf(reg@),
        ensures
            r@ == c@.borrowed(reg@),
            r@.wf(reg@),
            r@.struct_bytes(reg@) == c@.struct_bytes(reg@),
    {
        let pos = c.offset_into_struct(reg);
        proof {
            c.lemma_wf(reg@);
            assert(0 * pow2(0) == 0);
        }
        let v_offset = VOffset::new(0, 0, pos as isize);
        DynRef { v_ref: c.v_ref, view: c.view, v_offset, object: c.data.as_slice() }
    }

    proof fn lemma_wf(&self, reg: RegistryModel)
        requires
            self@.wf(reg),
        ensures
            self.v_ref.wf(reg),
            self.v_ref.concrete(reg) == self@.concrete(reg),
            reg.has_struct(self@.concrete(reg)),
            reg.has_struct(self@.view),
            0 <= reg.pos(self@.concrete(reg), self@.view),
            reg.pos(self@.concrete(reg), self@.view) + reg.struct_of(self@.view).size <= self@.data.len(),
    {
        lemma_entry(reg, self@.v_table);
        lemma_embedded_fits(reg, self@.concrete(reg), self@.view);
    }

    /// The bytes of the viewed struct.
    pub fn as_struct(&self, reg: &Registry) -> (r: &'a [u8])
        requires
            self@.wf(reg@),
        ensures
            r@ == self@.struct_bytes(reg@),
    {
        proof {
            self.lemma_wf(reg@);
        }
        let start = (self.v_offset.offset() - self.v_offset.base_offset()) as usize;
        let size = struct_info(reg, self.view).size();
        slice_subrange(self.object, start, start + size)
    }

    /// The viewed capability as a trait object: its dispatch token and the
    /// bytes of the viewed struct.
    pub fn as_trait(&self, reg: &Registry) -> (r: (usize, &'a [u8]))
        requires
            self@.wf(reg@),
        ensures
            r.0 == self@.dispatch(reg@),
            r.1@ == self@.struct_bytes(reg@),
    {
        (self.v_ref.v_table(reg).table(), self.as_struct(reg))
    }

}

impl DynClass {
    /// The viewed capability as a trait object: its dispatch token and the
    /// bytes of the viewed struct.
    pub fn as_trait(&self, reg: &Registry) -> (r: (usize, &[u8]))
        requires
            self@.wf(reg@),
        ensures
            r.0 == self@.dispatch(reg@),
            r.1@ == self@.struct_bytes(reg@),
    {
        proof {
            self.lemma_wf(reg@);
        }
        (self.v_ref.v_table(reg).table(), self.as_struct(reg))
    }

    /// A borrowed view through capability `b` and struct `p`, which the
    /// viewed ones extend.
    pub fn up_cast_ref<'a>(&'a self, reg: &Registry, b: TraitId, p: StructId) -> (r: DynRef<'a>)
        requires
            self@.wf(reg@),
            reg@.trait_extends(self@.trait_id, b),
            reg@.struct_extends(self@.view, p),
        ensures
            r@ == self@.borrowed(reg@).viewed_as(reg@, b, p),
            r@.wf(reg@),
    {
        DynRef::new(self, reg).up_cast(reg, b, p)
    }

    /// A borrowed view through capability `d` and struct `c`, which extend
    /// the viewed ones, when the live object has both.
    pub fn down_cast_ref<'a>(&'a self, reg: &Registry, d: TraitId, c: StructId) -> (r: Option<DynRef<'a>>)
        requires
            self@.wf(reg@),
            reg@.trait_extends(d, self@.trait_id),
            reg@.has_struct(c),
            reg@.struct_extends(c, self@.view),
        ensures
            r is Some <==> self@.can_cast(reg@, d, c),
            r matches Some(v) ==> v@ == self@.borrowed(reg@).viewed_as(reg@, d, c) && v@.wf(reg@),
    {
        match DynRef::new(self, reg).down_cast(reg, d, c) {
            Ok(v) => Some(v),
            Err(_) => None,
        }
    }
}

impl UpCast for DynClass {
    fn up_cast(self, reg: &Registry, b: TraitId, p: StructId) -> Self {
        proof {
            self.lemma_wf(reg@);
        }
        let new_v_ref = self.v_ref.up_cast(reg, b);
        let new_v_offset = self.up_cast_struct(reg, p);
        proof {
            lemma_entry(reg@, new_v_ref.handle()@ as int);
        }
        DynClass { v_ref: new_v_ref, v_offset: new_v_offset, view: p, ..self }
    }
}

impl DownCast for DynClass {
    fn down_cast(self, reg: &Registry, d: TraitId, c: StructId) -> Result<Self, Self> {
        proof {
            self.lemma_wf(reg@);
        }
        let new_v_ref = self.v_ref.down_cast(reg, d);
        let new_v_offset = self.down_cast_struct(reg, c);
        match (new_v_ref, new_v_offset) {
            (Some(v_ref), Some(v_offset)) => {
                proof {
                    lemma_entry(reg@, v_ref.handle()@ as int);
                }
                Ok(DynClass { v_ref, v_offset, view: c, ..self })
            },
            _ => Err(self),
        }
    }

    fn unchecked_down_cast(self, reg: &Registry, d: TraitId, c: StructId) -> Self {
        match self.down_cast(reg, d, c) {
            Ok(x) => x,
            Err(x) => {
                proof {
                    assert(false);
                }
                x
            },
        }
    }
}

impl Cast for DynClass {
    fn cast(self, reg: &Registry, x: TraitId, y: StructId) -> Result<Self, Self> {
        proof {
            self.lemma_wf(reg@);
        }
        let new_v_ref = self.v_ref.cast(reg, x);
        let new_v_offset = self.cast_struct(reg, y);
        match (new_v_ref, new_v_offset) {
            (Some(v_ref), Some(v_offset)) => {
                proof {
                    lemma_entry(reg@, v_ref.handle()@ as int);
                }
                Ok(DynClass { v_ref, v_offset, view: y, ..self })
            },
            _ => Err(self),
        }
    }

    fn unchecked_cast(self, reg: &Registry, x: TraitId, y: StructId) -> Self {
        match self.cast(reg, x, y) {
            Ok(v) => v,
            Err(v) => {
                proof {
                    assert(false);
                }
                v
            },
        }
    }
}

impl<'a> Cast for DynRef<'a> {
    fn cast(self, reg: &Registry, x: TraitId, y: StructId) -> Result<Self, Self> {
        let ghost m = reg@;
        let ghost k = self@.concrete(m);
        proof {
            self.lemma_wf(m);
        }
        let v_ref = match self.v_ref.cast(reg, x) {
            Some(v_ref) => v_ref,
            None => {
                return Err(self);
            },
        };
        let info = self.v_ref.struct_info(reg);
        let offsets = info.offsets(y);
        proof {
            DynClass::lemma_distinct(m, k);
            lemma_offsets_of_len(info@.offsets, y);
        }
        if offsets.len() == 0 {
            return Err(self);
        }
        proof {
            lemma_embedded_fits(m, k, y);
            lemma_entry(m, v_ref.handle()@ as int);
        }
        let o = offsets[0];
        let v_offset = self.v_offset.new_offset(self.v_offset.base_offset() + o as isize);
        Ok(DynRef { v_ref, view: y, v_offset, object: self.object })
    }

    fn unchecked_cast(self, reg: &Registry, x: TraitId, y: StructId) -> Self {
        match self.cast(reg, x, y) {
            Ok(v) => v,
            Err(v) => {
                proof {
                    assert(false);
                }
                v
            },
        }
    }
}

impl<'a> DownCast for DynRef<'a> {
    fn down_cast(self, reg: &Registry, d: TraitId, c: StructId) -> Result<Self, Self> {
        self.cast(reg, d, c)
    }

    fn unchecked_down_cast(self, reg: &Registry, d: TraitId, c: StructId) -> Self {
        self.unchecked_cast(reg, d, c)
    }
}

impl<'a> UpCast for DynRef<'a> {
    fn up_cast(self, reg: &Registry, b: TraitId, p: StructId) -> Self {
        let ghost m = reg@;
        proof {
            self.lemma_wf(m);
            lemma_embed_trans(m, self@.concrete(m), self@.view, p);
            lemma_extends_entry(m, self@.v_table, b);
        }
        match self.cast(reg, b, p) {
            Ok(v) => v,
            Err(v) => {
                proof {
                    assert(false);
                }
                v
            },
        }
    }
}

/// A checked cast to the capability and struct that a container already
/// views succeeds and leaves the container as it is.
pub proof fn lemma_cast_identity(reg: RegistryModel, x: DynClassModel)
    requires
        x.wf(reg),
    ensures
        x.cast(reg, x.trait_id, x.view) == Ok::<DynClassModel, DynClassModel>(x),
{
    lemma_entry(reg, x.v_table);
}

/// Up-casting a container to capabilities and structs that its view extends,
/// then down-casting the result back to the capability and struct it had,
/// succeeds and gives back the container as it was.
pub proof fn lemma_up_cast_round_trip(reg: RegistryModel, x: DynClassModel, b: TraitId, p: StructId)
    requires
        x.wf(reg),
        reg.trait_extends(x.trait_id, b),
        reg.struct_extends(x.view, p),
    ensures
        x.viewed_as(reg, b, p).wf(reg),
        x.viewed_as(reg, b, p).cast(reg, x.trait_id, x.view) == Ok::<DynClassModel, DynClassModel>(x),
{
    let c = x.concrete(reg);
    lemma_entry(reg, x.v_table);
    lemma_extends_entry(reg, x.v_table, b);
    let up = x.viewed_as(reg, b, p);
    assert(reg.v_tables[reg.entry_of(b, c)].key() == (b, c));
    lemma_embed_trans(reg, c, x.view, p);
    lemma_embedded_fits(reg, c, p);
    assert(up.concrete(reg) == c);
}

/// Casts keep the live struct, the storage origin and the bytes of a
/// container: a disposal after any number of casts gets what a disposal
/// before them would have got.
pub proof fn lemma_cast_keeps_disposal(reg: RegistryModel, x: DynClassModel, t: TraitId, p: StructId)
    requires
        x.wf(reg),
        reg.has_entry(t, x.concrete(reg)),
    ensures
        x.viewed_as(reg, t, p).concrete(reg) == x.concrete(reg),
        x.viewed_as(reg, t, p).offset.base_offset() == x.offset.base_offset(),
        x.viewed_as(reg, t, p).data == x.data,
{
    let c = x.concrete(reg);
    assert(reg.v_tables[reg.entry_of(t, c)].key() == (t, c));
}

} // verus!
