use crate::class::DynClassModel;
use crate::ids::{StructId, TraitId};
use crate::registry::Registry;
use vstd::prelude::*;

verus! {

/// Views of an object that widen to capabilities and structs which the
/// viewed ones extend; such a cast always succeeds.
pub trait UpCast: View<V = DynClassModel> + Sized {
    fn up_cast(self, reg: &Registry, b: TraitId, p: StructId) -> (r: Self)
        requires
            self@.wf(reg@),
            reg@.trait_extends(self@.trait_id, b),
            reg@.struct_extends(self@.view, p),
        ensures
            r@ == self@.viewed_as(reg@, b, p),
            r@.wf(reg@),
    ;
}

/// Views of an object that narrow to capabilities and structs which extend
/// the viewed ones; committed only when the live object has both, else the
/// view comes back as it was.
pub trait DownCast: View<V = DynClassModel> + Sized {
    fn down_cast(self, reg: &Registry, d: TraitId, c: StructId) -> (r: Result<Self, Self>)
        requires
            self@.wf(reg@),
            reg@.trait_extends(d, self@.trait_id),
            reg@.has_struct(c),
            reg@.struct_extends(c, self@.view),
        ensures
            match r {
                Ok(v) => self@.cast(reg@, d, c) == Ok::<DynClassModel, DynClassModel>(v@) && v@.wf(reg@),
                Err(v) => self@.cast(reg@, d, c) == Err::<DynClassModel, DynClassModel>(v@),
            },
    ;

    /// The narrowing, for a caller that knows it succeeds.
    fn unchecked_down_cast(self, reg: &Registry, d: TraitId, c: StructId) -> (r: Self)
        requires
            self@.wf(reg@),
            reg@.trait_extends(d, self@.trait_id),
            reg@.has_struct(c),
            reg@.struct_extends(c, self@.view),
            self@.can_cast(reg@, d, c),
        ensures
            r@ == self@.viewed_as(reg@, d, c),
            r@.wf(reg@),
    ;
}

/// Views of an object that move to any capability and struct; committed
/// only when the live object has both, else the view comes back as it was.
pub trait Cast: View<V = DynClassModel> + Sized {
    fn cast(self, reg: &Registry, x: TraitId, y: StructId) -> (r: Result<Self, Self>)
        requires
            self@.wf(reg@),
        ensures
            match r {
                Ok(v) => self@.cast(reg@, x, y) == Ok::<DynClassModel, DynClassModel>(v@) && v@.wf(reg@),
                Err(v) => self@.cast(reg@, x, y) == Err::<DynClassModel, DynClassModel>(v@),
            },
    ;

    /// The move, for a caller that knows it succeeds.
    fn unchecked_cast(self, reg: &Registry, x: TraitId, y: StructId) -> (r: Self)
        requires
            self@.wf(reg@),
            self@.can_cast(reg@, x, y),
        ensures
            r@ == self@.viewed_as(reg@, x, y),
            r@.wf(reg@),
    ;
}

} // verus!
