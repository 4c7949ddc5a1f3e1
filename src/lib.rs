//! Runtime type descriptions and a casting algebra for type-erased objects.
//!
//! Concrete data layouts (structs) and capabilities (traits) are identified by
//! tokens; a registry maps them to descriptors and dispatch tables; handles
//! and containers are converted between related views with up-, down- and
//! cross-casts whose success is decided by the registry alone.
mod cast;
mod class;
pub mod dom;
mod ids;
mod offset;
mod registry;
mod vref;

pub use cast::{Cast, DownCast, UpCast};
pub use class::{
    data_offset, lemma_cast_identity, lemma_cast_keeps_disposal, lemma_up_cast_round_trip, splice, Class,
    DynClass, DynClassModel, DynRef, HEADER_SIZE,
};
pub use ids::{StructId, TraitId};
pub use offset::{OffsetModel, VOffset, MAX_OFFSET};
pub use registry::{
    is_power_of_two, struct_info, trait_info, v_table, v_table_by_id, Disposal, Registry, RegistryModel,
    StructInfo, StructModel, TraitInfo, TraitModel, VTable, VTableRegistryId, VTableRegistryIndices,
    VTableRegistryTables, MAX_SIZE,
};
pub use vref::{UntypedVRef, VRef};
