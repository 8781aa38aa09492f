use vstd::prelude::*;

verus! {

/// A declaration (function, record, variant, protocol or extension).
#[derive(Debug, Clone, Copy, PartialEq, Eq, Structural, Hash)]
pub struct ItemId(pub u32);

/// An interned name.
#[derive(Debug, Clone, Copy, PartialEq, Eq, Structural, Hash)]
pub struct Symbol(pub u32);

/// A declared type parameter.
#[derive(Debug, Clone, Copy, PartialEq, Eq, Structural, Hash)]
pub struct TypeParamId(pub u32);

/// A type variable that inference never resolved.
#[derive(Debug, Clone, Copy, PartialEq, Eq, Structural, Hash)]
pub struct TypeVarId(pub u32);

/// A lexical observation scope, as the program text names it.
#[derive(Debug, Clone, Copy, PartialEq, Eq, Structural, Hash)]
pub struct ObservationId(pub u32);

/// A value of one frame.
#[derive(Debug, Clone, Copy, PartialEq, Eq, Structural, Hash, PartialOrd, Ord)]
pub struct ValueId(pub u32);

/// A basic block of one function.
#[derive(Debug, Clone, Copy, PartialEq, Eq, Structural, Hash)]
pub struct BlockId(pub u32);

/// A field position of a record or resource.
#[derive(Debug, Clone, Copy, PartialEq, Eq, Structural, Hash)]
pub struct FieldId(pub u32);

/// A case position of a variant.
#[derive(Debug, Clone, Copy, PartialEq, Eq, Structural, Hash)]
pub struct CaseId(pub u32);

/// A resource's identity within one resource table: the index of its
/// record, stable for as long as the table lives.
#[derive(Debug, Clone, Copy, PartialEq, Eq, Structural, Hash)]
pub struct ResourceId(pub u32);

/// An observation lease's identity within one resource table: the index
/// of the lease.
#[derive(Debug, Clone, Copy, PartialEq, Eq, Structural, Hash, PartialOrd, Ord)]
pub struct RuntimeObservationId(pub u32);

} // verus!
