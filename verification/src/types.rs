use crate::idmap::IdMap;
use crate::ids::{ItemId, Symbol, TypeParamId, TypeVarId};
use vstd::prelude::*;

verus! {

/// A resolved or symbolic type.
#[derive(Debug)]
pub enum Ty {
    I8,
    I16,
    I32,
    I64,
    Isize,
    U8,
    U16,
    U32,
    U64,
    Usize,
    F32,
    F64,
    Bool,
    Char,
    Str,
    Unit,
    Named(ItemId, Symbol),
    Applied(ItemId, Vec<Ty>),
    Param(TypeParamId, Symbol),
    Var(TypeVarId),
    Never,
    Error,
}

/// The mathematical value of a [`Ty`].
pub enum TyView {
    I8,
    I16,
    I32,
    I64,
    Isize,
    U8,
    U16,
    U32,
    U64,
    Usize,
    F32,
    F64,
    Bool,
    Char,
    Str,
    Unit,
    Named(ItemId, Symbol),
    Applied(ItemId, Seq<TyView>),
    Param(TypeParamId, Symbol),
    Var(TypeVarId),
    Never,
    Error,
}

impl View for Ty {
    type V = TyView;

    open spec fn view(&self) -> TyView
        decreases self,
    {
        match *self {
            Ty::I8 => TyView::I8,
            Ty::I16 => TyView::I16,
            Ty::I32 => TyView::I32,
            Ty::I64 => TyView::I64,
            Ty::Isize => TyView::Isize,
            Ty::U8 => TyView::U8,
            Ty::U16 => TyView::U16,
            Ty::U32 => TyView::U32,
            Ty::U64 => TyView::U64,
            Ty::Usize => TyView::Usize,
            Ty::F32 => TyView::F32,
            Ty::F64 => TyView::F64,
            Ty::Bool => TyView::Bool,
            Ty::Char => TyView::Char,
            Ty::Str => TyView::Str,
            Ty::Unit => TyView::Unit,
            Ty::Named(item, name) => TyView::Named(item, name),
            Ty::Applied(item, args) => TyView::Applied(item, ty_views(args@)),
            Ty::Param(id, name) => TyView::Param(id, name),
            Ty::Var(id) => TyView::Var(id),
            Ty::Never => TyView::Never,
            Ty::Error => TyView::Error,
        }
    }
}

/// The mathematical values of a list of types.
pub open spec fn ty_views(types: Seq<Ty>) -> Seq<TyView>
    decreases types,
{
    Seq::new(
        types.len(),
        |i: int|
            if 0 <= i < types.len() {
                types[i].view()
            } else {
                TyView::Error
            },
    )
}

/// Position by position, the values of a list are the values of its
/// elements.
pub broadcast proof fn lemma_ty_views_index(types: Seq<Ty>, i: int)
    requires
        0 <= i < types.len(),
    ensures
        #[trigger] ty_views(types)[i] == types[i].view(),
{
}

pub broadcast proof fn lemma_ty_views_len(types: Seq<Ty>)
    ensures
        (#[trigger] ty_views(types)).len() == types.len(),
{
}

/// How one capability requirement is met: by a concrete extension, with
/// the evidence that extension itself needs, or by forwarding the
/// running frame's own evidence at an index.
#[derive(Debug)]
pub enum Evidence {
    Extension { extend: ItemId, nested: Vec<Evidence> },
    Forwarded(usize),
}

/// The mathematical value of an [`Evidence`].
pub enum EvidenceView {
    Extension { extend: ItemId, nested: Seq<EvidenceView> },
    Forwarded(usize),
}

impl View for Evidence {
    type V = EvidenceView;

    open spec fn view(&self) -> EvidenceView
        decreases self,
    {
        match *self {
            Evidence::Extension { extend, nested } => EvidenceView::Extension {
                extend,
                nested: evidence_views(nested@),
            },
            Evidence::Forwarded(index) => EvidenceView::Forwarded(index),
        }
    }
}

/// The mathematical values of a list of evidence entries.
pub open spec fn evidence_views(entries: Seq<Evidence>) -> Seq<EvidenceView>
    decreases entries,
{
    Seq::new(
        entries.len(),
        |i: int|
            if 0 <= i < entries.len() {
                entries[i].view()
            } else {
                EvidenceView::Forwarded(0)
            },
    )
}

pub broadcast proof fn lemma_evidence_views_index(entries: Seq<Evidence>, i: int)
    requires
        0 <= i < entries.len(),
    ensures
        #[trigger] evidence_views(entries)[i] == entries[i].view(),
{
}

pub broadcast proof fn lemma_evidence_views_len(entries: Seq<Evidence>)
    ensures
        (#[trigger] evidence_views(entries)).len() == entries.len(),
{
}

/// A capability a function asks its caller for.
#[derive(Debug)]
pub struct CapabilityRequirement {
    pub protocol: ItemId,
    pub arguments: Vec<Ty>,
}

impl CapabilityRequirement {
    pub fn new(protocol: ItemId, arguments: Vec<Ty>) -> (r: CapabilityRequirement)
        ensures
            r.protocol == protocol,
            r.arguments == arguments,
    {
        CapabilityRequirement { protocol, arguments }
    }
}

/// An assignment of types to type parameters.
#[derive(Debug)]
pub struct Substitution {
    pub bindings: IdMap<Ty>,
}

impl View for Substitution {
    type V = Map<u32, TyView>;

    open spec fn view(&self) -> Map<u32, TyView> {
        self.bindings@.map_values(|ty: Ty| ty.view())
    }
}

pub broadcast group group_type_views {
    lemma_ty_views_index,
    lemma_ty_views_len,
    lemma_evidence_views_index,
    lemma_evidence_views_len,
}

} // verus!
