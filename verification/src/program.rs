use crate::float::Double;
use crate::ids::{BlockId, CaseId, FieldId, ItemId, ObservationId, Symbol, TypeParamId, ValueId};
use crate::types::{CapabilityRequirement, Evidence, Ty};
use vstd::prelude::*;

verus! {

/// How deeply values, types and places may nest.
pub const MAX_GENERIC_DEPTH: usize = 64;

/// How many call frames may be entered at once.
pub const MAX_CALL_DEPTH: usize = 256;

/// How many blocks one frame may run: as many as can be counted. Every
/// run is known to end because of it; below it the number decides
/// nothing.
pub const MAX_BLOCKS: u64 = 0xffff_ffff_ffff_ffff;

/// A literal.
#[derive(Debug)]
pub enum Const {
    Int(u128),
    Float(Double),
    Bool(bool),
    Char(char),
    Str(String),
    Unit,
}

/// Whether an access leaves its place's owner undisturbed or takes
/// ownership away from it.
#[derive(Debug, Clone, Copy, PartialEq, Eq, Structural)]
pub enum OwnershipMode {
    Observe,
    Transfer,
}

/// One step into an aggregate.
#[derive(Debug, Clone, Copy)]
pub enum Projection {
    Field { owner: ItemId, field: FieldId },
    VariantField { variant: ItemId, case: CaseId, field: FieldId },
}

/// A path from a frame value into the aggregates it holds.
#[derive(Debug)]
pub struct Place {
    pub root: ValueId,
    pub projections: Vec<Projection>,
}

impl Place {
    /// The whole of `root`.
    pub fn root(root: ValueId) -> (r: Place)
        ensures
            r.root == root,
            r.projections@ == Seq::<Projection>::empty(),
    {
        Place { root, projections: Vec::new() }
    }

    /// This place's field at `field`, in an aggregate declared as `owner`.
    pub fn field(self, owner: ItemId, field: FieldId) -> (r: Place)
        ensures
            r.root == self.root,
            r.projections@ == self.projections@.push(Projection::Field { owner, field }),
    {
        let mut projections = self.projections;
        projections.push(Projection::Field { owner, field });
        Place { root: self.root, projections }
    }
}

/// What a value instruction computes.
#[derive(Debug)]
pub enum ValueKind {
    Alloc,
    Const(Const),
    Load(ValueId),
    Move { source: ValueId },
    DeferCapture { source: ValueId },
    PlaceRead { place: Place, mode: OwnershipMode },
    ObservePlace { observation: ObservationId, place: Place },
    Add(ValueId, ValueId),
    Sub(ValueId, ValueId),
    Mul(ValueId, ValueId),
    Div(ValueId, ValueId),
    Rem(ValueId, ValueId),
    Neg(ValueId),
    Not(ValueId),
    And(ValueId, ValueId),
    Or(ValueId, ValueId),
    Xor(ValueId, ValueId),
    Shl(ValueId, ValueId),
    Shr(ValueId, ValueId),
    Eq(ValueId, ValueId),
    Ne(ValueId, ValueId),
    Lt(ValueId, ValueId),
    Le(ValueId, ValueId),
    Gt(ValueId, ValueId),
    Ge(ValueId, ValueId),
    Call(ItemId, Vec<Ty>, Vec<ValueId>, Vec<Evidence>),
    ProtocolCall {
        protocol: ItemId,
        arguments: Vec<Ty>,
        method: usize,
        evidence: Evidence,
        args: Vec<ValueId>,
    },
    RecordCreate(ItemId, Vec<Ty>, Vec<ValueId>),
    RecordField { base: ValueId, record: ItemId, field: usize },
    VariantCreate { variant: ItemId, case: usize, type_args: Vec<Ty>, payload: Vec<ValueId> },
    VariantPayload { base: ValueId, variant: ItemId, case: usize, index: usize },
}

/// One step of a basic block.
#[derive(Debug)]
pub enum Instruction {
    Value { result: ValueId, ty: Ty, kind: ValueKind },
    EndObserve { observation: ObservationId },
    DecomposeVariant {
        value: ValueId,
        variant: ItemId,
        case: usize,
        taken: Vec<(usize, ValueId)>,
    },
    Store { slot: ValueId, value: ValueId, mode: OwnershipMode },
    Drop { value: ValueId },
    StorePlace { place: Place, value: ValueId },
}

/// Where an invoked function's failure of one variant continues.
#[derive(Debug)]
pub struct FailureTarget {
    pub variant: ItemId,
    pub slot: ValueId,
    pub target: BlockId,
}

/// How a basic block ends.
#[derive(Debug)]
pub enum Terminator {
    Return(Option<ValueId>),
    Branch(BlockId),
    CondBranch { condition: ValueId, then_block: BlockId, else_block: BlockId },
    Switch { scrutinee: ValueId, variant: ItemId, cases: Vec<BlockId> },
    Invoke {
        callee: ItemId,
        type_args: Vec<Ty>,
        args: Vec<ValueId>,
        evidence: Vec<Evidence>,
        ok_slot: ValueId,
        ok_target: BlockId,
        err_targets: Vec<FailureTarget>,
    },
    Raise { value: ValueId },
}

/// A straight run of instructions and how it ends.
#[derive(Debug)]
pub struct BasicBlock {
    pub id: BlockId,
    pub instructions: Vec<Instruction>,
    pub terminator: Terminator,
}

/// A parameter, and whether it takes ownership of its argument.
#[derive(Debug)]
pub struct Param {
    pub value: ValueId,
    pub ty: Ty,
    pub take: bool,
}

/// A function. Its entry block is the one with id 0.
#[derive(Debug)]
pub struct Function {
    pub id: ItemId,
    pub name: Symbol,
    pub type_params: Vec<(TypeParamId, Symbol)>,
    pub requirements: Vec<CapabilityRequirement>,
    pub params: Vec<Param>,
    pub return_type: Ty,
    pub raises: Vec<ItemId>,
    pub blocks: Vec<BasicBlock>,
}

/// A record's declaration; `affine` marks a declared resource.
#[derive(Debug)]
pub struct RecordLayout {
    pub name: Symbol,
    pub type_params: Vec<(TypeParamId, Symbol)>,
    pub fields: Vec<(Symbol, Ty)>,
    pub affine: bool,
}

/// One case of a variant's declaration.
#[derive(Debug)]
pub struct CaseLayout {
    pub name: Symbol,
    pub payload: Vec<Ty>,
}

/// A variant's declaration.
#[derive(Debug)]
pub struct VariantLayout {
    pub name: Symbol,
    pub type_params: Vec<(TypeParamId, Symbol)>,
    pub cases: Vec<CaseLayout>,
}

/// A protocol's declaration.
#[derive(Debug)]
pub struct ProtocolLayout {
    pub name: Symbol,
    pub type_params: Vec<(TypeParamId, Symbol)>,
}

/// An extension: how some types implement a protocol's methods.
#[derive(Debug)]
pub struct ExtendLayout {
    pub protocol: ItemId,
    pub type_params: Vec<(TypeParamId, Symbol)>,
    pub protocol_arguments: Vec<Ty>,
    pub methods: Vec<ItemId>,
}

/// A whole program.
#[derive(Debug)]
pub struct Module {
    pub functions: Vec<Function>,
    pub records: Vec<(ItemId, RecordLayout)>,
    pub variants: Vec<(ItemId, VariantLayout)>,
    pub protocols: Vec<(ItemId, ProtocolLayout)>,
    pub extends: Vec<(ItemId, ExtendLayout)>,
}

} // verus!
