use crate::float::Double;
use crate::ids::{ItemId, ResourceId, RuntimeObservationId};
use crate::types::{ty_views, Ty, TyView};
use vstd::prelude::*;

verus! {

/// Whether a handle grants owning or merely observing access to its
/// resource.
///
/// Carried on the handle itself, so that an owning operation attempted
/// through an observer is refused whatever program is being run.
#[derive(Debug, Clone, Copy, PartialEq, Eq, Structural)]
pub enum RuntimeOwnershipRole {
    Owner,
    Observer,
}

/// A capability to observe or consume one resource, as of one point in
/// that resource's ownership history.
///
/// Every transfer of ownership raises the resource's generation, which
/// makes every handle of an earlier generation stale. Observing never
/// does, so any number of handles of the current generation may coexist.
#[derive(Debug, Clone, Copy, PartialEq, Eq)]
pub struct ResourceHandle {
    pub id: ResourceId,
    pub generation: u64,
    pub role: RuntimeOwnershipRole,
    /// The observation lease this handle was minted under, if any. When
    /// that lease ends the handle stops working; the owner's own handle
    /// carries no lease and is unaffected.
    pub lease: Option<RuntimeObservationId>,
}

/// A runtime value.
///
/// Integers and floating-point numbers are represented uniformly,
/// whatever width they were declared with.
#[derive(Debug)]
pub enum Value {
    Int(i128),
    Float(Double),
    Bool(bool),
    Char(char),
    Str(String),
    Unit,
    /// Fields in declaration order, and the concrete type arguments of
    /// the declaration's parameters.
    Record { item: ItemId, type_args: Vec<Ty>, fields: Vec<Value> },
    /// `case` is the declaration index of the active case, `payload` its
    /// values in declaration order.
    Variant { item: ItemId, type_args: Vec<Ty>, case: usize, payload: Vec<Value> },
    /// A handle into the resource table; the resource's own fields are
    /// held there.
    Resource(ResourceHandle),
    /// What a field holds once its value was moved out.
    Moved,
    /// What a field holds once its value was destroyed in place.
    Dropped,
}

/// The mathematical value of a [`Value`].
pub enum ValueView {
    Int(i128),
    Float(Double),
    Bool(bool),
    Char(char),
    Str(Seq<char>),
    Unit,
    Record { item: ItemId, type_args: Seq<TyView>, fields: Seq<ValueView> },
    Variant { item: ItemId, type_args: Seq<TyView>, case: usize, payload: Seq<ValueView> },
    Resource(ResourceHandle),
    Moved,
    Dropped,
}

impl View for Value {
    type V = ValueView;

    open spec fn view(&self) -> ValueView
        decreases self,
    {
        match *self {
            Value::Int(n) => ValueView::Int(n),
            Value::Float(x) => ValueView::Float(x),
            Value::Bool(b) => ValueView::Bool(b),
            Value::Char(c) => ValueView::Char(c),
            Value::Str(s) => ValueView::Str(s@),
            Value::Unit => ValueView::Unit,
            Value::Record { item, type_args, fields } => ValueView::Record {
                item,
                type_args: ty_views(type_args@),
                fields: value_views(fields@),
            },
            Value::Variant { item, type_args, case, payload } => ValueView::Variant {
                item,
                type_args: ty_views(type_args@),
                case,
                payload: value_views(payload@),
            },
            Value::Resource(handle) => ValueView::Resource(handle),
            Value::Moved => ValueView::Moved,
            Value::Dropped => ValueView::Dropped,
        }
    }
}

/// The mathematical values of a list of runtime values.
pub open spec fn value_views(values: Seq<Value>) -> Seq<ValueView>
    decreases values,
{
    Seq::new(
        values.len(),
        |i: int|
            if 0 <= i < values.len() {
                values[i].view()
            } else {
                ValueView::Unit
            },
    )
}

pub broadcast proof fn lemma_value_views_index(values: Seq<Value>, i: int)
    requires
        0 <= i < values.len(),
    ensures
        #[trigger] value_views(values)[i] == values[i].view(),
{
}

pub broadcast proof fn lemma_value_views_len(values: Seq<Value>)
    ensures
        (#[trigger] value_views(values)).len() == values.len(),
{
}

pub broadcast proof fn lemma_value_views_push(values: Seq<Value>, value: Value)
    ensures
        #[trigger] value_views(values.push(value)) == value_views(values).push(value.view()),
{
    assert(value_views(values.push(value)) =~= value_views(values).push(value.view()));
}

pub broadcast proof fn lemma_value_views_update(values: Seq<Value>, i: int, value: Value)
    requires
        0 <= i < values.len(),
    ensures
        #[trigger] value_views(values.update(i, value)) == value_views(values).update(
            i,
            value.view(),
        ),
{
    assert(value_views(values.update(i, value)) =~= value_views(values).update(i, value.view()));
}

pub broadcast group group_value_views {
    lemma_value_views_index,
    lemma_value_views_len,
    lemma_value_views_push,
    lemma_value_views_update,
}

/// Whether two values are equal as a program would see them: numbers
/// compare numerically, everything else structurally.
pub open spec fn value_eq(a: ValueView, b: ValueView) -> bool
    decreases a, 0nat,
{
    match (a, b) {
        (ValueView::Float(x), ValueView::Float(y)) => x.equals(y),
        (
            ValueView::Record { item, type_args, fields },
            ValueView::Record { item: item2, type_args: type_args2, fields: fields2 },
        ) => {
            &&& item == item2
            &&& type_args == type_args2
            &&& fields.len() == fields2.len()
            &&& value_eq_from(fields, fields2, 0)
        },
        (
            ValueView::Variant { item, type_args, case, payload },
            ValueView::Variant {
                item: item2,
                type_args: type_args2,
                case: case2,
                payload: payload2,
            },
        ) => {
            &&& item == item2
            &&& type_args == type_args2
            &&& case == case2
            &&& payload.len() == payload2.len()
            &&& value_eq_from(payload, payload2, 0)
        },
        (a, b) => a == b,
    }
}

/// [`value_eq`], position by position from `i` on.
pub open spec fn value_eq_from(a: Seq<ValueView>, b: Seq<ValueView>, i: nat) -> bool
    decreases a, a.len() - i,
{
    i < a.len() ==> value_eq(a[i as int], b[i as int]) && value_eq_from(a, b, i + 1)
}

/// Why an execution was refused.
#[derive(Debug, Clone, PartialEq)]
pub enum InterpreterError {
    DivisionByZero,
    InvalidOperation(String),
}

/// The mathematical value of an [`InterpreterError`].
pub enum ErrorView {
    DivisionByZero,
    InvalidOperation(Seq<char>),
}

impl View for InterpreterError {
    type V = ErrorView;

    open spec fn view(&self) -> ErrorView {
        match *self {
            InterpreterError::DivisionByZero => ErrorView::DivisionByZero,
            InterpreterError::InvalidOperation(message) => ErrorView::InvalidOperation(message@),
        }
    }
}

/// The error an invalid operation is reported as.
pub open spec fn refusal(message: Seq<char>) -> ErrorView {
    ErrorView::InvalidOperation(message)
}

/// Reports an invalid operation.
pub fn invalid(message: &str) -> (r: InterpreterError)
    ensures
        r@ == refusal(message@),
{
    InterpreterError::InvalidOperation(message.to_owned())
}

/// [`invalid`], for a message already composed.
pub fn invalid_message(message: String) -> (r: InterpreterError)
    ensures
        r@ == refusal(message@),
{
    InterpreterError::InvalidOperation(message)
}

/// A result that carries nothing on success, as a mathematical value.
pub open spec fn checked(r: Result<(), InterpreterError>) -> Result<(), ErrorView> {
    match r {
        Ok(_) => Ok(()),
        Err(e) => Err(e@),
    }
}

/// A value result, as a mathematical value.
pub open spec fn evaluated(r: Result<Value, InterpreterError>) -> Result<ValueView, ErrorView> {
    match r {
        Ok(v) => Ok(v@),
        Err(e) => Err(e@),
    }
}

} // verus!
