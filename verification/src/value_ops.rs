use crate::idmap::IdMap;
use crate::ids::ValueId;
use crate::text::numbered;
use crate::type_ops::{copy_types, same_types};
use crate::text::decimal;
use crate::value::{
    invalid_message, refusal, value_eq, value_eq_from, value_views, ErrorView, InterpreterError,
    ResourceHandle, Value, ValueView,
};
use vstd::prelude::*;

verus! {

broadcast use {crate::types::group_type_views, crate::value::group_value_views};

/// An independent copy of a list of values.
pub fn copy_values(values: &Vec<Value>) -> (r: Vec<Value>)
    ensures
        value_views(r@) == value_views(values@),
    decreases values,
{
    let mut copied: Vec<Value> = Vec::new();
    let mut i: usize = 0;
    while i < values.len()
        invariant
            i <= values@.len(),
            copied@.len() == i,
            forall|j: int| 0 <= j < i ==> (#[trigger] copied@[j])@ == values@[j]@,
        decreases values@.len() - i,
    {
        let one = copy_value(&values[i]);
        copied.push(one);
        i = i + 1;
    }
    assert(value_views(copied@) =~= value_views(values@));
    copied
}

/// An independent copy of a value. A resource is not copied with its
/// handle: both handles name the same record.
pub fn copy_value(value: &Value) -> (r: Value)
    ensures
        r@ == value@,
    decreases value,
{
    match value {
        Value::Int(n) => Value::Int(*n),
        Value::Float(x) => Value::Float(*x),
        Value::Bool(b) => Value::Bool(*b),
        Value::Char(c) => Value::Char(*c),
        Value::Str(s) => Value::Str(s.clone()),
        Value::Unit => Value::Unit,
        Value::Record { item, type_args, fields } => Value::Record {
            item: *item,
            type_args: copy_types(type_args),
            fields: copy_values(fields),
        },
        Value::Variant { item, type_args, case, payload } => Value::Variant {
            item: *item,
            type_args: copy_types(type_args),
            case: *case,
            payload: copy_values(payload),
        },
        Value::Resource(handle) => Value::Resource(*handle),
        Value::Moved => Value::Moved,
        Value::Dropped => Value::Dropped,
    }
}

impl Clone for Value {
    fn clone(&self) -> (r: Value)
        ensures
            r@ == self@,
    {
        copy_value(self)
    }
}

/// Whether two handles agree in every part.
pub fn same_handle(a: ResourceHandle, b: ResourceHandle) -> (r: bool)
    ensures
        r == (a == b),
{
    let leases = match (a.lease, b.lease) {
        (None, None) => true,
        (Some(x), Some(y)) => x == y,
        _ => false,
    };
    a.id == b.id && a.generation == b.generation && a.role == b.role && leases
}

/// Whether two lists of values are equal, position by position.
fn same_values(a: &Vec<Value>, b: &Vec<Value>) -> (r: bool)
    ensures
        r == (a@.len() == b@.len() && value_eq_from(value_views(a@), value_views(b@), 0)),
    decreases a,
{
    if a.len() != b.len() {
        return false;
    }
    let mut i: usize = 0;
    while i < a.len()
        invariant
            i <= a@.len(),
            a@.len() == b@.len(),
            value_eq_from(value_views(a@), value_views(b@), 0) == value_eq_from(
                value_views(a@),
                value_views(b@),
                i as nat,
            ),
        decreases a@.len() - i,
    {
        if !same_value(&a[i], &b[i]) {
            return false;
        }
        i = i + 1;
    }
    true
}

/// Whether two values are equal.
pub fn same_value(a: &Value, b: &Value) -> (r: bool)
    ensures
        r == value_eq(a@, b@),
    decreases a,
{
    match (a, b) {
        (Value::Int(x), Value::Int(y)) => *x == *y,
        (Value::Float(x), Value::Float(y)) => x.same(*y),
        (Value::Bool(x), Value::Bool(y)) => *x == *y,
        (Value::Char(x), Value::Char(y)) => *x == *y,
        (Value::Str(x), Value::Str(y)) => *x == *y,
        (Value::Unit, Value::Unit) => true,
        (
            Value::Record { item, type_args, fields },
            Value::Record { item: item2, type_args: type_args2, fields: fields2 },
        ) => {
            assert(a@->Record_fields == value_views(fields@));
            assert(b@->Record_fields == value_views(fields2@));
            *item == *item2 && same_types(type_args, type_args2) && same_values(fields, fields2)
        },
        (
            Value::Variant { item, type_args, case, payload },
            Value::Variant { item: item2, type_args: type_args2, case: case2, payload: payload2 },
        ) => {
            assert(a@->Variant_payload == value_views(payload@));
            assert(b@->Variant_payload == value_views(payload2@));
            *item == *item2 && same_types(type_args, type_args2) && *case == *case2 && same_values(
                payload,
                payload2,
            )
        },
        (Value::Resource(x), Value::Resource(y)) => same_handle(*x, *y),
        (Value::Moved, Value::Moved) => true,
        (Value::Dropped, Value::Dropped) => true,
        _ => false,
    }
}

impl PartialEq for Value {
    fn eq(&self, other: &Value) -> (r: bool) {
        same_value(self, other)
    }
}

impl vstd::std_specs::cmp::PartialEqSpecImpl for Value {
    open spec fn obeys_eq_spec() -> bool {
        true
    }

    open spec fn eq_spec(&self, other: &Value) -> bool {
        value_eq(self@, other@)
    }
}

/// How messages name the kind of a value.
pub open spec fn kind_text(value: ValueView) -> Seq<char> {
    match value {
        ValueView::Int(_) => "an integer"@,
        ValueView::Float(_) => "a float"@,
        ValueView::Bool(_) => "a bool"@,
        ValueView::Char(_) => "a char"@,
        ValueView::Str(_) => "a string"@,
        ValueView::Unit => "unit"@,
        ValueView::Record { .. } => "a record"@,
        ValueView::Variant { .. } => "a variant"@,
        ValueView::Resource(_) => "a resource"@,
        ValueView::Moved => "a moved field"@,
        ValueView::Dropped => "a dropped field"@,
    }
}

/// The name messages give the kind of `value`.
pub fn kind_name(value: &Value) -> (r: &'static str)
    ensures
        r@ == kind_text(value@),
{
    match value {
        Value::Int(_) => "an integer",
        Value::Float(_) => "a float",
        Value::Bool(_) => "a bool",
        Value::Char(_) => "a char",
        Value::Str(_) => "a string",
        Value::Unit => "unit",
        Value::Record { .. } => "a record",
        Value::Variant { .. } => "a variant",
        Value::Resource(_) => "a resource",
        Value::Moved => "a moved field",
        Value::Dropped => "a dropped field",
    }
}

/// Whether a field holding `value` was moved out of or destroyed.
pub open spec fn tombstone(value: ValueView) -> bool {
    value is Moved || value is Dropped
}

/// Whether a field holding `value` was moved out of or destroyed.
pub fn is_tombstone(value: &Value) -> (r: bool)
    ensures
        r == tombstone(value@),
{
    match value {
        Value::Moved | Value::Dropped => true,
        _ => false,
    }
}

/// The values one frame has computed.
#[derive(Debug)]
pub struct Frame {
    pub values: IdMap<Value>,
}

impl View for Frame {
    type V = Map<u32, ValueView>;

    open spec fn view(&self) -> Map<u32, ValueView> {
        self.values@.map_values(|value: Value| value.view())
    }
}

impl Frame {
    /// A frame that has computed nothing.
    pub fn new() -> (r: Frame)
        ensures
            r@ == Map::<u32, ValueView>::empty(),
    {
        let r = Frame { values: IdMap::new() };
        assert(r@ =~= Map::<u32, ValueView>::empty());
        r
    }

    /// Binds `id` to `value`.
    pub fn insert(&mut self, id: ValueId, value: Value)
        ensures
            final(self)@ == old(self)@.insert(id.0, value@),
    {
        self.values.insert(id.0, value);
        assert(self@ =~= old(self)@.insert(id.0, value@));
    }

    /// Forgets what `id` was bound to, and gives it back.
    pub fn remove(&mut self, id: &ValueId) -> (r: Option<Value>)
        ensures
            final(self)@ == old(self)@.remove(id.0),
            r matches Some(value) ==> old(self)@.contains_key(id.0) && old(self)@[id.0] == value@,
            r is None ==> !old(self)@.contains_key(id.0),
    {
        let removed = self.values.remove(id.0);
        assert(self@ =~= old(self)@.remove(id.0));
        removed
    }

    /// What `id` is bound to.
    pub fn get(&self, id: &ValueId) -> (r: Option<&Value>)
        ensures
            r matches Some(value) ==> self@.contains_key(id.0) && self@[id.0] == value@,
            r is None ==> !self@.contains_key(id.0),
    {
        self.values.get(id.0)
    }

    /// Whether `id` is bound.
    pub fn contains_key(&self, id: &ValueId) -> (r: bool)
        ensures
            r == self@.contains_key(id.0),
    {
        self.values.contains(id.0)
    }
}

/// What reading `id` gives: its value, or the refusal of a read before
/// the value was computed.
pub open spec fn read_value(frame: Map<u32, ValueView>, id: ValueId) -> Result<ValueView, ErrorView> {
    if frame.contains_key(id.0) {
        Ok(frame[id.0])
    } else {
        Err(refusal("%"@ + decimal(id.0 as nat) + " was read before it was computed"@))
    }
}

/// Reads `id`.
pub fn get(values: &Frame, id: &ValueId) -> (r: Result<Value, InterpreterError>)
    ensures
        crate::value::evaluated(r) == read_value(values@, *id),
{
    match values.get(id) {
        Some(value) => Ok(copy_value(value)),
        None => Err(
            invalid_message(numbered("%", id.0 as u64, " was read before it was computed")),
        ),
    }
}

} // verus!
