use crate::ids::ResourceId;
use crate::interpreter::Interpreter;
use crate::program::{Projection, MAX_GENERIC_DEPTH};
use crate::table::{field_out_of_range, TableView};
use crate::text::framed;
use crate::type_ops::copy_types;
use crate::value::{
    checked, evaluated, invalid, invalid_message, refusal, value_views, ErrorView, InterpreterError,
    RuntimeOwnershipRole, Value, ValueView,
};
use crate::value_ops::{copy_value, copy_values, is_tombstone, kind_name, kind_text, tombstone};
use vstd::prelude::*;

verus! {

broadcast use {crate::types::group_type_views, crate::value::group_value_views};

/// What a place is walked for.
#[derive(Debug, Clone, Copy, PartialEq, Eq, Structural)]
pub enum PathIntent {
    /// The final field's value is about to be moved out, so it must hold
    /// one.
    Take,
    /// The final field is about to be reinitialized, so it must be a
    /// tombstone.
    Store,
}

/// What removing a value from a place gives: the value, and the
/// container as it must be written back.
#[derive(Debug)]
pub struct AccessResult {
    pub extracted: Value,
    pub container: Value,
}

/// The field position one step names.
pub open spec fn step_index(projection: Projection) -> Result<usize, ErrorView> {
    match projection {
        Projection::Field { field, .. } => Ok(field.0 as usize),
        Projection::VariantField { .. } => Err(
            refusal(
                "a place projects through a variant field, which this milestone's runtime never produces"@,
            ),
        ),
    }
}

pub open spec fn record_field_out_of_range() -> ErrorView {
    refusal("a place projects a field index out of range for this record"@)
}

/// The refusal of a step into something without fields.
pub open spec fn no_fields(container: ValueView) -> ErrorView {
    match container {
        ValueView::Moved => refusal("use of a field after it was already moved"@),
        ValueView::Dropped => refusal("use of a field after it was already dropped"@),
        other => not_an_aggregate(other),
    }
}

/// The refusal of a store through something without fields.
pub open spec fn no_fields_to_store(container: ValueView) -> ErrorView {
    match container {
        ValueView::Moved => refusal(
            "a place reinitializes through a field that was already moved"@,
        ),
        ValueView::Dropped => refusal(
            "a place reinitializes through a field that was already dropped"@,
        ),
        other => not_an_aggregate(other),
    }
}

pub open spec fn not_an_aggregate(container: ValueView) -> ErrorView {
    refusal("a place projects through a non-aggregate value ("@ + kind_text(container) + ")"@)
}

/// The value at the end of the steps from position `i` on.
pub open spec fn observed_at(
    table: TableView,
    container: ValueView,
    steps: Seq<Projection>,
    i: nat,
) -> Result<ValueView, ErrorView>
    decreases steps.len() - i,
{
    if i >= steps.len() {
        Ok(container)
    } else {
        match step_index(steps[i as int]) {
            Err(e) => Err(e),
            Ok(index) => match container {
                ValueView::Resource(handle) => match table.observe_field(handle, index) {
                    Err(e) => Err(e),
                    Ok(inner) => observed_at(table, inner, steps, i + 1),
                },
                ValueView::Record { fields, .. } => if index >= fields.len() {
                    Err(record_field_out_of_range())
                } else {
                    observed_at(table, fields[index as int], steps, i + 1)
                },
                other => Err(no_fields(other)),
            },
        }
    }
}

/// The conditions on the final field: nothing may be moved through an
/// observer, a value can only be taken where there is one, and stored
/// where there is none.
pub open spec fn final_step(
    slot: ValueView,
    intent: PathIntent,
    observed: bool,
    in_resource: bool,
) -> Result<(), ErrorView> {
    match intent {
        PathIntent::Take => if observed {
            Err(refusal("cannot transfer a field through a merely-observing resource handle"@))
        } else if tombstone(slot) {
            if in_resource {
                Err(refusal("transfer of a resource field that was already moved or dropped"@))
            } else {
                Err(refusal("transfer of a record field that was already moved or dropped"@))
            }
        } else {
            Ok(())
        },
        PathIntent::Store => if observed {
            Err(refusal("cannot reinitialize a field through a merely-observing resource handle"@))
        } else if !tombstone(slot) {
            if in_resource {
                Err(refusal("cannot overwrite a resource field that still owns a live value"@))
            } else {
                Err(refusal("cannot overwrite a record field that still owns a live value"@))
            }
        } else {
            Ok(())
        },
    }
}

/// Whether the steps from position `i` on may be walked for `intent`.
/// Once the walk has crossed an observer it stays crossed.
pub open spec fn path_check(
    table: TableView,
    container: ValueView,
    steps: Seq<Projection>,
    i: nat,
    intent: PathIntent,
    observed: bool,
    depth: nat,
) -> Result<(), ErrorView>
    decreases steps.len() - i,
{
    if depth >= MAX_GENERIC_DEPTH {
        Err(refusal("a place projects more deeply than this milestone supports"@))
    } else if i >= steps.len() {
        Ok(())
    } else {
        match step_index(steps[i as int]) {
            Err(e) => Err(e),
            Ok(index) => match container {
                ValueView::Resource(handle) => match table.observe(handle) {
                    Err(e) => Err(e),
                    Ok(record) => if index >= record.fields.len() {
                        Err(field_out_of_range())
                    } else {
                        let inner = record.fields[index as int];
                        let crossed = observed || handle.role != RuntimeOwnershipRole::Owner;
                        if i + 1 >= steps.len() {
                            final_step(inner, intent, crossed, true)
                        } else {
                            path_check(table, inner, steps, i + 1, intent, crossed, depth + 1)
                        }
                    },
                },
                ValueView::Record { fields, .. } => if index >= fields.len() {
                    Err(record_field_out_of_range())
                } else if i + 1 >= steps.len() {
                    final_step(fields[index as int], intent, observed, false)
                } else {
                    path_check(
                        table,
                        fields[index as int],
                        steps,
                        i + 1,
                        intent,
                        observed,
                        depth + 1,
                    )
                },
                other => Err(no_fields(other)),
            },
        }
    }
}

/// Removing the value at the end of the steps from position `i` on: the
/// table afterwards, the value, and the container with a tombstone where
/// the value was.
pub open spec fn taken(
    table: TableView,
    container: ValueView,
    steps: Seq<Projection>,
    i: nat,
) -> (TableView, Result<(ValueView, ValueView), ErrorView>)
    decreases steps.len() - i,
{
    if i >= steps.len() {
        (table, Ok((container, container)))
    } else {
        match step_index(steps[i as int]) {
            Err(e) => (table, Err(e)),
            Ok(index) => match container {
                ValueView::Resource(handle) => if i + 1 >= steps.len() {
                    match table.take_field(handle, index) {
                        Err(e) => (table, Err(e)),
                        Ok((table1, value)) => if tombstone(value) {
                            match table1.restore_field(handle, index, value) {
                                Err(e) => (table1, Err(e)),
                                Ok(table2) => (
                                    table2,
                                    Err(
                                        refusal(
                                            "transfer of a resource field that was already moved or dropped"@,
                                        ),
                                    ),
                                ),
                            }
                        } else {
                            (table1, Ok((value, container)))
                        },
                    }
                } else {
                    match table.observe_field(handle, index) {
                        Err(e) => (table, Err(e)),
                        Ok(inner) => {
                            let (table1, r) = taken(table, inner, steps, i + 1);
                            match r {
                                Err(e) => (table1, Err(e)),
                                Ok((value, rest)) => match table1.restore_field(
                                    handle,
                                    index,
                                    rest,
                                ) {
                                    Err(e) => (table1, Err(e)),
                                    Ok(table2) => (table2, Ok((value, container))),
                                },
                            }
                        },
                    }
                },
                ValueView::Record { item, type_args, fields } => if index >= fields.len() {
                    (table, Err(record_field_out_of_range()))
                } else if i + 1 >= steps.len() {
                    if tombstone(fields[index as int]) {
                        (
                            table,
                            Err(
                                refusal(
                                    "transfer of a record field that was already moved or dropped"@,
                                ),
                            ),
                        )
                    } else {
                        (
                            table,
                            Ok(
                                (
                                    fields[index as int],
                                    ValueView::Record {
                                        item,
                                        type_args,
                                        fields: fields.update(index as int, ValueView::Moved),
                                    },
                                ),
                            ),
                        )
                    }
                } else {
                    let (table1, r) = taken(table, fields[index as int], steps, i + 1);
                    match r {
                        Err(e) => (table1, Err(e)),
                        Ok((value, rest)) => (
                            table1,
                            Ok(
                                (
                                    value,
                                    ValueView::Record {
                                        item,
                                        type_args,
                                        fields: fields.update(index as int, rest),
                                    },
                                ),
                            ),
                        ),
                    }
                },
                other => (table, Err(no_fields(other))),
            },
        }
    }
}

/// Putting `value` at the end of the steps from position `i` on: the
/// table afterwards, and the container as it must be written back.
pub open spec fn stored(
    table: TableView,
    container: ValueView,
    steps: Seq<Projection>,
    i: nat,
    value: ValueView,
) -> (TableView, Result<ValueView, ErrorView>)
    decreases steps.len() - i,
{
    if i >= steps.len() {
        (table, Ok(value))
    } else {
        match step_index(steps[i as int]) {
            Err(e) => (table, Err(e)),
            Ok(index) => match container {
                ValueView::Resource(handle) => if i + 1 >= steps.len() {
                    match table.set_field(handle, index, value) {
                        Err(e) => (table, Err(e)),
                        Ok(table1) => (table1, Ok(container)),
                    }
                } else {
                    match table.observe_field(handle, index) {
                        Err(e) => (table, Err(e)),
                        Ok(inner) => {
                            let (table1, r) = stored(table, inner, steps, i + 1, value);
                            match r {
                                Err(e) => (table1, Err(e)),
                                Ok(rest) => match table1.restore_field(handle, index, rest) {
                                    Err(e) => (table1, Err(e)),
                                    Ok(table2) => (table2, Ok(container)),
                                },
                            }
                        },
                    }
                },
                ValueView::Record { item, type_args, fields } => if index >= fields.len() {
                    (table, Err(record_field_out_of_range()))
                } else if i + 1 >= steps.len() {
                    if !tombstone(fields[index as int]) {
                        (
                            table,
                            Err(
                                refusal(
                                    "cannot overwrite a record field that still owns a live value"@,
                                ),
                            ),
                        )
                    } else {
                        (
                            table,
                            Ok(
                                ValueView::Record {
                                    item,
                                    type_args,
                                    fields: fields.update(index as int, value),
                                },
                            ),
                        )
                    }
                } else {
                    let (table1, r) = stored(table, fields[index as int], steps, i + 1, value);
                    match r {
                        Err(e) => (table1, Err(e)),
                        Ok(rest) => (
                            table1,
                            Ok(
                                ValueView::Record {
                                    item,
                                    type_args,
                                    fields: fields.update(index as int, rest),
                                },
                            ),
                        ),
                    }
                },
                other => (table, Err(no_fields_to_store(other))),
            },
        }
    }
}

/// Taking as one transaction: the table, the value and the container
/// afterwards. A refusal takes nothing.
pub open spec fn taking(table: TableView, container: ValueView, steps: Seq<Projection>) -> Result<
    (TableView, ValueView, ValueView),
    ErrorView,
> {
    match path_check(table, container, steps, 0, PathIntent::Take, false, 0) {
        Err(e) => Err(e),
        Ok(_) => {
            let (table1, r) = taken(table, container, steps, 0);
            match r {
                Err(e) => Err(e),
                Ok((value, rest)) => Ok((table1, value, rest)),
            }
        },
    }
}

/// Storing as one transaction: the table and the container afterwards.
/// A refusal stores nothing.
pub open spec fn storing(
    table: TableView,
    container: ValueView,
    steps: Seq<Projection>,
    value: ValueView,
) -> Result<(TableView, ValueView), ErrorView> {
    match path_check(table, container, steps, 0, PathIntent::Store, false, 0) {
        Err(e) => Err(e),
        Ok(_) => {
            let (table1, r) = stored(table, container, steps, 0, value);
            match r {
                Err(e) => Err(e),
                Ok(rest) => Ok((table1, rest)),
            }
        },
    }
}

/// Whether two tables differ at most in what fields hold.
pub open spec fn same_shape(a: TableView, b: TableView) -> bool {
    &&& a.leases == b.leases
    &&& a.records.len() == b.records.len()
    &&& forall|i: int|
        0 <= i < a.records.len() ==> {
            &&& (#[trigger] a.records[i]).item == b.records[i].item
            &&& a.records[i].generation == b.records[i].generation
            &&& a.records[i].status == b.records[i].status
            &&& a.records[i].fields.len() == b.records[i].fields.len()
        }
}

/// Taking changes nothing in the table but what fields hold.
pub proof fn lemma_taken_keeps_shape(
    table: TableView,
    container: ValueView,
    steps: Seq<Projection>,
    i: nat,
)
    ensures
        same_shape(table, taken(table, container, steps, i).0),
    decreases steps.len() - i,
{
    if i < steps.len() && step_index(steps[i as int]) is Ok {
        let index = step_index(steps[i as int])->Ok_0;
        match container {
            ValueView::Resource(handle) => if i + 1 < steps.len() {
                match table.observe_field(handle, index) {
                    Ok(inner) => lemma_taken_keeps_shape(table, inner, steps, i + 1),
                    Err(_) => {},
                }
            },
            ValueView::Record { fields, .. } => if index < fields.len() {
                lemma_taken_keeps_shape(table, fields[index as int], steps, i + 1);
            },
            _ => {},
        }
    }
}

/// Storing changes nothing in the table but what fields hold.
pub proof fn lemma_stored_keeps_shape(
    table: TableView,
    container: ValueView,
    steps: Seq<Projection>,
    i: nat,
    value: ValueView,
)
    ensures
        same_shape(table, stored(table, container, steps, i, value).0),
    decreases steps.len() - i,
{
    if i < steps.len() && step_index(steps[i as int]) is Ok {
        let index = step_index(steps[i as int])->Ok_0;
        match container {
            ValueView::Resource(handle) => if i + 1 < steps.len() {
                match table.observe_field(handle, index) {
                    Ok(inner) => lemma_stored_keeps_shape(table, inner, steps, i + 1, value),
                    Err(_) => {},
                }
            },
            ValueView::Record { fields, .. } => if index < fields.len() {
                lemma_stored_keeps_shape(table, fields[index as int], steps, i + 1, value);
            },
            _ => {},
        }
    }
}

/// A walk that has crossed an observer never reaches its final field.
pub proof fn lemma_crossed_path_refused(
    table: TableView,
    container: ValueView,
    steps: Seq<Projection>,
    i: nat,
    intent: PathIntent,
    depth: nat,
)
    requires
        i < steps.len(),
    ensures
        path_check(table, container, steps, i, intent, true, depth) is Err,
    decreases steps.len() - i,
{
    if depth < MAX_GENERIC_DEPTH && step_index(steps[i as int]) is Ok && i + 1 < steps.len() {
        let index = step_index(steps[i as int])->Ok_0;
        match container {
            ValueView::Resource(handle) => match table.observe(handle) {
                Ok(record) => if index < record.fields.len() {
                    lemma_crossed_path_refused(
                        table,
                        record.fields[index as int],
                        steps,
                        i + 1,
                        intent,
                        depth + 1,
                    );
                },
                Err(_) => {},
            },
            ValueView::Record { fields, .. } => if index < fields.len() {
                lemma_crossed_path_refused(
                    table,
                    fields[index as int],
                    steps,
                    i + 1,
                    intent,
                    depth + 1,
                );
            },
            _ => {},
        }
    }
}

/// What may be walked for taking can be taken.
pub proof fn lemma_checked_path_is_taken(
    table: TableView,
    container: ValueView,
    steps: Seq<Projection>,
    i: nat,
    depth: nat,
)
    requires
        path_check(table, container, steps, i, PathIntent::Take, false, depth) is Ok,
    ensures
        taken(table, container, steps, i).1 is Ok,
    decreases steps.len() - i,
{
    if i < steps.len() {
        let index = step_index(steps[i as int])->Ok_0;
        match container {
            ValueView::Resource(handle) => {
                let record = table.observe(handle)->Ok_0;
                let inner = record.fields[index as int];
                if i + 1 < steps.len() {
                    if handle.role != RuntimeOwnershipRole::Owner {
                        lemma_crossed_path_refused(
                            table,
                            inner,
                            steps,
                            i + 1,
                            PathIntent::Take,
                            depth + 1,
                        );
                    }
                    lemma_checked_path_is_taken(table, inner, steps, i + 1, depth + 1);
                    lemma_taken_keeps_shape(table, inner, steps, i + 1);
                }
            },
            ValueView::Record { fields, .. } => {
                if i + 1 < steps.len() {
                    lemma_checked_path_is_taken(
                        table,
                        fields[index as int],
                        steps,
                        i + 1,
                        depth + 1,
                    );
                }
            },
            _ => {},
        }
    }
}

/// What may be walked for storing can be stored.
pub proof fn lemma_checked_path_is_stored(
    table: TableView,
    container: ValueView,
    steps: Seq<Projection>,
    i: nat,
    depth: nat,
    value: ValueView,
)
    requires
        path_check(table, container, steps, i, PathIntent::Store, false, depth) is Ok,
    ensures
        stored(table, container, steps, i, value).1 is Ok,
    decreases steps.len() - i,
{
    if i < steps.len() {
        let index = step_index(steps[i as int])->Ok_0;
        match container {
            ValueView::Resource(handle) => {
                let record = table.observe(handle)->Ok_0;
                let inner = record.fields[index as int];
                if i + 1 < steps.len() {
                    if handle.role != RuntimeOwnershipRole::Owner {
                        lemma_crossed_path_refused(
                            table,
                            inner,
                            steps,
                            i + 1,
                            PathIntent::Store,
                            depth + 1,
                        );
                    }
                    lemma_checked_path_is_stored(table, inner, steps, i + 1, depth + 1, value);
                    lemma_stored_keeps_shape(table, inner, steps, i + 1, value);
                }
            },
            ValueView::Record { fields, .. } => {
                if i + 1 < steps.len() {
                    lemma_checked_path_is_stored(
                        table,
                        fields[index as int],
                        steps,
                        i + 1,
                        depth + 1,
                        value,
                    );
                }
            },
            _ => {},
        }
    }
}

/// Whether the steps from position `i` on reach a field that may be
/// reinitialized.
pub open spec fn store_target(
    table: TableView,
    container: ValueView,
    steps: Seq<Projection>,
    i: nat,
) -> Result<(), ErrorView>
    decreases steps.len() - i,
{
    if i >= steps.len() {
        Err(refusal("a structural store names no field to reinitialize"@))
    } else {
        match step_index(steps[i as int]) {
            Err(e) => Err(e),
            Ok(index) => match container {
                ValueView::Resource(handle) => if handle.role != RuntimeOwnershipRole::Owner {
                    Err(
                        refusal(
                            "cannot reinitialize a field through a merely-observing resource handle"@,
                        ),
                    )
                } else {
                    match table.observe_field(handle, index) {
                        Err(e) => Err(e),
                        Ok(inner) => if i + 1 < steps.len() {
                            store_target(table, inner, steps, i + 1)
                        } else if tombstone(inner) {
                            Ok(())
                        } else {
                            Err(
                                refusal(
                                    "cannot overwrite a resource field that still owns a live value"@,
                                ),
                            )
                        },
                    }
                },
                ValueView::Record { fields, .. } => if index >= fields.len() {
                    Err(record_field_out_of_range())
                } else if i + 1 < steps.len() {
                    store_target(table, fields[index as int], steps, i + 1)
                } else if tombstone(fields[index as int]) {
                    Ok(())
                } else {
                    Err(refusal("cannot overwrite a record field that still owns a live value"@))
                },
                other => Err(no_fields_to_store(other)),
            },
        }
    }
}

/// Every resource the steps from position `i` on pass through, added to
/// `out`.
pub open spec fn passed_through(
    table: TableView,
    container: ValueView,
    steps: Seq<Projection>,
    i: nat,
    out: Seq<ResourceId>,
) -> (Seq<ResourceId>, Result<(), ErrorView>)
    decreases steps.len() - i,
{
    if i >= steps.len() {
        (out, Ok(()))
    } else {
        match step_index(steps[i as int]) {
            Err(e) => (out, Err(e)),
            Ok(index) => match container {
                ValueView::Resource(handle) => if i + 1 >= steps.len() {
                    (out.push(handle.id), Ok(()))
                } else {
                    match table.observe_field(handle, index) {
                        Err(e) => (out.push(handle.id), Err(e)),
                        Ok(inner) => passed_through(
                            table,
                            inner,
                            steps,
                            i + 1,
                            out.push(handle.id),
                        ),
                    }
                },
                ValueView::Record { fields, .. } => if index >= fields.len() {
                    (out, Err(record_field_out_of_range()))
                } else if i + 1 >= steps.len() {
                    (out, Ok(()))
                } else {
                    passed_through(table, fields[index as int], steps, i + 1, out)
                },
                _ => (out, Ok(())),
            },
        }
    }
}

/// The field position one step names. A step into a variant's payload is
/// refused: a payload is only ever reached on its case's own edge.
pub fn projection_index(projection: &Projection) -> (r: Result<usize, InterpreterError>)
    ensures
        match r {
            Ok(index) => step_index(*projection) == Ok::<usize, ErrorView>(index),
            Err(e) => step_index(*projection) == Err::<usize, ErrorView>(e@),
        },
{
    match projection {
        Projection::Field { field, .. } => Ok(field.0 as usize),
        Projection::VariantField { .. } => Err(
            invalid(
                "a place projects through a variant field, which this milestone's runtime never produces",
            ),
        ),
    }
}

fn refuse_step(container: &Value) -> (r: InterpreterError)
    ensures
        r@ == no_fields(container@),
{
    match container {
        Value::Moved => invalid("use of a field after it was already moved"),
        Value::Dropped => invalid("use of a field after it was already dropped"),
        other => invalid_message(
            framed("a place projects through a non-aggregate value (", kind_name(other), ")"),
        ),
    }
}

pub(crate) fn refuse_store(container: &Value) -> (r: InterpreterError)
    ensures
        r@ == no_fields_to_store(container@),
{
    match container {
        Value::Moved => invalid("a place reinitializes through a field that was already moved"),
        Value::Dropped => invalid("a place reinitializes through a field that was already dropped"),
        other => invalid_message(
            framed("a place projects through a non-aggregate value (", kind_name(other), ")"),
        ),
    }
}

/// The conditions on the final field, the only ones that differ between
/// moving a value out of a place and writing one back into it.
pub fn validate_final_step(slot: &Value, intent: PathIntent, observed: bool, in_resource: bool) -> (r:
    Result<(), InterpreterError>)
    ensures
        checked(r) == final_step(slot@, intent, observed, in_resource),
{
    let tombstone = is_tombstone(slot);
    match intent {
        PathIntent::Take => {
            if observed {
                return Err(
                    invalid("cannot transfer a field through a merely-observing resource handle"),
                );
            }
            if tombstone {
                return Err(
                    if in_resource {
                        invalid("transfer of a resource field that was already moved or dropped")
                    } else {
                        invalid("transfer of a record field that was already moved or dropped")
                    },
                );
            }
            Ok(())
        },
        PathIntent::Store => {
            if observed {
                return Err(
                    invalid(
                        "cannot reinitialize a field through a merely-observing resource handle",
                    ),
                );
            }
            if !tombstone {
                return Err(
                    if in_resource {
                        invalid("cannot overwrite a resource field that still owns a live value")
                    } else {
                        invalid("cannot overwrite a record field that still owns a live value")
                    },
                );
            }
            Ok(())
        },
    }
}

impl<'a> Interpreter<'a> {
    fn observe_projections_from(
        &self,
        container: &Value,
        projections: &[Projection],
        i: usize,
    ) -> (r: Result<Value, InterpreterError>)
        requires
            i <= projections@.len(),
        ensures
            evaluated(r) == observed_at(self@.table, container@, projections@, i as nat),
        decreases projections@.len() - i,
    {
        if i >= projections.len() {
            return Ok(copy_value(container));
        }
        let index: usize = match projection_index(&projections[i]) {
            Err(e) => {
                return Err(e);
            },
            Ok(index) => index,
        };
        match container {
            Value::Resource(handle) => match self.resources.observe_field(*handle, index) {
                Err(e) => Err(e),
                Ok(inner) => self.observe_projections_from(&inner, projections, i + 1),
            },
            Value::Record { fields, .. } => {
                assert(value_views(fields@).len() == fields@.len());
                if index >= fields.len() {
                    return Err(
                        invalid("a place projects a field index out of range for this record"),
                    );
                }
                self.observe_projections_from(&fields[index], projections, i + 1)
            },
            other => Err(refuse_step(other)),
        }
    }

    /// Reads the value at the end of `projections` without changing
    /// anything at any depth.
    pub fn observe_projections(&self, container: &Value, projections: &[Projection]) -> (r: Result<
        Value,
        InterpreterError,
    >)
        ensures
            evaluated(r) == observed_at(self@.table, container@, projections@, 0),
    {
        self.observe_projections_from(container, projections, 0)
    }

    fn validate_place_path_from(
        &self,
        container: &Value,
        projections: &[Projection],
        i: usize,
        intent: PathIntent,
        observed: bool,
        depth: usize,
    ) -> (r: Result<(), InterpreterError>)
        requires
            i <= projections@.len(),
        ensures
            checked(r) == path_check(
                self@.table,
                container@,
                projections@,
                i as nat,
                intent,
                observed,
                depth as nat,
            ),
        decreases projections@.len() - i,
    {
        if depth >= MAX_GENERIC_DEPTH {
            return Err(invalid("a place projects more deeply than this milestone supports"));
        }
        if i >= projections.len() {
            return Ok(());
        }
        let index: usize = match projection_index(&projections[i]) {
            Err(e) => {
                return Err(e);
            },
            Ok(index) => index,
        };
        match container {
            Value::Resource(handle) => {
                let record = match self.resources.observe(*handle) {
                    Err(e) => {
                        return Err(e);
                    },
                    Ok(record) => record,
                };
                if index >= record.fields.len() {
                    return Err(
                        invalid("a place projects a field index out of range for this resource"),
                    );
                }
                let inner = &record.fields[index];
                let crossed = observed || handle.role != RuntimeOwnershipRole::Owner;
                if i + 1 >= projections.len() {
                    validate_final_step(inner, intent, crossed, true)
                } else {
                    self.validate_place_path_from(
                        inner,
                        projections,
                        i + 1,
                        intent,
                        crossed,
                        depth + 1,
                    )
                }
            },
            Value::Record { fields, .. } => {
                assert(value_views(fields@).len() == fields@.len());
                if index >= fields.len() {
                    return Err(
                        invalid("a place projects a field index out of range for this record"),
                    );
                }
                let inner = &fields[index];
                if i + 1 >= projections.len() {
                    validate_final_step(inner, intent, observed, false)
                } else {
                    self.validate_place_path_from(
                        inner,
                        projections,
                        i + 1,
                        intent,
                        observed,
                        depth + 1,
                    )
                }
            },
            other => Err(refuse_step(other)),
        }
    }

    /// Validates a complete walk before any of it is applied. `observed`
    /// says that the walk has already crossed an observer, below which
    /// nothing may be owned.
    pub fn validate_place_path(
        &self,
        container: &Value,
        projections: &[Projection],
        intent: PathIntent,
        observed: bool,
        depth: usize,
    ) -> (r: Result<(), InterpreterError>)
        ensures
            checked(r) == path_check(
                self@.table,
                container@,
                projections@,
                0,
                intent,
                observed,
                depth as nat,
            ),
    {
        self.validate_place_path_from(container, projections, 0, intent, observed, depth)
    }

    fn commit_take_from(&mut self, container: &Value, projections: &[Projection], i: usize) -> (r:
        Result<AccessResult, InterpreterError>)
        requires
            i <= projections@.len(),
        ensures
            ({
                let (table, outcome) = taken(
                    old(self)@.table,
                    container@,
                    projections@,
                    i as nat,
                );
                &&& final(self)@.table == table
                &&& match r {
                    Ok(access) => outcome == Ok::<(ValueView, ValueView), ErrorView>(
                        (access.extracted@, access.container@),
                    ),
                    Err(e) => outcome == Err::<(ValueView, ValueView), ErrorView>(e@),
                }
            }),
            final(self)@.events == old(self)@.events,
            final(self).module == old(self).module,
            final(self).call_depth == old(self).call_depth,
        decreases projections@.len() - i,
    {
        if i >= projections.len() {
            return Ok(
                AccessResult { extracted: copy_value(container), container: copy_value(container) },
            );
        }
        let index: usize = match projection_index(&projections[i]) {
            Err(e) => {
                return Err(e);
            },
            Ok(index) => index,
        };
        match container {
            Value::Resource(handle) => {
                if i + 1 >= projections.len() {
                    let extracted = match self.resources.take_field(*handle, index) {
                        Err(e) => {
                            return Err(e);
                        },
                        Ok(extracted) => extracted,
                    };
                    if is_tombstone(&extracted) {
                        match self.resources.restore_field(*handle, index, extracted) {
                            Err(e) => {
                                return Err(e);
                            },
                            Ok(_) => {},
                        }
                        return Err(
                            invalid(
                                "transfer of a resource field that was already moved or dropped",
                            ),
                        );
                    }
                    Ok(AccessResult { extracted, container: Value::Resource(*handle) })
                } else {
                    let inner = match self.resources.observe_field(*handle, index) {
                        Err(e) => {
                            return Err(e);
                        },
                        Ok(inner) => inner,
                    };
                    let access = match self.commit_take_from(&inner, projections, i + 1) {
                        Err(e) => {
                            return Err(e);
                        },
                        Ok(access) => access,
                    };
                    match self.resources.restore_field(*handle, index, access.container) {
                        Err(e) => Err(e),
                        Ok(_) => Ok(
                            AccessResult {
                                extracted: access.extracted,
                                container: Value::Resource(*handle),
                            },
                        ),
                    }
                }
            },
            Value::Record { item, type_args, fields } => {
                assert(value_views(fields@).len() == fields@.len());
                if index >= fields.len() {
                    return Err(
                        invalid("a place projects a field index out of range for this record"),
                    );
                }
                if i + 1 >= projections.len() {
                    if is_tombstone(&fields[index]) {
                        return Err(
                            invalid("transfer of a record field that was already moved or dropped"),
                        );
                    }
                    let extracted = copy_value(&fields[index]);
                    let mut rest = copy_values(fields);
                    assert(value_views(rest@).len() == rest@.len());
                    rest.set(index, Value::Moved);
                    assert(value_views(rest@) == value_views(fields@).update(
                        index as int,
                        ValueView::Moved,
                    ));
                    Ok(
                        AccessResult {
                            extracted,
                            container: Value::Record {
                                item: *item,
                                type_args: copy_types(type_args),
                                fields: rest,
                            },
                        },
                    )
                } else {
                    let access = match self.commit_take_from(
                        &fields[index],
                        projections,
                        i + 1,
                    ) {
                        Err(e) => {
                            return Err(e);
                        },
                        Ok(access) => access,
                    };
                    let mut rest = copy_values(fields);
                    assert(value_views(rest@).len() == rest@.len());
                    rest.set(index, access.container);
                    assert(value_views(rest@) == value_views(fields@).update(
                        index as int,
                        access.container@,
                    ));
                    Ok(
                        AccessResult {
                            extracted: access.extracted,
                            container: Value::Record {
                                item: *item,
                                type_args: copy_types(type_args),
                                fields: rest,
                            },
                        },
                    )
                }
            },
            other => Err(refuse_step(other)),
        }
    }

    /// Removes the value at the end of `projections`, leaving a
    /// tombstone in that one field, and returns the container for its
    /// holder to write back. A refusal changes nothing.
    pub fn take_projections(&mut self, container: &Value, projections: &[Projection]) -> (r: Result<
        AccessResult,
        InterpreterError,
    >)
        ensures
            match r {
                Ok(access) => taking(old(self)@.table, container@, projections@) == Ok::<
                    (TableView, ValueView, ValueView),
                    ErrorView,
                >((final(self)@.table, access.extracted@, access.container@)),
                Err(e) => taking(old(self)@.table, container@, projections@) == Err::<
                    (TableView, ValueView, ValueView),
                    ErrorView,
                >(e@) && final(self)@.table == old(self)@.table,
            },
            final(self)@.events == old(self)@.events,
            final(self).module == old(self).module,
            final(self).call_depth == old(self).call_depth,
    {
        match self.validate_place_path(container, projections, PathIntent::Take, false, 0) {
            Err(e) => {
                return Err(e);
            },
            Ok(_) => {},
        }
        proof {
            lemma_checked_path_is_taken(self@.table, container@, projections@, 0, 0);
        }
        self.commit_take_projections(container, projections)
    }

    /// The committing half of [`Self::take_projections`], for a path that
    /// was checked.
    pub fn commit_take_projections(&mut self, container: &Value, projections: &[Projection]) -> (r:
        Result<AccessResult, InterpreterError>)
        ensures
            ({
                let (table, outcome) = taken(old(self)@.table, container@, projections@, 0);
                &&& final(self)@.table == table
                &&& match r {
                    Ok(access) => outcome == Ok::<(ValueView, ValueView), ErrorView>(
                        (access.extracted@, access.container@),
                    ),
                    Err(e) => outcome == Err::<(ValueView, ValueView), ErrorView>(e@),
                }
            }),
            final(self)@.events == old(self)@.events,
            final(self).module == old(self).module,
            final(self).call_depth == old(self).call_depth,
    {
        self.commit_take_from(container, projections, 0)
    }

    fn commit_store_from(
        &mut self,
        container: &Value,
        projections: &[Projection],
        i: usize,
        value: Value,
    ) -> (r: Result<Value, InterpreterError>)
        requires
            i <= projections@.len(),
        ensures
            (final(self)@.table, evaluated(r)) == stored(
                old(self)@.table,
                container@,
                projections@,
                i as nat,
                value@,
            ),
            final(self)@.events == old(self)@.events,
            final(self).module == old(self).module,
            final(self).call_depth == old(self).call_depth,
        decreases projections@.len() - i,
    {
        if i >= projections.len() {
            return Ok(value);
        }
        let index: usize = match projection_index(&projections[i]) {
            Err(e) => {
                return Err(e);
            },
            Ok(index) => index,
        };
        match container {
            Value::Resource(handle) => {
                if i + 1 >= projections.len() {
                    match self.resources.set_field(*handle, index, value) {
                        Err(e) => {
                            return Err(e);
                        },
                        Ok(_) => {},
                    }
                } else {
                    let inner = match self.resources.observe_field(*handle, index) {
                        Err(e) => {
                            return Err(e);
                        },
                        Ok(inner) => inner,
                    };
                    let updated = match self.commit_store_from(
                        &inner,
                        projections,
                        i + 1,
                        value,
                    ) {
                        Err(e) => {
                            return Err(e);
                        },
                        Ok(updated) => updated,
                    };
                    match self.resources.restore_field(*handle, index, updated) {
                        Err(e) => {
                            return Err(e);
                        },
                        Ok(_) => {},
                    }
                }
                Ok(Value::Resource(*handle))
            },
            Value::Record { item, type_args, fields } => {
                assert(value_views(fields@).len() == fields@.len());
                if index >= fields.len() {
                    return Err(
                        invalid("a place projects a field index out of range for this record"),
                    );
                }
                let updated = if i + 1 >= projections.len() {
                    if !is_tombstone(&fields[index]) {
                        return Err(
                            invalid("cannot overwrite a record field that still owns a live value"),
                        );
                    }
                    value
                } else {
                    match self.commit_store_from(&fields[index], projections, i + 1, value) {
                        Err(e) => {
                            return Err(e);
                        },
                        Ok(updated) => updated,
                    }
                };
                let mut rest = copy_values(fields);
                assert(value_views(rest@).len() == rest@.len());
                rest.set(index, updated);
                assert(value_views(rest@) == value_views(fields@).update(
                    index as int,
                    updated@,
                ));
                Ok(
                    Value::Record {
                        item: *item,
                        type_args: copy_types(type_args),
                        fields: rest,
                    },
                )
            },
            other => Err(refuse_store(other)),
        }
    }

    /// Puts `value` into the tombstone at the end of `projections`, and
    /// returns the container for its holder to write back. A refusal
    /// changes nothing.
    pub fn store_projections(
        &mut self,
        container: &Value,
        projections: &[Projection],
        value: Value,
    ) -> (r: Result<Value, InterpreterError>)
        ensures
            match r {
                Ok(rest) => storing(old(self)@.table, container@, projections@, value@) == Ok::<
                    (TableView, ValueView),
                    ErrorView,
                >((final(self)@.table, rest@)),
                Err(e) => storing(old(self)@.table, container@, projections@, value@) == Err::<
                    (TableView, ValueView),
                    ErrorView,
                >(e@) && final(self)@.table == old(self)@.table,
            },
            same_shape(old(self)@.table, final(self)@.table),
            final(self)@.events == old(self)@.events,
            final(self).module == old(self).module,
            final(self).call_depth == old(self).call_depth,
    {
        match self.validate_place_path(container, projections, PathIntent::Store, false, 0) {
            Err(e) => {
                return Err(e);
            },
            Ok(_) => {},
        }
        proof {
            lemma_checked_path_is_stored(self@.table, container@, projections@, 0, 0, value@);
            lemma_stored_keeps_shape(self@.table, container@, projections@, 0, value@);
        }
        self.commit_store_projections(container, projections, value)
    }

    /// The committing half of [`Self::store_projections`], for a path
    /// that was checked.
    pub fn commit_store_projections(
        &mut self,
        container: &Value,
        projections: &[Projection],
        value: Value,
    ) -> (r: Result<Value, InterpreterError>)
        ensures
            (final(self)@.table, evaluated(r)) == stored(
                old(self)@.table,
                container@,
                projections@,
                0,
                value@,
            ),
            final(self)@.events == old(self)@.events,
            final(self).module == old(self).module,
            final(self).call_depth == old(self).call_depth,
    {
        self.commit_store_from(container, projections, 0, value)
    }

    fn validate_store_target_from(&self, container: &Value, projections: &[Projection], i: usize) -> (r:
        Result<(), InterpreterError>)
        requires
            i <= projections@.len(),
        ensures
            checked(r) == store_target(self@.table, container@, projections@, i as nat),
        decreases projections@.len() - i,
    {
        if i >= projections.len() {
            return Err(invalid("a structural store names no field to reinitialize"));
        }
        let index: usize = match projection_index(&projections[i]) {
            Err(e) => {
                return Err(e);
            },
            Ok(index) => index,
        };
        match container {
            Value::Resource(handle) => {
                if handle.role != RuntimeOwnershipRole::Owner {
                    return Err(
                        invalid(
                            "cannot reinitialize a field through a merely-observing resource handle",
                        ),
                    );
                }
                let inner = match self.resources.observe_field(*handle, index) {
                    Err(e) => {
                        return Err(e);
                    },
                    Ok(inner) => inner,
                };
                if i + 1 < projections.len() {
                    return self.validate_store_target_from(&inner, projections, i + 1);
                }
                if is_tombstone(&inner) {
                    Ok(())
                } else {
                    Err(invalid("cannot overwrite a resource field that still owns a live value"))
                }
            },
            Value::Record { fields, .. } => {
                assert(value_views(fields@).len() == fields@.len());
                if index >= fields.len() {
                    return Err(
                        invalid("a place projects a field index out of range for this record"),
                    );
                }
                if i + 1 < projections.len() {
                    return self.validate_store_target_from(&fields[index], projections, i + 1);
                }
                if is_tombstone(&fields[index]) {
                    Ok(())
                } else {
                    Err(invalid("cannot overwrite a record field that still owns a live value"))
                }
            },
            other => Err(refuse_store(other)),
        }
    }

    /// Proves that `projections` reaches a field that may be
    /// reinitialized, without changing anything: every container on the
    /// way must be live, and the final field a tombstone.
    pub fn validate_store_target(&self, container: &Value, projections: &[Projection]) -> (r: Result<
        (),
        InterpreterError,
    >)
        ensures
            checked(r) == store_target(self@.table, container@, projections@, 0),
    {
        self.validate_store_target_from(container, projections, 0)
    }

    fn destination_identities_from(
        &self,
        container: &Value,
        projections: &[Projection],
        i: usize,
        out: &mut Vec<ResourceId>,
    ) -> (r: Result<(), InterpreterError>)
        requires
            i <= projections@.len(),
        ensures
            (final(out)@, checked(r)) == passed_through(
                self@.table,
                container@,
                projections@,
                i as nat,
                old(out)@,
            ),
        decreases projections@.len() - i,
    {
        if i >= projections.len() {
            return Ok(());
        }
        let index: usize = match projection_index(&projections[i]) {
            Err(e) => {
                return Err(e);
            },
            Ok(index) => index,
        };
        match container {
            Value::Resource(handle) => {
                out.push(handle.id);
                if i + 1 >= projections.len() {
                    return Ok(());
                }
                match self.resources.observe_field(*handle, index) {
                    Err(e) => Err(e),
                    Ok(inner) => self.destination_identities_from(&inner, projections, i + 1, out),
                }
            },
            Value::Record { fields, .. } => {
                assert(value_views(fields@).len() == fields@.len());
                if index >= fields.len() {
                    return Err(
                        invalid("a place projects a field index out of range for this record"),
                    );
                }
                if i + 1 >= projections.len() {
                    return Ok(());
                }
                self.destination_identities_from(&fields[index], projections, i + 1, out)
            },
            _ => Ok(()),
        }
    }

    /// Every resource a store has to reach through: the root when it is
    /// a resource, and each one the steps pass through, in that order.
    pub fn destination_identities(
        &self,
        container: &Value,
        projections: &[Projection],
        out: &mut Vec<ResourceId>,
    ) -> (r: Result<(), InterpreterError>)
        ensures
            (final(out)@, checked(r)) == passed_through(
                self@.table,
                container@,
                projections@,
                0,
                old(out)@,
            ),
    {
        self.destination_identities_from(container, projections, 0, out)
    }
}

} // verus!
