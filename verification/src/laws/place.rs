use crate::place::{
    lemma_crossed_path_refused, observed_at, path_check, same_shape, step_index, stored, storing,
    taken, taking, PathIntent,
};
use crate::program::{Projection, MAX_GENERIC_DEPTH};
use crate::table::{RecordView, TableView};
use crate::value::{ErrorView, ValueView};
use crate::value_ops::tombstone;
use vstd::prelude::*;

verus! {

/// What one step from `container` reaches.
pub open spec fn part(table: TableView, container: ValueView, step: Projection) -> ValueView {
    let index = step_index(step)->Ok_0 as int;
    match container {
        ValueView::Resource(handle) => table.records[handle.id.0 as int].fields[index],
        ValueView::Record { fields, .. } => fields[index],
        other => other,
    }
}

/// Whether one step from `container` can be taken by an owner.
pub open spec fn steppable(table: TableView, container: ValueView, step: Projection) -> bool {
    step_index(step) matches Ok(index) && match container {
        ValueView::Resource(handle) => {
            &&& handle.role is Owner
            &&& table.observe(handle) matches Ok(record) && index < record.fields.len()
        },
        ValueView::Record { fields, .. } => index < fields.len(),
        _ => false,
    }
}

/// Whether an owner can walk the steps from position `i` on.
pub open spec fn walkable(
    table: TableView,
    container: ValueView,
    steps: Seq<Projection>,
    i: nat,
) -> bool
    decreases steps.len() - i,
{
    i < steps.len() ==> steppable(table, container, steps[i as int]) && walkable(
        table,
        part(table, container, steps[i as int]),
        steps,
        i + 1,
    )
}

/// What stands at the end of the steps from position `i` on.
pub open spec fn found(
    table: TableView,
    container: ValueView,
    steps: Seq<Projection>,
    i: nat,
) -> ValueView
    decreases steps.len() - i,
{
    if i >= steps.len() {
        container
    } else {
        found(table, part(table, container, steps[i as int]), steps, i + 1)
    }
}

/// Whether the steps from position `i` on lead through the field at
/// `index` of the resource numbered `id`.
pub open spec fn leads_through(
    table: TableView,
    container: ValueView,
    steps: Seq<Projection>,
    i: nat,
    id: int,
    index: int,
) -> bool
    decreases steps.len() - i,
{
    i < steps.len() && (steps_into(container, steps[i as int], id, index) || leads_through(
        table,
        part(table, container, steps[i as int]),
        steps,
        i + 1,
        id,
        index,
    ))
}

/// Whether one step from `container` is into the field at `index` of the
/// resource numbered `id`.
pub open spec fn steps_into(container: ValueView, step: Projection, id: int, index: int) -> bool {
    &&& container matches ValueView::Resource(handle) && handle.id.0 == id
    &&& step_index(step)->Ok_0 == index
}

/// Whether the steps from position `i` on lead through no field of a
/// resource twice.
pub open spec fn straight(
    table: TableView,
    container: ValueView,
    steps: Seq<Projection>,
    i: nat,
) -> bool
    decreases steps.len() - i,
{
    i < steps.len() ==> {
        let inner = part(table, container, steps[i as int]);
        &&& container matches ValueView::Resource(handle) ==> !leads_through(
            table,
            inner,
            steps,
            i + 1,
            handle.id.0 as int,
            step_index(steps[i as int])->Ok_0 as int,
        )
        &&& straight(table, inner, steps, i + 1)
    }
}

/// The table and the container with `value` at the end of the steps from
/// position `i` on.
pub open spec fn replaced(
    table: TableView,
    container: ValueView,
    steps: Seq<Projection>,
    i: nat,
    value: ValueView,
) -> (TableView, ValueView)
    decreases steps.len() - i,
{
    if i >= steps.len() {
        (table, value)
    } else {
        let index = step_index(steps[i as int])->Ok_0;
        let (table1, inner) = replaced(
            table,
            part(table, container, steps[i as int]),
            steps,
            i + 1,
            value,
        );
        match container {
            ValueView::Resource(handle) => (table1.with_field(handle.id, index, inner), container),
            ValueView::Record { item, type_args, fields } => (
                table1,
                ValueView::Record { item, type_args, fields: fields.update(index as int, inner) },
            ),
            other => (table1, other),
        }
    }
}

/// Whether two records are of one resource in one condition, and hold
/// the same at `index`.
pub open spec fn agree_at(record: RecordView, other: RecordView, index: int) -> bool {
    &&& other.generation == record.generation
    &&& other.status == record.status
    &&& other.fields.len() == record.fields.len()
    &&& other.fields[index] == record.fields[index]
}

/// Whether two tables agree on every field the steps lead through.
pub open spec fn agree_along(
    table: TableView,
    other: TableView,
    container: ValueView,
    steps: Seq<Projection>,
    i: nat,
) -> bool {
    &&& other.leases == table.leases
    &&& other.records.len() == table.records.len()
    &&& forall|id: int, index: int| #[trigger]
        leads_through(table, container, steps, i, id, index) ==> agree_at(
            table.records[id],
            other.records[id],
            index,
        )
}

/// A walk leads through known resources only, and through fields they
/// have.
pub proof fn path_is_known(
    table: TableView,
    container: ValueView,
    steps: Seq<Projection>,
    i: nat,
    id: int,
    index: int,
)
    requires
        walkable(table, container, steps, i),
        leads_through(table, container, steps, i, id, index),
    ensures
        0 <= id < table.records.len(),
        0 <= index < table.records[id].fields.len(),
    decreases steps.len() - i,
{
    let inner = part(table, container, steps[i as int]);
    if leads_through(table, inner, steps, i + 1, id, index) {
        path_is_known(table, inner, steps, i + 1, id, index);
    }
}

/// Only the fields a walk leads through matter to it.
pub proof fn walk_depends_on_its_path(
    table: TableView,
    other: TableView,
    container: ValueView,
    steps: Seq<Projection>,
    i: nat,
    value: ValueView,
)
    requires
        walkable(table, container, steps, i),
        straight(table, container, steps, i),
        agree_along(table, other, container, steps, i),
    ensures
        walkable(other, container, steps, i),
        straight(other, container, steps, i),
        found(other, container, steps, i) == found(table, container, steps, i),
        forall|id: int, index: int| #[trigger]
            leads_through(other, container, steps, i, id, index) == leads_through(
                table,
                container,
                steps,
                i,
                id,
                index,
            ),
        replaced(other, container, steps, i, value).1 == replaced(
            table,
            container,
            steps,
            i,
            value,
        ).1,
        forall|id: int, index: int| #[trigger]
            leads_through(table, container, steps, i, id, index) ==> replaced(
                other,
                container,
                steps,
                i,
                value,
            ).0.records[id].fields[index] == replaced(
                table,
                container,
                steps,
                i,
                value,
            ).0.records[id].fields[index],
    decreases steps.len() - i,
{
    if i < steps.len() {
        let step = steps[i as int];
        let inner = part(table, container, step);
        let here = step_index(step)->Ok_0 as int;
        if let ValueView::Resource(handle) = container {
            assert(steps_into(container, step, handle.id.0 as int, here));
            assert(leads_through(table, container, steps, i, handle.id.0 as int, here));
        }
        assert(part(other, container, step) == inner);
        assert(agree_along(table, other, inner, steps, i + 1)) by {
            assert forall|id: int, index: int| #[trigger]
                leads_through(table, inner, steps, i + 1, id, index) implies agree_at(
                table.records[id],
                other.records[id],
                index,
            ) by {
                assert(leads_through(table, container, steps, i, id, index));
            }
        }
        walk_depends_on_its_path(table, other, inner, steps, i + 1, value);
        replacing_keeps_the_rest(table, inner, steps, i + 1, value);
        replacing_keeps_the_rest(other, inner, steps, i + 1, value);
        assert forall|id: int, index: int| #[trigger]
            leads_through(other, container, steps, i, id, index) == leads_through(
                table,
                container,
                steps,
                i,
                id,
                index,
            ) by {
            assert(leads_through(other, inner, steps, i + 1, id, index) == leads_through(
                table,
                inner,
                steps,
                i + 1,
                id,
                index,
            ));
        }
        if let ValueView::Resource(handle) = container {
            assert(!leads_through(table, inner, steps, i + 1, handle.id.0 as int, here));
            assert(!leads_through(other, inner, steps, i + 1, handle.id.0 as int, here));
        }
        assert forall|id: int, index: int| #[trigger]
            leads_through(table, container, steps, i, id, index) implies replaced(
            other,
            container,
            steps,
            i,
            value,
        ).0.records[id].fields[index] == replaced(
            table,
            container,
            steps,
            i,
            value,
        ).0.records[id].fields[index] by {
            path_is_known(table, container, steps, i, id, index);
            if !steps_into(container, step, id, index) {
                assert(leads_through(table, inner, steps, i + 1, id, index));
            }
        }
    }
}

/// Replacing what stands at the end of a walk keeps every field the walk
/// does not lead through.
pub proof fn replacing_keeps_the_rest(
    table: TableView,
    container: ValueView,
    steps: Seq<Projection>,
    i: nat,
    value: ValueView,
)
    requires
        walkable(table, container, steps, i),
    ensures
        same_shape(table, replaced(table, container, steps, i, value).0),
        forall|id: int, index: int|
            0 <= id < table.records.len() && 0 <= index < table.records[id].fields.len()
                && !leads_through(table, container, steps, i, id, index) ==> #[trigger] replaced(
                table,
                container,
                steps,
                i,
                value,
            ).0.records[id].fields[index] == table.records[id].fields[index],
    decreases steps.len() - i,
{
    if i < steps.len() {
        let inner = part(table, container, steps[i as int]);
        replacing_keeps_the_rest(table, inner, steps, i + 1, value);
        let table1 = replaced(table, inner, steps, i + 1, value).0;
        let table2 = replaced(table, container, steps, i, value).0;
        assert forall|id: int| 0 <= id < table.records.len() implies (
        #[trigger] table.records[id]).item == table2.records[id].item
            && table.records[id].generation == table2.records[id].generation
            && table.records[id].status == table2.records[id].status
            && table.records[id].fields.len() == table2.records[id].fields.len() by {
            assert(table.records[id].item == table1.records[id].item);
        }
        assert forall|id: int, index: int|
            0 <= id < table.records.len() && 0 <= index < table.records[id].fields.len()
                && !leads_through(
                table,
                container,
                steps,
                i,
                id,
                index,
            ) implies #[trigger] table2.records[id].fields[index]
            == table.records[id].fields[index] by {
            assert(!steps_into(container, steps[i as int], id, index));
            assert(!leads_through(table, inner, steps, i + 1, id, index));
            assert(table1.records[id].fields[index] == table.records[id].fields[index]);
        }
    }
}

/// After a replacement the same walk leads to the new value, through the
/// same fields.
pub proof fn replacing_keeps_the_walk(
    table: TableView,
    container: ValueView,
    steps: Seq<Projection>,
    i: nat,
    value: ValueView,
)
    requires
        walkable(table, container, steps, i),
        straight(table, container, steps, i),
    ensures
        ({
            let (table1, container1) = replaced(table, container, steps, i, value);
            &&& walkable(table1, container1, steps, i)
            &&& straight(table1, container1, steps, i)
            &&& found(table1, container1, steps, i) == value
            &&& forall|id: int, index: int| #[trigger]
                leads_through(table1, container1, steps, i, id, index) == leads_through(
                    table,
                    container,
                    steps,
                    i,
                    id,
                    index,
                )
        }),
    decreases steps.len() - i,
{
    if i < steps.len() {
        let step = steps[i as int];
        let here = step_index(step)->Ok_0 as int;
        let inner = part(table, container, step);
        let (table1, inner1) = replaced(table, inner, steps, i + 1, value);
        let (table2, container2) = replaced(table, container, steps, i, value);
        replacing_keeps_the_walk(table, inner, steps, i + 1, value);
        replacing_keeps_the_rest(table, inner, steps, i + 1, value);
        replacing_keeps_the_rest(table, container, steps, i, value);
        if let ValueView::Resource(handle) = container {
            assert(table.records[handle.id.0 as int].generation
                == table2.records[handle.id.0 as int].generation);
        }
        assert(part(table2, container2, step) == inner1);
        field_is_off_the_path(table, container, steps, i, table1, inner1);
        assert(agree_along(table1, table2, inner1, steps, i + 1)) by {
            assert forall|id: int, index: int| #[trigger]
                leads_through(table1, inner1, steps, i + 1, id, index) implies agree_at(
                table1.records[id],
                table2.records[id],
                index,
            ) by {
                assert(leads_through(table, inner, steps, i + 1, id, index));
                path_is_known(table, inner, steps, i + 1, id, index);
                assert(table.records[id].item == table1.records[id].item);
                assert(!steps_into(container, step, id, index));
            }
        }
        walk_depends_on_its_path(table1, table2, inner1, steps, i + 1, value);
        assert forall|id: int, index: int| #[trigger]
            leads_through(table2, container2, steps, i, id, index) == leads_through(
                table,
                container,
                steps,
                i,
                id,
                index,
            ) by {
            assert(leads_through(table2, inner1, steps, i + 1, id, index) == leads_through(
                table1,
                inner1,
                steps,
                i + 1,
                id,
                index,
            ));
            assert(leads_through(table1, inner1, steps, i + 1, id, index) == leads_through(
                table,
                inner,
                steps,
                i + 1,
                id,
                index,
            ));
        }
        if let ValueView::Resource(handle) = container {
            assert(!leads_through(table2, inner1, steps, i + 1, handle.id.0 as int, here));
        }
    }
}

/// The field a straight walk steps into first it does not lead through
/// again, nor does the walk behind it.
proof fn field_is_off_the_path(
    table: TableView,
    container: ValueView,
    steps: Seq<Projection>,
    i: nat,
    table1: TableView,
    inner1: ValueView,
)
    requires
        i < steps.len(),
        straight(table, container, steps, i),
        forall|id: int, index: int| #[trigger]
            leads_through(table1, inner1, steps, i + 1, id, index) == leads_through(
                table,
                part(table, container, steps[i as int]),
                steps,
                i + 1,
                id,
                index,
            ),
    ensures
        forall|id: int, index: int| #[trigger]
            steps_into(container, steps[i as int], id, index) ==> !leads_through(
                table,
                part(table, container, steps[i as int]),
                steps,
                i + 1,
                id,
                index,
            ) && !leads_through(table1, inner1, steps, i + 1, id, index),
{
}

/// A second replacement leaves nothing of the first.
proof fn replacing_twice(
    table: TableView,
    container: ValueView,
    steps: Seq<Projection>,
    i: nat,
    first: ValueView,
    second: ValueView,
)
    requires
        walkable(table, container, steps, i),
        straight(table, container, steps, i),
    ensures
        ({
            let (table1, container1) = replaced(table, container, steps, i, first);
            let (table2, container2) = replaced(table1, container1, steps, i, second);
            let (table3, container3) = replaced(table, container, steps, i, second);
            &&& container2 == container3
            &&& table2.leases == table3.leases
            &&& table2.records =~= table3.records
        }),
    decreases steps.len() - i,
{
    if i < steps.len() {
        let step = steps[i as int];
        let inner = part(table, container, step);
        let (below, inner1) = replaced(table, inner, steps, i + 1, first);
        let (table1, container1) = replaced(table, container, steps, i, first);
        let (table2, container2) = replaced(table1, container1, steps, i, second);
        let (table3, container3) = replaced(table, container, steps, i, second);
        let (below2, inner2) = replaced(below, inner1, steps, i + 1, second);
        let (below3, inner3) = replaced(table, inner, steps, i + 1, second);
        replacing_twice(table, inner, steps, i + 1, first, second);
        replacing_keeps_the_walk(table, inner, steps, i + 1, first);
        replacing_keeps_the_walk(table, container, steps, i, first);
        replacing_keeps_the_rest(table, inner, steps, i + 1, first);
        replacing_keeps_the_rest(table, container, steps, i, first);
        replacing_keeps_the_rest(table, container, steps, i, second);
        replacing_keeps_the_rest(table1, container1, steps, i, second);
        match container {
            ValueView::Resource(handle) => {
                assert(part(table1, container1, step) == inner1);
                field_is_off_the_path(table, container, steps, i, below, inner1);
                assert(agree_along(below, table1, inner1, steps, i + 1)) by {
                    assert forall|id: int, index: int| #[trigger]
                        leads_through(below, inner1, steps, i + 1, id, index) implies agree_at(
                        below.records[id],
                        table1.records[id],
                        index,
                    ) by {
                        assert(leads_through(table, inner, steps, i + 1, id, index));
                        path_is_known(table, inner, steps, i + 1, id, index);
                        assert(table.records[id].item == below.records[id].item);
                        assert(table.records[id].item == table1.records[id].item);
                        assert(!steps_into(container, step, id, index));
                    }
                }
                walk_depends_on_its_path(below, table1, inner1, steps, i + 1, second);
                let inside = replaced(table1, inner1, steps, i + 1, second).0;
                replacing_keeps_the_rest(table1, inner1, steps, i + 1, second);
                replacing_keeps_the_rest(below, inner1, steps, i + 1, second);
                assert forall|id: int| 0 <= id < table.records.len() implies #[trigger]
                    table2.records[id] == table3.records[id] by {
                    assert(table.records[id].item == table1.records[id].item);
                    assert(table1.records[id].item == table2.records[id].item);
                    assert(table.records[id].item == table3.records[id].item);
                    assert(table.records[id].item == below.records[id].item);
                    assert forall|index: int|
                        0 <= index < table.records[id].fields.len() implies #[trigger]
                    table2.records[id].fields[index] == table3.records[id].fields[index] by {
                        if steps_into(container, step, id, index) {
                            assert(table2.records[id].fields[index] == inner2);
                            assert(table3.records[id].fields[index] == inner3);
                        } else {
                            assert(table2.records[id].fields[index]
                                == inside.records[id].fields[index]);
                            assert(table3.records[id].fields[index]
                                == below3.records[id].fields[index]);
                            if leads_through(below, inner1, steps, i + 1, id, index) {
                                assert(inside.records[id].fields[index]
                                    == below2.records[id].fields[index]);
                            } else {
                                assert(inside.records[id].fields[index]
                                    == table1.records[id].fields[index]);
                                assert(table1.records[id].fields[index]
                                    == below.records[id].fields[index]);
                                assert(below2.records[id].fields[index]
                                    == below.records[id].fields[index]);
                            }
                        }
                    }
                    assert(table2.records[id].fields =~= table3.records[id].fields);
                }
            },
            ValueView::Record { fields, .. } => {
                let here = step_index(step)->Ok_0 as int;
                assert(part(table1, container1, step) == inner1);
                assert(fields.update(here, inner1).update(here, inner2) =~= fields.update(
                    here,
                    inner3,
                ));
            },
            _ => {},
        }
    }
}

/// Replacing a value by itself changes nothing.
proof fn replacing_by_itself(
    table: TableView,
    container: ValueView,
    steps: Seq<Projection>,
    i: nat,
)
    requires
        walkable(table, container, steps, i),
    ensures
        ({
            let (table1, container1) = replaced(
                table,
                container,
                steps,
                i,
                found(table, container, steps, i),
            );
            &&& container1 == container
            &&& table1.leases == table.leases
            &&& table1.records =~= table.records
        }),
    decreases steps.len() - i,
{
    if i < steps.len() {
        let index = step_index(steps[i as int])->Ok_0;
        let inner = part(table, container, steps[i as int]);
        replacing_by_itself(table, inner, steps, i + 1);
        match container {
            ValueView::Resource(handle) => {
                let record = table.records[handle.id.0 as int];
                assert(record.fields.update(index as int, inner) =~= record.fields);
            },
            ValueView::Record { fields, .. } => {
                assert(fields.update(index as int, inner) =~= fields);
            },
            _ => {},
        }
    }
}

/// A walk that was checked is one an owner can make, and its end is as
/// the purpose requires.
pub proof fn checked_walk(
    table: TableView,
    container: ValueView,
    steps: Seq<Projection>,
    i: nat,
    intent: PathIntent,
    depth: nat,
)
    ensures
        path_check(table, container, steps, i, intent, false, depth) is Ok ==> {
            &&& walkable(table, container, steps, i)
            &&& steps.len() - i + depth <= MAX_GENERIC_DEPTH || i >= steps.len()
            &&& i < steps.len() ==> (intent is Store <==> tombstone(
                found(table, container, steps, i),
            ))
        },
        i < steps.len() && walkable(table, container, steps, i) && steps.len() - i + depth
            <= MAX_GENERIC_DEPTH && (intent is Store <==> tombstone(
            found(table, container, steps, i),
        )) ==> path_check(table, container, steps, i, intent, false, depth) is Ok,
    decreases steps.len() - i,
{
    if i < steps.len() && depth < MAX_GENERIC_DEPTH && step_index(steps[i as int]) is Ok {
        let inner = part(table, container, steps[i as int]);
        let index = step_index(steps[i as int])->Ok_0;
        checked_walk(table, inner, steps, i + 1, intent, depth + 1);
        if i + 1 < steps.len() {
            lemma_crossed_path_refused(table, inner, steps, i + 1, intent, depth + 1);
        } else {
            assert(found(table, inner, steps, i + 1) == inner);
            assert(walkable(table, inner, steps, i + 1));
        }
        if container is Resource {
            if table.observe(container->Resource_0) is Ok {
                let record = table.observe(container->Resource_0)->Ok_0;
                assert(record == table.records[container->Resource_0.id.0 as int]);
            }
        }
    }
}

/// What an owner finds at a place is what observing it gives.
pub proof fn observing_finds(
    table: TableView,
    container: ValueView,
    steps: Seq<Projection>,
    i: nat,
)
    requires
        walkable(table, container, steps, i),
    ensures
        observed_at(table, container, steps, i) == Ok::<ValueView, ErrorView>(
            found(table, container, steps, i),
        ),
    decreases steps.len() - i,
{
    if i < steps.len() {
        observing_finds(table, part(table, container, steps[i as int]), steps, i + 1);
    }
}

/// Taking is finding what stands there and replacing it by a tombstone.
proof fn taking_replaces(table: TableView, container: ValueView, steps: Seq<Projection>, i: nat)
    requires
        i < steps.len(),
        walkable(table, container, steps, i),
        !tombstone(found(table, container, steps, i)),
    ensures
        taken(table, container, steps, i).0 == replaced(
            table,
            container,
            steps,
            i,
            ValueView::Moved,
        ).0,
        taken(table, container, steps, i).1 == Ok::<(ValueView, ValueView), ErrorView>(
            (
                found(table, container, steps, i),
                replaced(table, container, steps, i, ValueView::Moved).1,
            ),
        ),
    decreases steps.len() - i,
{
    let inner = part(table, container, steps[i as int]);
    if i + 1 < steps.len() {
        taking_replaces(table, inner, steps, i + 1);
        replacing_keeps_the_rest(table, inner, steps, i + 1, ValueView::Moved);
    } else {
        assert(found(table, inner, steps, i + 1) == inner);
        assert(replaced(table, inner, steps, i + 1, ValueView::Moved) == (table, ValueView::Moved));
    }
}

/// Storing is replacing what stands there.
pub proof fn storing_replaces(
    table: TableView,
    container: ValueView,
    steps: Seq<Projection>,
    i: nat,
    value: ValueView,
)
    requires
        i < steps.len(),
        walkable(table, container, steps, i),
        tombstone(found(table, container, steps, i)),
    ensures
        stored(table, container, steps, i, value).0 == replaced(
            table,
            container,
            steps,
            i,
            value,
        ).0,
        stored(table, container, steps, i, value).1 == Ok::<ValueView, ErrorView>(
            replaced(table, container, steps, i, value).1,
        ),
    decreases steps.len() - i,
{
    let inner = part(table, container, steps[i as int]);
    if i + 1 < steps.len() {
        storing_replaces(table, inner, steps, i + 1, value);
        replacing_keeps_the_rest(table, inner, steps, i + 1, value);
    } else {
        assert(found(table, inner, steps, i + 1) == inner);
        assert(replaced(table, inner, steps, i + 1, value) == (table, value));
    }
}

/// What is taken out of a place is what was observed there.
pub proof fn taken_is_what_was_observed(
    table: TableView,
    container: ValueView,
    steps: Seq<Projection>,
    table1: TableView,
    value: ValueView,
    rest: ValueView,
)
    requires
        taking(table, container, steps) == Ok::<(TableView, ValueView, ValueView), ErrorView>(
            (table1, value, rest),
        ),
    ensures
        observed_at(table, container, steps, 0) == Ok::<ValueView, ErrorView>(value),
{
    checked_walk(table, container, steps, 0, PathIntent::Take, 0);
    observing_finds(table, container, steps, 0);
    if steps.len() > 0 {
        taking_replaces(table, container, steps, 0);
    }
}

/// A place out of which a value was taken is empty: it can be stored
/// into, not taken from again.
pub proof fn taken_place_is_empty(
    table: TableView,
    container: ValueView,
    steps: Seq<Projection>,
    table1: TableView,
    value: ValueView,
    rest: ValueView,
)
    requires
        steps.len() > 0,
        straight(table, container, steps, 0),
        taking(table, container, steps) == Ok::<(TableView, ValueView, ValueView), ErrorView>(
            (table1, value, rest),
        ),
    ensures
        observed_at(table1, rest, steps, 0) == Ok::<ValueView, ErrorView>(ValueView::Moved),
        taking(table1, rest, steps) is Err,
{
    checked_walk(table, container, steps, 0, PathIntent::Take, 0);
    taking_replaces(table, container, steps, 0);
    replacing_keeps_the_walk(table, container, steps, 0, ValueView::Moved);
    observing_finds(table1, rest, steps, 0);
    checked_walk(table1, rest, steps, 0, PathIntent::Take, 0);
}

/// A stored value is read back.
pub proof fn stored_is_read_back(
    table: TableView,
    container: ValueView,
    steps: Seq<Projection>,
    value: ValueView,
    table1: TableView,
    container1: ValueView,
)
    requires
        straight(table, container, steps, 0),
        storing(table, container, steps, value) == Ok::<(TableView, ValueView), ErrorView>(
            (table1, container1),
        ),
    ensures
        observed_at(table1, container1, steps, 0) == Ok::<ValueView, ErrorView>(value),
{
    if steps.len() > 0 {
        checked_walk(table, container, steps, 0, PathIntent::Store, 0);
        storing_replaces(table, container, steps, 0, value);
        replacing_keeps_the_walk(table, container, steps, 0, value);
        observing_finds(table1, container1, steps, 0);
    }
}

/// Putting back what was taken restores everything, whether the way to
/// the field is checked again or not.
pub proof fn putting_back_restores(
    table: TableView,
    container: ValueView,
    steps: Seq<Projection>,
    table1: TableView,
    value: ValueView,
    rest: ValueView,
)
    requires
        steps.len() > 0,
        straight(table, container, steps, 0),
        taking(table, container, steps) == Ok::<(TableView, ValueView, ValueView), ErrorView>(
            (table1, value, rest),
        ),
    ensures
        storing(table1, rest, steps, value) == Ok::<(TableView, ValueView), ErrorView>(
            (table, container),
        ),
        stored(table1, rest, steps, 0, value) == (
            table,
            Ok::<ValueView, ErrorView>(container),
        ),
{
    checked_walk(table, container, steps, 0, PathIntent::Take, 0);
    taking_replaces(table, container, steps, 0);
    replacing_keeps_the_walk(table, container, steps, 0, ValueView::Moved);
    checked_walk(table1, rest, steps, 0, PathIntent::Store, 0);
    storing_replaces(table1, rest, steps, 0, value);
    replacing_twice(table, container, steps, 0, ValueView::Moved, value);
    replacing_by_itself(table, container, steps, 0);
}

/// Taking and storing change nothing but the fields the steps lead
/// through.
pub proof fn other_fields_are_kept(
    table: TableView,
    container: ValueView,
    steps: Seq<Projection>,
    value: ValueView,
    id: int,
    index: int,
)
    requires
        0 <= id < table.records.len(),
        0 <= index < table.records[id].fields.len(),
        !leads_through(table, container, steps, 0, id, index),
    ensures
        taking(table, container, steps) matches Ok((table1, _, _)) ==> same_shape(table, table1)
            && table1.records[id].fields[index] == table.records[id].fields[index],
        storing(table, container, steps, value) matches Ok((table1, _)) ==> same_shape(
            table,
            table1,
        ) && table1.records[id].fields[index] == table.records[id].fields[index],
{
    if steps.len() > 0 {
        checked_walk(table, container, steps, 0, PathIntent::Take, 0);
        checked_walk(table, container, steps, 0, PathIntent::Store, 0);
        if taking(table, container, steps) is Ok {
            taking_replaces(table, container, steps, 0);
            replacing_keeps_the_rest(table, container, steps, 0, ValueView::Moved);
        }
        if storing(table, container, steps, value) is Ok {
            storing_replaces(table, container, steps, 0, value);
            replacing_keeps_the_rest(table, container, steps, 0, value);
        }
    }
}

/// Nothing is taken where there is nothing, and nothing is stored where
/// there is something.
pub proof fn place_is_full_or_empty(
    table: TableView,
    container: ValueView,
    steps: Seq<Projection>,
    value: ValueView,
)
    requires
        steps.len() > 0,
    ensures
        taking(table, container, steps) is Err || storing(table, container, steps, value) is Err,
{
    checked_walk(table, container, steps, 0, PathIntent::Take, 0);
    checked_walk(table, container, steps, 0, PathIntent::Store, 0);
}

} // verus!
