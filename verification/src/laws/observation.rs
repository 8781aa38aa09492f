use crate::ids::RuntimeObservationId;
use crate::ownership::{plan_inner, plan_inner_from, plan_transferring, PlanView};
use crate::place::{
    lemma_crossed_path_refused, observed_at, path_check, step_index, storing, taking, PathIntent,
};
use crate::program::{Module, Projection, MAX_GENERIC_DEPTH};
use crate::table::TableView;
use crate::value::{ErrorView, ResourceHandle, RuntimeOwnershipRole, ValueView};
use vstd::prelude::*;

verus! {

/// Whether every handle a value carries inline, at any depth, is an
/// observer, and is bound to `lease` where one is given.
pub open spec fn only_observers(value: ValueView, lease: Option<RuntimeObservationId>) -> bool
    decreases value,
{
    match value {
        ValueView::Resource(handle) => handle.role is Observer && (lease is Some ==> handle.lease
            == lease),
        ValueView::Record { fields, .. } => forall|i: int|
            0 <= i < fields.len() ==> only_observers(#[trigger] fields[i], lease),
        ValueView::Variant { payload, .. } => forall|i: int|
            0 <= i < payload.len() ==> only_observers(#[trigger] payload[i], lease),
        _ => true,
    }
}

/// Observation is transitive: an observing view carries observers only,
/// at every depth, and all of them are bound to the view's lease.
pub proof fn observing_view_carries_only_observers(
    table: TableView,
    value: ValueView,
    lease: Option<RuntimeObservationId>,
    depth: nat,
    view: ValueView,
)
    requires
        table.observing_view(value, lease, depth) == Ok::<ValueView, ErrorView>(view),
    ensures
        only_observers(view, lease),
    decreases MAX_GENERIC_DEPTH - depth, 0nat,
{
    match value {
        ValueView::Record { fields, .. } => {
            let views = table.observing_views(fields, 0, Seq::empty(), lease, depth + 1)->Ok_0;
            views_carry_only_observers(table, fields, 0, Seq::empty(), lease, depth + 1, views);
        },
        ValueView::Variant { payload, .. } => {
            let views = table.observing_views(payload, 0, Seq::empty(), lease, depth + 1)->Ok_0;
            views_carry_only_observers(table, payload, 0, Seq::empty(), lease, depth + 1, views);
        },
        _ => {},
    }
}

proof fn views_carry_only_observers(
    table: TableView,
    values: Seq<ValueView>,
    i: nat,
    done: Seq<ValueView>,
    lease: Option<RuntimeObservationId>,
    depth: nat,
    views: Seq<ValueView>,
)
    requires
        table.observing_views(values, i, done, lease, depth) == Ok::<Seq<ValueView>, ErrorView>(
            views,
        ),
        forall|j: int| 0 <= j < done.len() ==> only_observers(#[trigger] done[j], lease),
    ensures
        forall|j: int| 0 <= j < views.len() ==> only_observers(#[trigger] views[j], lease),
    decreases MAX_GENERIC_DEPTH - depth, 1 + values.len() - i,
{
    if i < values.len() {
        let view = table.observing_view(values[i as int], lease, depth)->Ok_0;
        if depth < MAX_GENERIC_DEPTH {
            observing_view_carries_only_observers(
                table,
                values[i as int],
                lease,
                depth,
                view,
            );
        }
        views_carry_only_observers(table, values, i + 1, done.push(view), lease, depth, views);
    }
}

/// Observing what is already an observing view gives that view again.
pub proof fn observing_an_observing_view_changes_nothing(
    table: TableView,
    value: ValueView,
    depth: nat,
    view: ValueView,
)
    requires
        table.observing_view(value, None, depth) == Ok::<ValueView, ErrorView>(view),
    ensures
        table.observing_view(view, None, depth) == Ok::<ValueView, ErrorView>(view),
    decreases MAX_GENERIC_DEPTH - depth, 0nat,
{
    match value {
        ValueView::Record { fields, .. } => {
            let views = table.observing_views(fields, 0, Seq::empty(), None, depth + 1)->Ok_0;
            views_observed_again(table, fields, 0, Seq::empty(), depth + 1, views);
            assert(views.take(0) =~= Seq::empty());
        },
        ValueView::Variant { payload, .. } => {
            let views = table.observing_views(payload, 0, Seq::empty(), None, depth + 1)->Ok_0;
            views_observed_again(table, payload, 0, Seq::empty(), depth + 1, views);
            assert(views.take(0) =~= Seq::empty());
        },
        _ => {},
    }
}

proof fn views_observed_again(
    table: TableView,
    values: Seq<ValueView>,
    i: nat,
    done: Seq<ValueView>,
    depth: nat,
    views: Seq<ValueView>,
)
    requires
        table.observing_views(values, i, done, None, depth) == Ok::<Seq<ValueView>, ErrorView>(
            views,
        ),
        done.len() == i <= values.len(),
    ensures
        views.len() == values.len(),
        done == views.take(i as int),
        table.observing_views(views, i, done, None, depth) == Ok::<Seq<ValueView>, ErrorView>(
            views,
        ),
    decreases MAX_GENERIC_DEPTH - depth, 1 + values.len() - i,
{
    if i < values.len() {
        let view = table.observing_view(values[i as int], None, depth)->Ok_0;
        if depth < MAX_GENERIC_DEPTH {
            observing_an_observing_view_changes_nothing(table, values[i as int], depth, view);
        }
        views_observed_again(table, values, i + 1, done.push(view), depth, views);
        assert(views[i as int] == views.take((i + 1) as int)[i as int]);
        assert(done =~= views.take(i as int)) by {
            assert(done =~= views.take((i + 1) as int).take(i as int));
        }
    } else {
        assert(views.take(i as int) =~= views);
    }
}

/// Whatever is read from a value that carries only observers carries
/// only observers, however far the read goes.
pub proof fn reading_through_observers_yields_observers(
    table: TableView,
    container: ValueView,
    steps: Seq<Projection>,
    i: nat,
    found: ValueView,
)
    requires
        only_observers(container, None),
        observed_at(table, container, steps, i) == Ok::<ValueView, ErrorView>(found),
    ensures
        only_observers(found, None),
    decreases steps.len() - i,
{
    if i < steps.len() {
        let index = step_index(steps[i as int])->Ok_0;
        match container {
            ValueView::Resource(handle) => {
                let inner = table.observe_field(handle, index)->Ok_0;
                field_read_through_observer_is_observing(table, handle, index, inner);
                reading_through_observers_yields_observers(table, inner, steps, i + 1, found);
            },
            ValueView::Record { fields, .. } => {
                reading_through_observers_yields_observers(
                    table,
                    fields[index as int],
                    steps,
                    i + 1,
                    found,
                );
            },
            _ => {},
        }
    }
}

/// A field read through an observer is an observing view, bound to the
/// observer's own lease.
pub proof fn field_read_through_observer_is_observing(
    table: TableView,
    handle: ResourceHandle,
    index: usize,
    field: ValueView,
)
    requires
        handle.role is Observer,
        table.observe_field(handle, index) == Ok::<ValueView, ErrorView>(field),
    ensures
        only_observers(field, None),
        only_observers(field, handle.lease),
{
    let record = table.observe(handle)->Ok_0;
    let stored = record.fields[index as int];
    observing_view_carries_only_observers(table, stored, handle.lease, 0, field);
    only_observers_of_some_lease(field, handle.lease);
}

proof fn only_observers_of_some_lease(value: ValueView, lease: Option<RuntimeObservationId>)
    requires
        only_observers(value, lease),
    ensures
        only_observers(value, None),
    decreases value,
{
    match value {
        ValueView::Record { fields, .. } => {
            assert forall|i: int| 0 <= i < fields.len() implies only_observers(
                #[trigger] fields[i],
                None,
            ) by {
                only_observers_of_some_lease(fields[i], lease);
            }
        },
        ValueView::Variant { payload, .. } => {
            assert forall|i: int| 0 <= i < payload.len() implies only_observers(
                #[trigger] payload[i],
                None,
            ) by {
                only_observers_of_some_lease(payload[i], lease);
            }
        },
        _ => {},
    }
}

/// An observer reads everything its owner can read of the resource, and
/// can do nothing else to it: it cannot be moved, destroyed, emptied or
/// refilled through an observer.
pub proof fn observer_only_reads(table: TableView, handle: ResourceHandle)
    requires
        handle.role is Observer,
    ensures
        table.observe(handle) == table.observe(
            ResourceHandle { role: RuntimeOwnershipRole::Owner, ..handle },
        ),
        table.transfer(handle) is Err,
        table.drop_resource(handle) is Err,
        forall|index: usize| #[trigger] table.take_field(handle, index) is Err,
        forall|index: usize, value: ValueView| #[trigger]
            table.set_field(handle, index, value) is Err,
        forall|index: usize, value: ValueView| #[trigger]
            table.restore_field(handle, index, value) is Err,
{
}

/// Nothing can be moved out of a place, or stored into one, that is
/// reached through an observer, however many containers lie between.
pub proof fn no_move_crosses_an_observer(
    table: TableView,
    handle: ResourceHandle,
    steps: Seq<Projection>,
    value: ValueView,
)
    requires
        handle.role is Observer,
        steps.len() > 0,
    ensures
        taking(table, ValueView::Resource(handle), steps) is Err,
        storing(table, ValueView::Resource(handle), steps, value) is Err,
{
    crossing_is_refused(table, handle, steps, PathIntent::Take);
    crossing_is_refused(table, handle, steps, PathIntent::Store);
}

proof fn crossing_is_refused(
    table: TableView,
    handle: ResourceHandle,
    steps: Seq<Projection>,
    intent: PathIntent,
)
    requires
        handle.role is Observer,
        steps.len() > 0,
    ensures
        path_check(table, ValueView::Resource(handle), steps, 0, intent, false, 0) is Err,
{
    if step_index(steps[0]) is Ok && table.observe(handle) is Ok {
        let index = step_index(steps[0])->Ok_0;
        let record = table.observe(handle)->Ok_0;
        if index < record.fields.len() && 1 < steps.len() {
            lemma_crossed_path_refused(
                table,
                record.fields[index as int],
                steps,
                1,
                intent,
                1,
            );
        }
    }
}

/// Whether a value carries a handle inline.
pub open spec fn carries_handle(value: ValueView) -> bool
    decreases value,
{
    match value {
        ValueView::Resource(_) => true,
        ValueView::Record { fields, .. } => exists|i: int|
            0 <= i < fields.len() && carries_handle(#[trigger] fields[i]),
        ValueView::Variant { payload, .. } => exists|i: int|
            0 <= i < payload.len() && carries_handle(#[trigger] payload[i]),
        _ => false,
    }
}

/// An observing view that carries a handle cannot be moved to a new
/// owner.
pub proof fn observing_view_cannot_be_transferred(
    module: Module,
    table: TableView,
    value: ValueView,
    plan: PlanView,
    depth: nat,
)
    requires
        only_observers(value, None),
        carries_handle(value),
    ensures
        plan_inner(module, table, value, plan, depth).1 is Err,
        plan_transferring(module, table, value, plan, depth).1 is Err,
    decreases MAX_GENERIC_DEPTH - depth, 0nat,
{
    if depth < MAX_GENERIC_DEPTH {
        match value {
            ValueView::Record { fields, .. } => {
                let k = choose|i: int|
                    0 <= i < fields.len() && carries_handle(#[trigger] fields[i]);
                observing_views_cannot_be_transferred(
                    module,
                    table,
                    fields,
                    0,
                    Seq::empty(),
                    plan,
                    depth + 1,
                    k,
                );
            },
            ValueView::Variant { payload, .. } => {
                let k = choose|i: int|
                    0 <= i < payload.len() && carries_handle(#[trigger] payload[i]);
                observing_views_cannot_be_transferred(
                    module,
                    table,
                    payload,
                    0,
                    Seq::empty(),
                    plan,
                    depth + 1,
                    k,
                );
            },
            _ => {},
        }
    }
}

proof fn observing_views_cannot_be_transferred(
    module: Module,
    table: TableView,
    values: Seq<ValueView>,
    i: nat,
    done: Seq<ValueView>,
    plan: PlanView,
    depth: nat,
    k: int,
)
    requires
        i <= k < values.len(),
        carries_handle(values[k]),
        forall|j: int| 0 <= j < values.len() ==> only_observers(#[trigger] values[j], None),
    ensures
        plan_inner_from(module, table, values, i, done, plan, depth).1 is Err,
    decreases MAX_GENERIC_DEPTH - depth, 1 + values.len() - i,
{
    let (plan1, r) = plan_inner(module, table, values[i as int], plan, depth);
    if i == k {
        observing_view_cannot_be_transferred(module, table, values[i as int], plan, depth);
    } else if r is Ok {
        observing_views_cannot_be_transferred(
            module,
            table,
            values,
            i + 1,
            done.push(r->Ok_0),
            plan1,
            depth,
            k,
        );
    }
}

} // verus!
