use crate::destroy::{drop_events, drop_plan, drop_plan_below, droppable, dropping, extends_fresh};
use crate::interpreter::{Event, StateView};
use crate::program::{Module, MAX_GENERIC_DEPTH};
use crate::table::{RecordView, ResourceStatus, TableView};
use crate::types::TyView;
use crate::value::{ErrorView, ResourceHandle, ValueView};
use crate::value_ops::tombstone;
use vstd::prelude::*;

verus! {

/// Whether `plan` destroys the resource numbered `id`.
pub open spec fn scheduled(plan: Seq<ResourceHandle>, id: int) -> bool {
    exists|k: int| 0 <= k < plan.len() && (#[trigger] plan[k]).id.0 == id
}

/// Planning a destruction keeps a plan that can be carried out one, and
/// extends it by resources it had not met.
pub proof fn destruction_is_planned_soundly(
    module: Module,
    table: TableView,
    value: ValueView,
    seen: Set<u32>,
    plan: Seq<ResourceHandle>,
    depth: nat,
)
    requires
        droppable(table, plan, seen),
    ensures
        droppable(
            table,
            drop_plan(module, table, value, seen, plan, depth).1,
            drop_plan(module, table, value, seen, plan, depth).0,
        ),
        extends_fresh(
            plan,
            drop_plan(module, table, value, seen, plan, depth).1,
            seen,
            drop_plan(module, table, value, seen, plan, depth).0,
        ),
    decreases MAX_GENERIC_DEPTH - depth, 0nat,
{
    if depth < MAX_GENERIC_DEPTH {
        match value {
            ValueView::Resource(handle) => {
                if !seen.contains(handle.id.0) && table.observe(handle) is Ok {
                    let record = table.observe(handle)->Ok_0;
                    let seen1 = seen.insert(handle.id.0);
                    assert(droppable(table, plan, seen1));
                    if module.record_field_types(record.item, Seq::empty()) is Ok {
                        let declared = module.record_field_types(record.item, Seq::empty())->Ok_0;
                        destruction_of_all_is_planned_soundly(
                            module,
                            table,
                            record.fields,
                            declared,
                            record.fields.len(),
                            seen1,
                            plan,
                            depth + 1,
                        );
                    }
                }
            },
            ValueView::Record { item, type_args, fields } => {
                if module.record_field_types(item, type_args) is Ok {
                    let declared = module.record_field_types(item, type_args)->Ok_0;
                    destruction_of_all_is_planned_soundly(
                        module,
                        table,
                        fields,
                        declared,
                        fields.len(),
                        seen,
                        plan,
                        depth + 1,
                    );
                }
            },
            ValueView::Variant { item, type_args, case, payload } => {
                if module.case_payload_types(item, type_args, case) is Ok {
                    let declared = module.case_payload_types(item, type_args, case)->Ok_0;
                    destruction_of_all_is_planned_soundly(
                        module,
                        table,
                        payload,
                        declared,
                        payload.len(),
                        seen,
                        plan,
                        depth + 1,
                    );
                }
            },
            _ => {},
        }
    }
}

pub proof fn destruction_of_all_is_planned_soundly(
    module: Module,
    table: TableView,
    values: Seq<ValueView>,
    declared: Seq<TyView>,
    n: nat,
    seen: Set<u32>,
    plan: Seq<ResourceHandle>,
    depth: nat,
)
    requires
        droppable(table, plan, seen),
    ensures
        droppable(
            table,
            drop_plan_below(module, table, values, declared, n, seen, plan, depth).1,
            drop_plan_below(module, table, values, declared, n, seen, plan, depth).0,
        ),
        extends_fresh(
            plan,
            drop_plan_below(module, table, values, declared, n, seen, plan, depth).1,
            seen,
            drop_plan_below(module, table, values, declared, n, seen, plan, depth).0,
        ),
    decreases MAX_GENERIC_DEPTH - depth, 1 + n,
{
    if n > 0 {
        let i = n - 1;
        if !module.affine(declared[i]) || tombstone(values[i]) {
            destruction_of_all_is_planned_soundly(
                module,
                table,
                values,
                declared,
                i as nat,
                seen,
                plan,
                depth,
            );
        } else {
            let (seen1, plan1, r) = drop_plan(module, table, values[i], seen, plan, depth);
            if depth < MAX_GENERIC_DEPTH {
                destruction_is_planned_soundly(module, table, values[i], seen, plan, depth);
            }
            if r is Ok {
                destruction_of_all_is_planned_soundly(
                    module,
                    table,
                    values,
                    declared,
                    i as nat,
                    seen1,
                    plan1,
                    depth,
                );
            }
        }
    }
}

/// Whether `table1` is `table` with exactly the resources of `plan`
/// from position `i` on destroyed.
pub open spec fn destroyed_exactly(
    table: TableView,
    plan: Seq<ResourceHandle>,
    i: int,
    table1: TableView,
) -> bool {
    &&& table1.leases == table.leases
    &&& table1.records.len() == table.records.len()
    &&& forall|id: int|
        0 <= id < table.records.len() ==> #[trigger] table1.records[id] == if scheduled(
            plan.skip(i),
            id,
        ) {
            RecordView { status: ResourceStatus::Dropped, ..table.records[id] }
        } else {
            table.records[id]
        }
}

proof fn destroying_in_turn(table: TableView, plan: Seq<ResourceHandle>, i: nat)
    requires
        i <= plan.len(),
        forall|k: int| i <= k < plan.len() ==> (#[trigger] plan[k]).id.0 < table.records.len(),
    ensures
        destroyed_exactly(table, plan, i as int, table.destroyed(plan, i)),
    decreases plan.len() - i,
{
    if i < plan.len() {
        let id = plan[i as int].id;
        let next = table.with_record(
            id,
            RecordView { status: ResourceStatus::Dropped, ..table.records[id.0 as int] },
        );
        destroying_in_turn(next, plan, i + 1);
        let table1 = table.destroyed(plan, i);
        let rest = plan.skip(i as int);
        let later = plan.skip((i + 1) as int);
        assert forall|n: int| 0 <= n < table.records.len() implies #[trigger] table1.records[n]
            == if scheduled(rest, n) {
            RecordView { status: ResourceStatus::Dropped, ..table.records[n] }
        } else {
            table.records[n]
        } by {
            if scheduled(later, n) {
                let k = choose|k: int| 0 <= k < later.len() && (#[trigger] later[k]).id.0 == n;
                assert(rest[k + 1].id.0 == n);
            }
            if scheduled(rest, n) && n != id.0 {
                let k = choose|k: int| 0 <= k < rest.len() && (#[trigger] rest[k]).id.0 == n;
                assert(later[k - 1].id.0 == n);
            }
            if n == id.0 {
                assert(rest[0].id.0 == n);
            }
        }
    } else {
        assert(plan.skip(i as int) =~= Seq::empty());
    }
}

/// Destroying a value destroys a list of resources that were all owned
/// and live, none of them twice, and records one event for each, in
/// order. It changes nothing else: every other resource and every lease
/// stays what it was.
pub proof fn destruction_destroys_each_once(
    module: Module,
    state: StateView,
    value: ValueView,
    state1: StateView,
) -> (plan: Seq<ResourceHandle>)
    requires
        dropping(module, state, value) == Ok::<StateView, ErrorView>(state1),
    ensures
        plan == drop_plan(module, state.table, value, Set::empty(), Seq::empty(), 0).1,
        state1.events == state.events + drop_events(plan),
        forall|k: int|
            0 <= k < plan.len() ==> (#[trigger] plan[k]).role is Owner && state.table.observe(
                plan[k],
            ) is Ok,
        forall|k: int, l: int|
            0 <= k < l < plan.len() ==> (#[trigger] plan[k]).id != (#[trigger] plan[l]).id,
        destroyed_exactly(state.table, plan, 0, state1.table),
{
    let plan = drop_plan(module, state.table, value, Set::empty(), Seq::empty(), 0).1;
    destruction_is_planned_soundly(module, state.table, value, Set::empty(), Seq::empty(), 0);
    assert forall|k: int| 0 <= k < plan.len() implies (#[trigger] plan[k]).id.0
        < state.table.records.len() by {
        assert(state.table.observe(plan[k]) is Ok);
    }
    destroying_in_turn(state.table, plan, 0);
    plan
}

/// Destroying a resource destroys what it owns first: its own event
/// comes last.
pub proof fn resource_is_destroyed_after_what_it_owns(
    module: Module,
    state: StateView,
    handle: ResourceHandle,
    state1: StateView,
)
    requires
        dropping(module, state, ValueView::Resource(handle)) == Ok::<StateView, ErrorView>(state1),
    ensures
        state1.events.len() > state.events.len(),
        state1.events.last() == Event::Drop(handle.id),
        forall|k: int|
            state.events.len() <= k < state1.events.len() - 1 ==> #[trigger] state1.events[k]
                != Event::Drop(handle.id),
{
    let plan = destruction_destroys_each_once(
        module,
        state,
        ValueView::Resource(handle),
        state1,
    );
    assert(plan.last() == handle);
    assert forall|k: int| state.events.len() <= k < state1.events.len() - 1 implies #[trigger]
        state1.events[k] != Event::Drop(handle.id) by {
        let l = k - state.events.len();
        assert(state1.events[k] == Event::Drop(plan[l].id));
        assert(plan[l].id != plan[plan.len() - 1].id);
    }
}

/// Of several values destroyed together the last goes first, with all it
/// owns, before any resource of an earlier one.
pub proof fn last_is_destroyed_first(
    module: Module,
    table: TableView,
    values: Seq<ValueView>,
    declared: Seq<TyView>,
    n: nat,
    seen: Set<u32>,
    plan: Seq<ResourceHandle>,
    depth: nat,
)
    requires
        n > 0,
        droppable(table, plan, seen),
        module.affine(declared[n - 1]),
        !tombstone(values[n - 1]),
        drop_plan_below(module, table, values, declared, n, seen, plan, depth).2 is Ok,
    ensures
        drop_plan(module, table, values[n - 1], seen, plan, depth).2 is Ok,
        drop_plan(module, table, values[n - 1], seen, plan, depth).1.is_prefix_of(
            drop_plan_below(module, table, values, declared, n, seen, plan, depth).1,
        ),
{
    let (seen1, plan1, r) = drop_plan(module, table, values[n - 1], seen, plan, depth);
    destruction_is_planned_soundly(module, table, values[n - 1], seen, plan, depth);
    destruction_of_all_is_planned_soundly(
        module,
        table,
        values,
        declared,
        (n - 1) as nat,
        seen1,
        plan1,
        depth,
    );
    let whole = drop_plan_below(module, table, values, declared, n, seen, plan, depth).1;
    assert(plan1 =~= whole.take(plan1.len() as int));
}

/// A resource is destroyed once: afterwards every use of its handle is
/// refused, another destruction among them.
pub proof fn destroyed_resource_is_gone(
    module: Module,
    state: StateView,
    handle: ResourceHandle,
    state1: StateView,
    other: ResourceHandle,
)
    requires
        dropping(module, state, ValueView::Resource(handle)) == Ok::<StateView, ErrorView>(state1),
        other.id == handle.id,
    ensures
        state1.table.records[handle.id.0 as int].status is Dropped,
        state1.table.observe(other) is Err,
        state1.table.transfer(other) is Err,
        state1.table.drop_resource(other) is Err,
        dropping(module, state1, ValueView::Resource(other)) is Err,
{
    let plan = destruction_destroys_each_once(
        module,
        state,
        ValueView::Resource(handle),
        state1,
    );
    let last = plan.len() - 1;
    assert(plan[last] == handle);
    assert(plan.skip(0) =~= plan);
    assert(state.table.observe(plan[last]) is Ok);
    assert(scheduled(plan.skip(0), handle.id.0 as int)) by {
        assert(plan.skip(0)[last].id.0 == handle.id.0);
    }
    assert(state1.table.records[handle.id.0 as int].status is Dropped);
}

/// Only an owner can destroy a resource.
pub proof fn observer_cannot_destroy(
    module: Module,
    state: StateView,
    handle: ResourceHandle,
)
    requires
        handle.role is Observer,
    ensures
        dropping(module, state, ValueView::Resource(handle)) is Err,
        state.table.drop_resource(handle) is Err,
{
}

/// Destruction is of what owns something: a primitive, a tombstone and a
/// destroyed value are refused.
pub proof fn nothing_else_is_destroyed(module: Module, state: StateView, value: ValueView)
    requires
        !(value is Resource),
        !(value is Record),
        !(value is Variant),
    ensures
        dropping(module, state, value) is Err,
{
}

proof fn resource_is_planned_last(
    module: Module,
    table: TableView,
    handle: ResourceHandle,
    seen: Set<u32>,
    plan: Seq<ResourceHandle>,
    depth: nat,
)
    requires
        droppable(table, plan, seen),
        drop_plan(module, table, ValueView::Resource(handle), seen, plan, depth).2 is Ok,
    ensures
        ({
            let after = drop_plan(
                module,
                table,
                ValueView::Resource(handle),
                seen,
                plan,
                depth,
            ).1;
            plan.len() < after.len() && after.last() == handle
        }),
{
    let record = table.observe(handle)->Ok_0;
    let inner = module.record_field_types(record.item, Seq::empty())->Ok_0;
    assert(droppable(table, plan, seen.insert(handle.id.0)));
    destruction_of_all_is_planned_soundly(
        module,
        table,
        record.fields,
        inner,
        record.fields.len(),
        seen.insert(handle.id.0),
        plan,
        depth + 1,
    );
}

proof fn field_is_destroyed(
    module: Module,
    table: TableView,
    values: Seq<ValueView>,
    declared: Seq<TyView>,
    n: nat,
    seen: Set<u32>,
    plan: Seq<ResourceHandle>,
    depth: nat,
    j: int,
    handle: ResourceHandle,
) -> (at: int)
    requires
        droppable(table, plan, seen),
        0 <= j < n,
        values[j] == ValueView::Resource(handle),
        module.affine(declared[j]),
        drop_plan_below(module, table, values, declared, n, seen, plan, depth).2 is Ok,
    ensures
        ({
            let after = drop_plan_below(module, table, values, declared, n, seen, plan, depth).1;
            plan.len() <= at < after.len() && after[at] == handle
        }),
    decreases n,
{
    let i = (n - 1) as nat;
    if !module.affine(declared[i as int]) || tombstone(values[i as int]) {
        field_is_destroyed(module, table, values, declared, i, seen, plan, depth, j, handle)
    } else {
        let (seen1, plan1, _) = drop_plan(module, table, values[i as int], seen, plan, depth);
        destruction_is_planned_soundly(module, table, values[i as int], seen, plan, depth);
        destruction_of_all_is_planned_soundly(
            module,
            table,
            values,
            declared,
            i,
            seen1,
            plan1,
            depth,
        );
        if i == j {
            let at = plan1.len() - 1;
            resource_is_planned_last(module, table, handle, seen, plan, depth);
            at
        } else {
            field_is_destroyed(
                module,
                table,
                values,
                declared,
                i,
                seen1,
                plan1,
                depth,
                j,
                handle,
            )
        }
    }
}

proof fn later_field_comes_first(
    module: Module,
    table: TableView,
    values: Seq<ValueView>,
    declared: Seq<TyView>,
    n: nat,
    seen: Set<u32>,
    plan: Seq<ResourceHandle>,
    depth: nat,
    j: int,
    k: int,
    earlier: ResourceHandle,
    later: ResourceHandle,
) -> (at: (int, int))
    requires
        droppable(table, plan, seen),
        0 <= j < k < n,
        values[j] == ValueView::Resource(earlier),
        values[k] == ValueView::Resource(later),
        module.affine(declared[j]),
        module.affine(declared[k]),
        drop_plan_below(module, table, values, declared, n, seen, plan, depth).2 is Ok,
    ensures
        ({
            let after = drop_plan_below(module, table, values, declared, n, seen, plan, depth).1;
            plan.len() <= at.0 < at.1 < after.len() && after[at.0] == later && after[at.1]
                == earlier
        }),
    decreases n,
{
    let i = (n - 1) as nat;
    if !module.affine(declared[i as int]) || tombstone(values[i as int]) {
        later_field_comes_first(
            module,
            table,
            values,
            declared,
            i,
            seen,
            plan,
            depth,
            j,
            k,
            earlier,
            later,
        )
    } else {
        let (seen1, plan1, _) = drop_plan(module, table, values[i as int], seen, plan, depth);
        destruction_is_planned_soundly(module, table, values[i as int], seen, plan, depth);
        if i == k {
            resource_is_planned_last(module, table, later, seen, plan, depth);
            let first = plan1.len() - 1;
            destruction_of_all_is_planned_soundly(
                module,
                table,
                values,
                declared,
                i,
                seen1,
                plan1,
                depth,
            );
            let second = field_is_destroyed(
                module,
                table,
                values,
                declared,
                i,
                seen1,
                plan1,
                depth,
                j,
                earlier,
            );
            (first, second)
        } else {
            later_field_comes_first(
                module,
                table,
                values,
                declared,
                i,
                seen1,
                plan1,
                depth,
                j,
                k,
                earlier,
                later,
            )
        }
    }
}

/// Of two resources that a resource owns, the one in the later field is
/// destroyed first, and their owner after both.
pub proof fn fields_are_destroyed_backwards(
    module: Module,
    state: StateView,
    owner: ResourceHandle,
    state1: StateView,
    j: int,
    k: int,
    earlier: ResourceHandle,
    later: ResourceHandle,
)
    requires
        dropping(module, state, ValueView::Resource(owner)) == Ok::<StateView, ErrorView>(state1),
        ({
            let record = state.table.records[owner.id.0 as int];
            &&& 0 <= j < k < record.fields.len()
            &&& record.fields[j] == ValueView::Resource(earlier)
            &&& record.fields[k] == ValueView::Resource(later)
            &&& module.record_field_types(record.item, Seq::empty()) matches Ok(declared)
                && module.affine(declared[j]) && module.affine(declared[k])
        }),
    ensures
        exists|p: int, q: int|
            state.events.len() <= p < q < state1.events.len() - 1 && #[trigger] state1.events[p]
                == Event::Drop(later.id) && #[trigger] state1.events[q] == Event::Drop(earlier.id),
        state1.events.last() == Event::Drop(owner.id),
{
    let table = state.table;
    let record = table.records[owner.id.0 as int];
    let declared = module.record_field_types(record.item, Seq::empty())->Ok_0;
    let seen = Set::<u32>::empty().insert(owner.id.0);
    assert(droppable(table, Seq::empty(), seen));
    let (p, q) = later_field_comes_first(
        module,
        table,
        record.fields,
        declared,
        record.fields.len(),
        seen,
        Seq::empty(),
        1,
        j,
        k,
        earlier,
        later,
    );
    let plan = drop_plan_below(
        module,
        table,
        record.fields,
        declared,
        record.fields.len(),
        seen,
        Seq::empty(),
        1,
    ).1;
    let whole = plan.push(owner);
    assert(state1.events == state.events + drop_events(whole));
    let start = state.events.len() as int;
    assert(state1.events[start + p] == Event::Drop(whole[p].id));
    assert(state1.events[start + q] == Event::Drop(whole[q].id));
}

} // verus!
