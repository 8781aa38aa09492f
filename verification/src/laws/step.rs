use crate::destroy::dropping;
use crate::frame::{executed, ContextView, LocalsView};
use crate::ids::{ObservationId, ValueId};
use crate::interpreter::{Event, StateView};
use crate::laws::boundary::{planned_value_stands_for_it, stands_for, view_stands_for_it};
use crate::laws::destruction::{
    destroyed_resource_is_gone, resource_is_destroyed_after_what_it_owns,
};
use crate::laws::graph::reaches;
use crate::laws::lease::held_resources_cannot_be_transferred;
use crate::laws::observation::{observing_view_carries_only_observers, only_observers};
use crate::laws::operators::Scene;
use crate::laws::place::found;
use crate::laws::transfer::{
    carries, children, has_handle, transfer_moves_exactly_what_is_carried,
};
use crate::ownership::{plan_inner, plan_inner_from, transferred, PlanView};
use crate::program::{Instruction, Module, OwnershipMode, ValueKind, MAX_GENERIC_DEPTH};
use crate::table::TableView;
use crate::types::Ty;
use crate::value::{ErrorView, ResourceHandle, ValueView};
use vstd::prelude::*;

verus! {

// ---------------------------------------------------------------------
// Handles.
// ---------------------------------------------------------------------

/// A handle works where the lease it was minted under, if any, is active,
/// its resource exists, was not moved since, and is alive; it then finds
/// that resource's record.
pub proof fn handle_works_where_it_is_current(table: TableView, handle: ResourceHandle)
    ensures
        table.observe(handle) is Ok <==> {
            &&& handle.id.0 < table.records.len()
            &&& table.records[handle.id.0 as int].generation == handle.generation
            &&& table.records[handle.id.0 as int].status is Alive
            &&& handle.lease matches Some(lease) ==> lease.0 < table.leases.len()
                && table.leases[lease.0 as int].status is Active
        },
        table.observe(handle) is Ok ==> table.observe(handle)->Ok_0
            == table.records[handle.id.0 as int],
{
}

/// Whether `moved` is `value` in the hands of a new owner: it has the
/// shape of `value`, with current owning handles of the same resources in
/// place of its handles, all of which owned and worked before and are
/// stale now. The resources it carries, none of which an active lease
/// holds, passed to their next generation; nothing else changed.
pub open spec fn handed_over(
    table: TableView,
    value: ValueView,
    table1: TableView,
    moved: ValueView,
) -> bool {
    &&& stands_for(table1, value, moved)
    &&& forall|handle: ResourceHandle| #[trigger]
        has_handle(value, handle) ==> handle.role is Owner && table.observe(handle) is Ok
            && table1.observe(handle) is Err
    &&& forall|handle: ResourceHandle| #[trigger]
        has_handle(moved, handle) ==> handle.role is Owner && handle.lease is None
            && table1.observe(handle) is Ok && carries(value, handle.id.0)
    &&& (forall|id: u32| !#[trigger] carries(value, id)) ==> moved == value
    &&& forall|id: u32| #[trigger] carries(value, id) ==> !table.held(id)
    &&& table1.leases == table.leases
    &&& table1.records.len() == table.records.len()
    &&& forall|id: u32|
        (id as int) < table.records.len() ==> {
            let before = table.records[id as int];
            let after = #[trigger] table1.records[id as int];
            &&& after.item == before.item
            &&& after.status == before.status
            &&& after.fields == before.fields
            &&& after.generation as int == if carries(value, id) {
                (before.generation + 1) % 0x1_0000_0000_0000_0000
            } else {
                before.generation as int
            }
        }
}

proof fn without_handles_it_is_itself(table: TableView, value: ValueView, other: ValueView)
    requires
        stands_for(table, value, other),
        forall|id: u32| !#[trigger] carries(value, id),
    ensures
        other == value,
    decreases value,
{
    match value {
        ValueView::Resource(handle) => {
            assert(carries(value, handle.id.0));
        },
        ValueView::Record { fields, .. } => {
            let others = children(other);
            assert forall|k: int| 0 <= k < fields.len() implies others[k]
                == #[trigger] fields[k] by {
                assert forall|id: u32| !#[trigger] carries(fields[k], id) by {
                    assert(!carries(value, id));
                }
                without_handles_it_is_itself(table, fields[k], others[k]);
            }
            assert(others =~= fields);
        },
        ValueView::Variant { payload, .. } => {
            let others = children(other);
            assert forall|k: int| 0 <= k < payload.len() implies others[k]
                == #[trigger] payload[k] by {
                assert forall|id: u32| !#[trigger] carries(payload[k], id) by {
                    assert(!carries(value, id));
                }
                without_handles_it_is_itself(table, payload[k], others[k]);
            }
            assert(others =~= payload);
        },
        _ => {},
    }
}

/// Moving a value hands it over.
pub proof fn transfer_hands_over(
    module: Module,
    table: TableView,
    value: ValueView,
    table1: TableView,
    moved: ValueView,
)
    requires
        transferred(module, table, value) == Ok::<(TableView, ValueView), ErrorView>(
            (table1, moved),
        ),
    ensures
        handed_over(table, value, table1, moved),
{
    transfer_moves_exactly_what_is_carried(module, table, value, table1, moved);
    planned_value_stands_for_it(module, table, table1, value, PlanView::empty(), 0, moved);
    assert forall|handle: ResourceHandle| #[trigger] has_handle(moved, handle) implies handle.lease
        is None && carries(value, handle.id.0) by {
        crate::laws::transfer::planning_moves_what_is_carried(
            module,
            table,
            value,
            PlanView::empty(),
            0,
        );
    }
    assert forall|id: u32| #[trigger] carries(value, id) implies !table.held(id) by {
        if table.held(id) {
            held_resources_cannot_be_transferred(module, table, value, id);
        }
    }
    if forall|id: u32| !#[trigger] carries(value, id) {
        without_handles_it_is_itself(table1, value, moved);
    }
    assert forall|id: u32| (id as int) < table.records.len() implies {
        let before = table.records[id as int];
        let after = #[trigger] table1.records[id as int];
        &&& after.item == before.item
        &&& after.status == before.status
        &&& after.fields == before.fields
        &&& after.generation as int == if carries(value, id) {
            (before.generation + 1) % 0x1_0000_0000_0000_0000
        } else {
            before.generation as int
        }
    } by {
        let g = table.records[id as int].generation;
        assert((g + 1) % 0x1_0000_0000_0000_0000 == if g == u64::MAX {
            0
        } else {
            g + 1
        });
    }
}

// ---------------------------------------------------------------------
// Instructions that give a value.
// ---------------------------------------------------------------------

/// A value instruction binds its result to what its kind evaluates to in
/// the frame, and changes no other value; where evaluation is refused,
/// the frame stays as it was.
pub proof fn result_is_bound(
    module: Module,
    state: StateView,
    locals: LocalsView,
    context: ContextView,
    result: ValueId,
    ty: Ty,
    kind: ValueKind,
    depth: nat,
)
    requires
        !(kind is PlaceRead) && !(kind is ObservePlace) && !(kind is DeferCapture),
    ensures
        ({
            let at = Scene {
                module,
                state,
                values: locals.values,
                evidence: context.evidence,
                subst: context.subst,
                depth,
            };
            let (state1, locals1, r) = executed(
                module,
                state,
                Instruction::Value { result, ty, kind },
                locals,
                context,
                depth,
            );
            &&& state1 == at.outcome(kind).0
            &&& locals1.leases == locals.leases
            &&& match at.outcome(kind).1 {
                Ok(value) => r is Ok && locals1.values == locals.values.insert(result.0, value),
                Err(e) => r == Err::<(), ErrorView>(e) && locals1.values == locals.values,
            }
        }),
{
}

/// A move hands its source's value over to its result. The source keeps
/// its handles, which are stale now; no other value changes.
pub proof fn move_hands_over(
    module: Module,
    state: StateView,
    locals: LocalsView,
    context: ContextView,
    result: ValueId,
    ty: Ty,
    source: ValueId,
    depth: nat,
)
    ensures
        ({
            let (state1, locals1, r) = executed(
                module,
                state,
                Instruction::Value { result, ty, kind: ValueKind::Move { source } },
                locals,
                context,
                depth,
            );
            r is Ok ==> {
                &&& locals.values.contains_key(source.0)
                &&& locals1.values == locals.values.insert(result.0, locals1.values[result.0])
                &&& locals1.leases == locals.leases
                &&& state1.events == state.events
                &&& handed_over(
                    state.table,
                    locals.values[source.0],
                    state1.table,
                    locals1.values[result.0],
                )
            }
        }),
{
    let (state1, locals1, r) = executed(
        module,
        state,
        Instruction::Value { result, ty, kind: ValueKind::Move { source } },
        locals,
        context,
        depth,
    );
    if r is Ok {
        transfer_hands_over(
            module,
            state.table,
            locals.values[source.0],
            state1.table,
            locals1.values[result.0],
        );
    }
}

/// Capturing a value for a deferred call hands it over to the capture.
pub proof fn capture_hands_over(
    module: Module,
    state: StateView,
    locals: LocalsView,
    context: ContextView,
    result: ValueId,
    ty: Ty,
    source: ValueId,
    depth: nat,
)
    ensures
        ({
            let (state1, locals1, r) = executed(
                module,
                state,
                Instruction::Value { result, ty, kind: ValueKind::DeferCapture { source } },
                locals,
                context,
                depth,
            );
            r is Ok ==> {
                &&& locals.values.contains_key(source.0)
                &&& locals1.values == locals.values.insert(result.0, locals1.values[result.0])
                &&& locals1.leases == locals.leases
                &&& state1.events == state.events
                &&& handed_over(
                    state.table,
                    locals.values[source.0],
                    state1.table,
                    locals1.values[result.0],
                )
            }
        }),
{
    let (state1, locals1, r) = executed(
        module,
        state,
        Instruction::Value { result, ty, kind: ValueKind::DeferCapture { source } },
        locals,
        context,
        depth,
    );
    if r is Ok {
        transfer_hands_over(
            module,
            state.table,
            locals.values[source.0],
            state1.table,
            locals1.values[result.0],
        );
    }
}

/// A move or a capture of a number, a truth value, a character, a text or
/// nothing at all gives that very value, and changes nothing.
pub proof fn plain_value_moves_as_it_is(at: Scene, source: ValueId)
    requires
        at.values.contains_key(source.0),
        !(at.values[source.0] is Record) && !(at.values[source.0] is Variant) && !(
        at.values[source.0] is Resource) && !(at.values[source.0] is Moved) && !(
        at.values[source.0] is Dropped),
    ensures
        at.gives(ValueKind::Move { source }, at.values[source.0]),
        at.gives(ValueKind::DeferCapture { source }, at.values[source.0]),
{
    let value = at.values[source.0];
    let table = at.state.table;
    let (plan, r) = plan_inner(at.module, table, value, PlanView::empty(), 0);
    assert(plan == PlanView::empty());
    crate::laws::lease::lease_check_passes_where_nothing_is_held(
        table,
        plan.reachable,
        "transferred"@,
    );
    assert(table.advanced(plan.transitions, 0) == table);
}

/// What was moved away or destroyed cannot be moved again.
pub proof fn nothing_is_moved_again(at: Scene, source: ValueId)
    ensures
        !at.values.contains_key(source.0) ==> at.refuses(ValueKind::Move { source }),
        at.values[source.0] is Moved || at.values[source.0] is Dropped ==> at.refuses(
            ValueKind::Move { source },
        ),
{
}

// ---------------------------------------------------------------------
// Storing into slots.
// ---------------------------------------------------------------------

/// A store hands the value over to its slot, or puts a view of it there
/// that observes and leaves every resource alone. No other value changes.
pub proof fn store_fills_its_slot(
    module: Module,
    state: StateView,
    locals: LocalsView,
    context: ContextView,
    slot: ValueId,
    value: ValueId,
    mode: OwnershipMode,
    depth: nat,
)
    ensures
        ({
            let (state1, locals1, r) = executed(
                module,
                state,
                Instruction::Store { slot, value, mode },
                locals,
                context,
                depth,
            );
            r is Ok ==> {
                &&& locals.values.contains_key(value.0)
                &&& locals1.values == locals.values.insert(slot.0, locals1.values[slot.0])
                &&& locals1.leases == locals.leases
                &&& state1.events == state.events
                &&& mode is Transfer ==> handed_over(
                    state.table,
                    locals.values[value.0],
                    state1.table,
                    locals1.values[slot.0],
                )
                &&& mode is Observe ==> state1.table == state.table && stands_for(
                    state.table,
                    locals.values[value.0],
                    locals1.values[slot.0],
                ) && only_observers(locals1.values[slot.0], None)
            }
        }),
{
    let (state1, locals1, r) = executed(
        module,
        state,
        Instruction::Store { slot, value, mode },
        locals,
        context,
        depth,
    );
    if r is Ok {
        let incoming = locals.values[value.0];
        let stored = locals1.values[slot.0];
        match mode {
            OwnershipMode::Transfer => {
                transfer_hands_over(module, state.table, incoming, state1.table, stored);
            },
            OwnershipMode::Observe => {
                view_stands_for_it(state.table, incoming, 0, stored);
                observing_view_carries_only_observers(state.table, incoming, None, 0, stored);
            },
        }
    }
}

/// Whether a value's aggregates nest at most `levels` deep, itself
/// counted.
pub open spec fn nests_within(value: ValueView, levels: nat) -> bool
    decreases value,
{
    &&& levels > 0
    &&& match value {
        ValueView::Record { fields, .. } => forall|k: int|
            0 <= k < fields.len() ==> nests_within(#[trigger] fields[k], (levels - 1) as nat),
        ValueView::Variant { payload, .. } => forall|k: int|
            0 <= k < payload.len() ==> nests_within(#[trigger] payload[k], (levels - 1) as nat),
        _ => true,
    }
}

/// Whether `handle` is the one handle that `value` carries.
pub open spec fn only_handle(value: ValueView, handle: ResourceHandle) -> bool {
    forall|other: ResourceHandle| #[trigger] has_handle(value, other) ==> other == handle
}

/// A live resource that a value owns alone is noticed, unless it leaves.
pub proof fn owned_resource_is_noticed(
    table: TableView,
    value: ValueView,
    handle: ResourceHandle,
    seen: Set<u32>,
    depth: nat,
    exiting: Set<u32>,
)
    requires
        depth <= MAX_GENERIC_DEPTH,
        nests_within(value, (MAX_GENERIC_DEPTH - depth) as nat),
        only_handle(value, handle),
        handle.role is Owner,
        table.observe(handle) is Ok,
        !exiting.contains(handle.id.0),
        !seen.contains(handle.id.0),
    ensures
        table.owns_live(value, seen, depth, exiting).1 == has_handle(value, handle),
        !has_handle(value, handle) ==> table.owns_live(value, seen, depth, exiting).0 == seen,
    decreases MAX_GENERIC_DEPTH - depth, 0nat,
{
    match value {
        ValueView::Resource(found) => {
            assert(has_handle(value, found));
        },
        ValueView::Record { fields, .. } => {
            only_handle_of_children(value, handle);
            assert(children(value) == fields);
            one_of_them_is_noticed(table, fields, 0, handle, seen, depth + 1, exiting);
        },
        ValueView::Variant { payload, .. } => {
            only_handle_of_children(value, handle);
            assert(children(value) == payload);
            one_of_them_is_noticed(table, payload, 0, handle, seen, depth + 1, exiting);
        },
        _ => {},
    }
}

proof fn only_handle_of_children(value: ValueView, handle: ResourceHandle)
    requires
        value is Record || value is Variant,
        only_handle(value, handle),
    ensures
        forall|k: int|
            0 <= k < children(value).len() ==> only_handle(#[trigger] children(value)[k], handle),
{
    assert forall|k: int| 0 <= k < children(value).len() implies only_handle(
        #[trigger] children(value)[k],
        handle,
    ) by {
        assert forall|other: ResourceHandle| #[trigger]
            has_handle(children(value)[k], other) implies other == handle by {
            assert(has_handle(value, other));
        }
    }
}

proof fn one_of_them_is_noticed(
    table: TableView,
    values: Seq<ValueView>,
    i: nat,
    handle: ResourceHandle,
    seen: Set<u32>,
    depth: nat,
    exiting: Set<u32>,
)
    requires
        depth <= MAX_GENERIC_DEPTH,
        forall|k: int|
            0 <= k < values.len() ==> nests_within(
                #[trigger] values[k],
                (MAX_GENERIC_DEPTH - depth) as nat,
            ),
        forall|k: int| 0 <= k < values.len() ==> only_handle(#[trigger] values[k], handle),
        handle.role is Owner,
        table.observe(handle) is Ok,
        !exiting.contains(handle.id.0),
        !seen.contains(handle.id.0),
    ensures
        table.owns_live_from(values, i, seen, depth, exiting).1 == exists|k: int|
            i <= k < values.len() && has_handle(#[trigger] values[k], handle),
        !(exists|k: int| i <= k < values.len() && has_handle(#[trigger] values[k], handle))
            ==> table.owns_live_from(values, i, seen, depth, exiting).0 == seen,
    decreases MAX_GENERIC_DEPTH - depth, 1 + values.len() - i,
{
    if i < values.len() {
        owned_resource_is_noticed(table, values[i as int], handle, seen, depth, exiting);
        let (seen1, live) = table.owns_live(values[i as int], seen, depth, exiting);
        if !live {
            one_of_them_is_noticed(table, values, i + 1, handle, seen1, depth, exiting);
        }
    }
}

/// A slot that still owns a live resource is not overwritten by an
/// observing store, nor by one that does not take that resource along.
pub proof fn store_overwrites_nothing_alive(
    module: Module,
    state: StateView,
    locals: LocalsView,
    context: ContextView,
    slot: ValueId,
    value: ValueId,
    mode: OwnershipMode,
    depth: nat,
    handle: ResourceHandle,
)
    requires
        locals.values.contains_key(slot.0),
        nests_within(locals.values[slot.0], MAX_GENERIC_DEPTH as nat),
        has_handle(locals.values[slot.0], handle),
        only_handle(locals.values[slot.0], handle),
        handle.role is Owner,
        state.table.observe(handle) is Ok,
        executed(
            module,
            state,
            Instruction::Store { slot, value, mode },
            locals,
            context,
            depth,
        ).2 is Ok,
    ensures
        mode is Transfer,
        exists|hops: nat|
            #[trigger] reaches(state.table, locals.values[value.0], handle.id.0, hops),
{
    let incoming = locals.values[value.0];
    let plan = plan_inner(module, state.table, incoming, PlanView::empty(), 0).0;
    let retired = if mode is Transfer {
        plan.reachable
    } else {
        Set::empty()
    };
    if !retired.contains(handle.id.0) {
        owned_resource_is_noticed(
            state.table,
            locals.values[slot.0],
            handle,
            Set::empty(),
            0,
            retired,
        );
    }
    let hops = planned_is_reached(
        module,
        state.table,
        incoming,
        PlanView::empty(),
        0,
        handle.id.0,
    );
    assert(reaches(state.table, incoming, handle.id.0, hops));
}

/// What is reached from a child is reached from its parent.
pub proof fn reached_through_a_child(
    table: TableView,
    value: ValueView,
    k: int,
    id: u32,
    hops: nat,
)
    requires
        value is Record || value is Variant,
        0 <= k < children(value).len(),
        reaches(table, children(value)[k], id, hops),
    ensures
        reaches(table, value, id, hops),
{
    let child = children(value)[k];
    if carries(child, id) {
        assert(carries(value, id));
    } else {
        let (handle, j) = choose|handle: ResourceHandle, j: int|
            #![trigger has_handle(child, handle), table.records[handle.id.0 as int].fields[j]]
            has_handle(child, handle) && 0 <= j < table.records[handle.id.0 as int].fields.len()
                && reaches(
                table,
                table.records[handle.id.0 as int].fields[j],
                id,
                (hops - 1) as nat,
            );
        assert(has_handle(value, handle));
    }
}

proof fn claimed_is_reached(
    table: TableView,
    value: ValueView,
    owned: Set<u32>,
    depth: nat,
    id: u32,
) -> (hops: nat)
    requires
        table.own_alive(value, owned, depth).1 is Ok,
        table.own_alive(value, owned, depth).0.contains(id),
        !owned.contains(id),
    ensures
        reaches(table, value, id, hops),
    decreases MAX_GENERIC_DEPTH - depth, 0nat,
{
    match value {
        ValueView::Resource(handle) => {
            if handle.id.0 == id {
                0
            } else {
                let record = table.record(handle)->Ok_0;
                let (k, hops) = one_claimed_is_reached(
                    table,
                    record.fields,
                    0,
                    owned.insert(handle.id.0),
                    depth + 1,
                    id,
                );
                assert(has_handle(value, handle));
                assert(reaches(table, table.records[handle.id.0 as int].fields[k], id, hops));
                hops + 1
            }
        },
        ValueView::Record { fields, .. } => {
            let (k, hops) = one_claimed_is_reached(table, fields, 0, owned, depth + 1, id);
            reached_through_a_child(table, value, k, id, hops);
            hops
        },
        ValueView::Variant { payload, .. } => {
            let (k, hops) = one_claimed_is_reached(table, payload, 0, owned, depth + 1, id);
            reached_through_a_child(table, value, k, id, hops);
            hops
        },
        _ => 0,
    }
}

proof fn one_claimed_is_reached(
    table: TableView,
    values: Seq<ValueView>,
    i: nat,
    owned: Set<u32>,
    depth: nat,
    id: u32,
) -> (at: (int, nat))
    requires
        table.own_alive_from(values, i, owned, depth).1 is Ok,
        table.own_alive_from(values, i, owned, depth).0.contains(id),
        !owned.contains(id),
    ensures
        i <= at.0 < values.len(),
        reaches(table, values[at.0], id, at.1),
    decreases MAX_GENERIC_DEPTH - depth, 1 + values.len() - i,
{
    let (owned1, _) = table.own_alive(values[i as int], owned, depth);
    if owned1.contains(id) {
        let hops = claimed_is_reached(table, values[i as int], owned, depth, id);
        (i as int, hops)
    } else {
        one_claimed_is_reached(table, values, i + 1, owned1, depth, id)
    }
}

/// What a plan came to know, the value reaches.
pub proof fn planned_is_reached(
    module: Module,
    table: TableView,
    value: ValueView,
    plan: PlanView,
    depth: nat,
    id: u32,
) -> (hops: nat)
    requires
        plan_inner(module, table, value, plan, depth).1 is Ok,
        plan_inner(module, table, value, plan, depth).0.reachable.contains(id),
        !plan.reachable.contains(id),
    ensures
        reaches(table, value, id, hops),
    decreases MAX_GENERIC_DEPTH - depth, 0nat,
{
    match value {
        ValueView::Resource(handle) => {
            if handle.id.0 == id {
                0
            } else {
                let record = table.record(handle)->Ok_0;
                let (k, hops) = one_claimed_is_reached(
                    table,
                    record.fields,
                    0,
                    plan.reachable.insert(handle.id.0),
                    1,
                    id,
                );
                assert(has_handle(value, handle));
                assert(reaches(table, table.records[handle.id.0 as int].fields[k], id, hops));
                hops + 1
            }
        },
        ValueView::Record { fields, .. } => {
            let (k, hops) = one_planned_is_reached(
                module,
                table,
                fields,
                0,
                Seq::empty(),
                plan,
                depth + 1,
                id,
            );
            reached_through_a_child(table, value, k, id, hops);
            hops
        },
        ValueView::Variant { payload, .. } => {
            let (k, hops) = one_planned_is_reached(
                module,
                table,
                payload,
                0,
                Seq::empty(),
                plan,
                depth + 1,
                id,
            );
            reached_through_a_child(table, value, k, id, hops);
            hops
        },
        _ => 0,
    }
}

proof fn one_planned_is_reached(
    module: Module,
    table: TableView,
    values: Seq<ValueView>,
    i: nat,
    done: Seq<ValueView>,
    plan: PlanView,
    depth: nat,
    id: u32,
) -> (at: (int, nat))
    requires
        plan_inner_from(module, table, values, i, done, plan, depth).1 is Ok,
        plan_inner_from(module, table, values, i, done, plan, depth).0.reachable.contains(id),
        !plan.reachable.contains(id),
    ensures
        i <= at.0 < values.len(),
        reaches(table, values[at.0], id, at.1),
    decreases MAX_GENERIC_DEPTH - depth, 1 + values.len() - i,
{
    let (plan1, r) = plan_inner(module, table, values[i as int], plan, depth);
    if plan1.reachable.contains(id) {
        let hops = planned_is_reached(module, table, values[i as int], plan, depth, id);
        (i as int, hops)
    } else {
        one_planned_is_reached(
            module,
            table,
            values,
            i + 1,
            done.push(r->Ok_0),
            plan1,
            depth,
            id,
        )
    }
}

// ---------------------------------------------------------------------
// Destroying.
// ---------------------------------------------------------------------

/// A drop destroys a value of the frame and forgets it: no other value
/// and no observation changes, what was recorded stays recorded, and no
/// handle that a dropped resource's value was works any more. Only what
/// may own something is dropped.
pub proof fn drop_forgets_its_value(
    module: Module,
    state: StateView,
    locals: LocalsView,
    context: ContextView,
    value: ValueId,
    depth: nat,
)
    ensures
        ({
            let (state1, locals1, r) = executed(
                module,
                state,
                Instruction::Drop { value },
                locals,
                context,
                depth,
            );
            &&& r is Ok ==> {
                &&& locals.values.contains_key(value.0)
                &&& locals1.values == locals.values.remove(value.0)
                &&& locals1.leases == locals.leases
                &&& module.affine_value(locals.values[value.0]) == Ok::<bool, ErrorView>(true)
                &&& dropping(module, state, locals.values[value.0]) == Ok::<StateView, ErrorView>(
                    state1,
                )
                &&& locals.values[value.0] matches ValueView::Resource(handle) ==> {
                    &&& handle.role is Owner
                    &&& state.table.observe(handle) is Ok
                    &&& state1.table.records[handle.id.0 as int].status is Dropped
                    &&& state1.events.last() == Event::Drop(handle.id)
                }
            }
            &&& r is Err ==> state1 == state && locals1 == locals
            &&& !(locals.values[value.0] is Resource) && !(locals.values[value.0] is Record) && !(
            locals.values[value.0] is Variant) ==> r is Err
        }),
{
    let (state1, locals1, r) = executed(
        module,
        state,
        Instruction::Drop { value },
        locals,
        context,
        depth,
    );
    if r is Ok {
        if let ValueView::Resource(handle) = locals.values[value.0] {
            destroyed_resource_is_gone(module, state, handle, state1, handle);
            resource_is_destroyed_after_what_it_owns(module, state, handle, state1);
        }
    }
}

// ---------------------------------------------------------------------
// Observing for a scope.
// ---------------------------------------------------------------------

/// The end of an observation ends its lease and takes it off the frame's
/// stack. It must be the innermost one, and its lease active with none
/// active inside; otherwise it is refused and nothing changes.
pub proof fn end_of_an_observation_releases(
    module: Module,
    state: StateView,
    locals: LocalsView,
    context: ContextView,
    observation: ObservationId,
    depth: nat,
)
    ensures
        ({
            let (state1, locals1, r) = executed(
                module,
                state,
                Instruction::EndObserve { observation },
                locals,
                context,
                depth,
            );
            let lease = locals.leases.last().1.0 as int;
            &&& r is Ok <==> {
                &&& locals.leases.len() > 0
                &&& locals.leases.last().0 == observation
                &&& lease < state.table.leases.len()
                &&& state.table.leases[lease].status is Active
                &&& forall|k: int|
                    0 <= k < state.table.leases.len() && (
                    #[trigger] state.table.leases[k]).status is Active
                        ==> state.table.leases[k].parent != Some(locals.leases.last().1)
            }
            &&& r is Ok ==> {
                &&& locals1.leases == locals.leases.drop_last()
                &&& locals1.values == locals.values
                &&& state1.events == state.events
                &&& state1.table.records == state.table.records
                &&& state1.table.leases.len() == state.table.leases.len()
                &&& state1.table.leases[lease].status is Ended
                &&& forall|k: int|
                    0 <= k < state.table.leases.len() && k != lease
                        ==> #[trigger] state1.table.leases[k] == state.table.leases[k]
                &&& forall|handle: ResourceHandle|
                    handle.lease == Some(locals.leases.last().1) ==> (
                    #[trigger] state1.table.observe(handle)) is Err
            }
            &&& r is Err ==> state1 == state && locals1 == locals
        }),
{
    let lease = locals.leases.last().1;
    if locals.leases.len() > 0 && state.table.encloses_active(lease) {
        let k = choose|k: int|
            0 <= k < state.table.leases.len() && (#[trigger] state.table.leases[k]).parent == Some(
                lease,
            ) && state.table.leases[k].status is Active;
        assert(state.table.leases[k].status is Active);
    }
}

} // verus!
