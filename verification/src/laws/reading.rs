use crate::frame::{executed, ContextView, LocalsView};
use crate::ids::{ObservationId, ResourceId, RuntimeObservationId, ValueId};
use crate::interpreter::StateView;
use crate::laws::graph::{reached_is_listed_once, reaches, what_is_reached_is_met};
use crate::laws::lease::observation_holds_what_it_sees;
use crate::laws::observation::{observing_view_carries_only_observers, only_observers};
use crate::laws::place::{
    checked_walk, found, observing_finds, part, straight, taken_is_what_was_observed,
    taken_place_is_empty, walkable,
};
use crate::laws::storage::moving_out_of_a_place;
use crate::laws::transfer::{carries, children};
use crate::place::{lemma_taken_keeps_shape, observed_at, same_shape, step_index, taking, PathIntent};
use crate::program::{
    Instruction, Module, OwnershipMode, Place, Projection, ValueKind, MAX_GENERIC_DEPTH,
};
use crate::structural::{origin, origin_within};
use crate::table::TableView;
use crate::types::{Ty, TyView};
use crate::validate::{owned_graph, validated, validated_from};
use crate::value::{ErrorView, ValueView};
use crate::value_ops::tombstone;
use vstd::prelude::*;

verus! {

// ---------------------------------------------------------------------
// What a view shows.
// ---------------------------------------------------------------------

/// Whether `view` shows `value`: it is the same, but for the role and the
/// lease of its handles.
pub open spec fn shows(value: ValueView, view: ValueView) -> bool
    decreases value,
{
    match value {
        ValueView::Resource(handle) => {
            &&& view matches ValueView::Resource(shown)
            &&& shown.id == handle.id
            &&& shown.generation == handle.generation
        },
        ValueView::Record { item, type_args, fields } => {
            &&& view matches ValueView::Record {
                item: item1,
                type_args: type_args1,
                fields: fields1,
            }
            &&& item1 == item
            &&& type_args1 == type_args
            &&& fields1.len() == fields.len()
            &&& forall|k: int| 0 <= k < fields.len() ==> shows(#[trigger] fields[k], fields1[k])
        },
        ValueView::Variant { item, type_args, case, payload } => {
            &&& view matches ValueView::Variant {
                item: item1,
                type_args: type_args1,
                case: case1,
                payload: payload1,
            }
            &&& item1 == item
            &&& type_args1 == type_args
            &&& case1 == case
            &&& payload1.len() == payload.len()
            &&& forall|k: int| 0 <= k < payload.len() ==> shows(#[trigger] payload[k], payload1[k])
        },
        _ => view == value,
    }
}

proof fn everything_shows_itself(value: ValueView)
    ensures
        shows(value, value),
    decreases value,
{
    match value {
        ValueView::Record { fields, .. } => {
            assert forall|k: int| 0 <= k < fields.len() implies shows(
                #[trigger] fields[k],
                fields[k],
            ) by {
                everything_shows_itself(fields[k]);
            }
        },
        ValueView::Variant { payload, .. } => {
            assert forall|k: int| 0 <= k < payload.len() implies shows(
                #[trigger] payload[k],
                payload[k],
            ) by {
                everything_shows_itself(payload[k]);
            }
        },
        _ => {},
    }
}

proof fn showing_goes_on(value: ValueView, view: ValueView, further: ValueView)
    requires
        shows(value, view),
        shows(view, further),
    ensures
        shows(value, further),
    decreases value,
{
    match value {
        ValueView::Record { fields, .. } => {
            let views = children(view);
            let ends = children(further);
            assert forall|k: int| 0 <= k < fields.len() implies shows(
                #[trigger] fields[k],
                ends[k],
            ) by {
                assert(shows(views[k], ends[k]));
                showing_goes_on(fields[k], views[k], ends[k]);
            }
        },
        ValueView::Variant { payload, .. } => {
            let views = children(view);
            let ends = children(further);
            assert forall|k: int| 0 <= k < payload.len() implies shows(
                #[trigger] payload[k],
                ends[k],
            ) by {
                assert(shows(views[k], ends[k]));
                showing_goes_on(payload[k], views[k], ends[k]);
            }
        },
        _ => {},
    }
}

/// An observing view shows what it is a view of.
pub proof fn observing_view_shows_it(
    table: TableView,
    value: ValueView,
    lease: Option<RuntimeObservationId>,
    depth: nat,
    view: ValueView,
)
    requires
        table.observing_view(value, lease, depth) == Ok::<ValueView, ErrorView>(view),
    ensures
        shows(value, view),
    decreases MAX_GENERIC_DEPTH - depth, 0nat,
{
    match value {
        ValueView::Record { fields, .. } => {
            observing_views_show_them(
                table,
                fields,
                0,
                Seq::empty(),
                lease,
                depth + 1,
                children(view),
            );
        },
        ValueView::Variant { payload, .. } => {
            observing_views_show_them(
                table,
                payload,
                0,
                Seq::empty(),
                lease,
                depth + 1,
                children(view),
            );
        },
        _ => {},
    }
}

proof fn observing_views_show_them(
    table: TableView,
    values: Seq<ValueView>,
    i: nat,
    done: Seq<ValueView>,
    lease: Option<RuntimeObservationId>,
    depth: nat,
    views: Seq<ValueView>,
)
    requires
        table.observing_views(values, i, done, lease, depth) == Ok::<Seq<ValueView>, ErrorView>(
            views,
        ),
        done.len() == i,
        i <= values.len(),
    ensures
        views.len() == values.len(),
        forall|k: int| 0 <= k < i ==> views[k] == done[k],
        forall|k: int| i <= k < values.len() ==> shows(#[trigger] values[k], views[k]),
    decreases MAX_GENERIC_DEPTH - depth, 1 + values.len() - i,
{
    if i < values.len() {
        let view = table.observing_view(values[i as int], lease, depth)->Ok_0;
        observing_views_show_them(table, values, i + 1, done.push(view), lease, depth, views);
        assert(views[i as int] == done.push(view)[i as int]);
        observing_view_shows_it(table, values[i as int], lease, depth, view);
    }
}

/// Reading at a place shows what lies there, however many observers the
/// way leads through.
pub proof fn reading_shows_what_lies_there(
    table: TableView,
    container: ValueView,
    other: ValueView,
    steps: Seq<Projection>,
    i: nat,
)
    requires
        shows(container, other),
        observed_at(table, other, steps, i) is Ok,
    ensures
        shows(found(table, container, steps, i), observed_at(table, other, steps, i)->Ok_0),
    decreases steps.len() - i,
{
    if i < steps.len() {
        let index = step_index(steps[i as int])->Ok_0;
        match other {
            ValueView::Resource(handle) => {
                let inner = table.observe_field(handle, index)->Ok_0;
                let raw = table.records[handle.id.0 as int].fields[index as int];
                if handle.role is Observer {
                    observing_view_shows_it(table, raw, handle.lease, 0, inner);
                } else {
                    everything_shows_itself(raw);
                }
                assert(container is Resource);
                assert(part(table, container, steps[i as int]) == raw);
                reading_shows_what_lies_there(table, raw, inner, steps, i + 1);
            },
            ValueView::Record { fields, .. } => {
                let raw = children(container)[index as int];
                assert(container is Record);
                assert(shows(raw, fields[index as int]));
                reading_shows_what_lies_there(table, raw, fields[index as int], steps, i + 1);
            },
            _ => {},
        }
    }
}

// ---------------------------------------------------------------------
// Which storage is read.
// ---------------------------------------------------------------------

/// Whether following `n` loads from `id` comes to `slot`, which is no
/// load's result.
pub open spec fn loaded_from(
    origins: Map<u32, ValueId>,
    id: ValueId,
    slot: ValueId,
    n: nat,
) -> bool
    decreases n,
{
    if n == 0 {
        id == slot && !origins.contains_key(slot.0)
    } else {
        origins.contains_key(id.0) && origins[id.0] != id && loaded_from(
            origins,
            origins[id.0],
            slot,
            (n - 1) as nat,
        )
    }
}

proof fn loads_are_followed(
    origins: Map<u32, ValueId>,
    id: ValueId,
    slot: ValueId,
    n: nat,
    steps: nat,
)
    requires
        loaded_from(origins, id, slot, n),
        n <= steps,
    ensures
        origin_within(origins, id, steps) == slot,
    decreases n,
{
    if n > 0 {
        loads_are_followed(origins, origins[id.0], slot, (n - 1) as nat, (steps - 1) as nat);
    }
}

/// A value stands for the slot that its loads lead back to, and for
/// itself where it is none.
pub proof fn load_stands_for_its_slot(
    origins: Map<u32, ValueId>,
    id: ValueId,
    slot: ValueId,
    n: nat,
)
    requires
        loaded_from(origins, id, slot, n),
        n <= origins.len() + 1,
    ensures
        origin(origins, id) == slot,
{
    loads_are_followed(origins, id, slot, n, origins.len() + 1);
}

// ---------------------------------------------------------------------
// Reading and taking.
// ---------------------------------------------------------------------

proof fn taking_leaves_nothing_there(
    table: TableView,
    root: ValueView,
    steps: Seq<Projection>,
    table1: TableView,
    value: ValueView,
    rest: ValueView,
)
    requires
        steps.len() > 0,
        straight(table, root, steps, 0),
        taking(table, root, steps) == Ok::<(TableView, ValueView, ValueView), ErrorView>(
            (table1, value, rest),
        ),
    ensures
        value == found(table, root, steps, 0),
        !tombstone(value),
        found(table1, rest, steps, 0) is Moved,
        same_shape(table, table1),
{
    checked_walk(table, root, steps, 0, PathIntent::Take, 0);
    observing_finds(table, root, steps, 0);
    taken_is_what_was_observed(table, root, steps, table1, value, rest);
    taken_place_is_empty(table, root, steps, table1, value, rest);
    lemma_taken_keeps_shape(table, root, steps, 0);
    everything_shows_itself(rest);
    reading_shows_what_lies_there(table1, rest, rest, steps, 0);
}

/// Taking a value out of a place gives what lay there and leaves the
/// place empty in the storage that its root's loads lead back to. No
/// other value of the frame changes, and nothing held by an observation
/// is taken.
pub proof fn taking_empties_the_storage(
    module: Module,
    state: StateView,
    locals: LocalsView,
    context: ContextView,
    result: ValueId,
    ty: Ty,
    place: Place,
    depth: nat,
    slot: ValueId,
    n: nat,
)
    requires
        loaded_from(context.origins, place.root, slot, n),
        n <= context.origins.len() + 1,
        result.0 != slot.0,
        place.projections@.len() > 0,
        straight(state.table, locals.values[slot.0], place.projections@, 0),
    ensures
        ({
            let (state1, locals1, r) = executed(
                module,
                state,
                Instruction::Value {
                    result,
                    ty,
                    kind: ValueKind::PlaceRead { place, mode: OwnershipMode::Transfer },
                },
                locals,
                context,
                depth,
            );
            &&& r is Ok ==> {
                &&& locals.values.contains_key(slot.0)
                &&& locals1.values.contains_key(slot.0)
                &&& found(state1.table, locals1.values[slot.0], place.projections@, 0) is Moved
                &&& locals1.values[result.0] == found(
                    state.table,
                    locals.values[slot.0],
                    place.projections@,
                    0,
                )
                &&& !(locals1.values[result.0] is Moved) && !(locals1.values[result.0] is Dropped)
                &&& locals1.values.remove(slot.0).remove(result.0) == locals.values.remove(
                    slot.0,
                ).remove(result.0)
                &&& locals1.leases == locals.leases
                &&& state1.events == state.events
                &&& same_shape(state.table, state1.table)
                &&& forall|id: u32| #[trigger]
                    carries(locals1.values[result.0], id) ==> !state.table.held(id)
            }
            &&& r is Err ==> state1 == state && locals1 == locals
        }),
{
    load_stands_for_its_slot(context.origins, place.root, slot, n);
    let (state1, locals1, r) = executed(
        module,
        state,
        Instruction::Value {
            result,
            ty,
            kind: ValueKind::PlaceRead { place, mode: OwnershipMode::Transfer },
        },
        locals,
        context,
        depth,
    );
    if r is Ok {
        let steps = place.projections@;
        let root = locals.values[slot.0];
        let (table1, value, rest) = taking(state.table, root, steps)->Ok_0;
        taking_leaves_nothing_there(state.table, root, steps, table1, value, rest);
        assert(locals1.values[slot.0] == rest);
        assert(locals1.values.remove(slot.0).remove(result.0) =~= locals.values.remove(
            slot.0,
        ).remove(result.0));
        assert forall|id: u32| #[trigger]
            carries(locals1.values[result.0], id) implies !state.table.held(id) by {
            moving_out_of_a_place(
                state.table,
                locals.values,
                context.origins,
                place,
                table1,
                locals.values.insert(slot.0, rest),
                value,
                id,
            );
        }
    }
}

/// Observing a place shows what lies there, through observers only, and
/// changes nothing else.
pub proof fn observing_shows_what_lies_there(
    module: Module,
    state: StateView,
    locals: LocalsView,
    context: ContextView,
    result: ValueId,
    ty: Ty,
    place: Place,
    depth: nat,
    slot: ValueId,
    n: nat,
)
    requires
        loaded_from(context.origins, place.root, slot, n),
        n <= context.origins.len() + 1,
    ensures
        ({
            let (state1, locals1, r) = executed(
                module,
                state,
                Instruction::Value {
                    result,
                    ty,
                    kind: ValueKind::PlaceRead { place, mode: OwnershipMode::Observe },
                },
                locals,
                context,
                depth,
            );
            &&& state1 == state
            &&& r is Ok ==> {
                &&& locals.values.contains_key(slot.0)
                &&& locals1.values == locals.values.insert(result.0, locals1.values[result.0])
                &&& locals1.leases == locals.leases
                &&& shows(
                    found(state.table, locals.values[slot.0], place.projections@, 0),
                    locals1.values[result.0],
                )
                &&& only_observers(locals1.values[result.0], None)
            }
            &&& r is Err ==> locals1 == locals
        }),
{
    load_stands_for_its_slot(context.origins, place.root, slot, n);
    let (state1, locals1, r) = executed(
        module,
        state,
        Instruction::Value {
            result,
            ty,
            kind: ValueKind::PlaceRead { place, mode: OwnershipMode::Observe },
        },
        locals,
        context,
        depth,
    );
    if r is Ok {
        let steps = place.projections@;
        let root = locals.values[slot.0];
        let seen = observed_at(state.table, root, steps, 0)->Ok_0;
        let view = locals1.values[result.0];
        everything_shows_itself(root);
        reading_shows_what_lies_there(state.table, root, root, steps, 0);
        observing_view_shows_it(state.table, seen, None, 0, view);
        showing_goes_on(found(state.table, root, steps, 0), seen, view);
        observing_view_carries_only_observers(state.table, seen, None, 0, view);
    }
}

// ---------------------------------------------------------------------
// Observing for a scope.
// ---------------------------------------------------------------------

/// Collecting what a well-formed value reaches collects exactly what
/// checking it meets.
pub proof fn reaching_meets_what_checking_meets(
    module: Module,
    table: TableView,
    value: ValueView,
    expected: Option<TyView>,
    seen: Set<u32>,
    depth: nat,
    order: Seq<ResourceId>,
    level: nat,
)
    requires
        validated(module, table, value, expected, seen, depth).1 is Ok,
        table.reach(value, seen, order, level).2 is Ok,
    ensures
        table.reach(value, seen, order, level).0 == validated(
            module,
            table,
            value,
            expected,
            seen,
            depth,
        ).0,
    decreases MAX_GENERIC_DEPTH - depth, 0nat,
{
    match value {
        ValueView::Resource(handle) => {
            let record = table.record(handle)->Ok_0;
            let declared = module.record_field_types(record.item, Seq::empty())->Ok_0;
            reaching_all_meets_what_checking_meets(
                module,
                table,
                record.fields,
                declared,
                0,
                seen.insert(handle.id.0),
                depth + 1,
                order.push(handle.id),
                level + 1,
            );
        },
        ValueView::Record { item, type_args, fields } => {
            let declared = module.record_field_types(item, type_args)->Ok_0;
            reaching_all_meets_what_checking_meets(
                module,
                table,
                fields,
                declared,
                0,
                seen,
                depth + 1,
                order,
                level + 1,
            );
        },
        ValueView::Variant { item, type_args, case, payload } => {
            let declared = module.case_payload_types(item, type_args, case)->Ok_0;
            reaching_all_meets_what_checking_meets(
                module,
                table,
                payload,
                declared,
                0,
                seen,
                depth + 1,
                order,
                level + 1,
            );
        },
        _ => {},
    }
}

proof fn reaching_all_meets_what_checking_meets(
    module: Module,
    table: TableView,
    values: Seq<ValueView>,
    declared: Seq<TyView>,
    i: nat,
    seen: Set<u32>,
    depth: nat,
    order: Seq<ResourceId>,
    level: nat,
)
    requires
        validated_from(module, table, values, declared, i, seen, depth).1 is Ok,
        table.reach_from(values, i, seen, order, level).2 is Ok,
    ensures
        table.reach_from(values, i, seen, order, level).0 == validated_from(
            module,
            table,
            values,
            declared,
            i,
            seen,
            depth,
        ).0,
    decreases MAX_GENERIC_DEPTH - depth, 1 + values.len() - i,
{
    if i < values.len() {
        let value = values[i as int];
        let expected = Some(declared[i as int]);
        let (seen1, order1, _) = table.reach(value, seen, order, level);
        reaching_meets_what_checking_meets(
            module,
            table,
            value,
            expected,
            seen,
            depth,
            order,
            level,
        );
        reaching_all_meets_what_checking_meets(
            module,
            table,
            values,
            declared,
            i + 1,
            seen1,
            depth,
            order1,
            level,
        );
    }
}

/// The begin of an observation shows what lies at its place, through
/// observers bound to a new active lease, which goes on top of the frame's
/// stack, inside the one that was there. While the lease is active it
/// holds every resource its view carries; and where what lies there is
/// well-formed and an owner can walk to it, every resource it reaches,
/// however far away. No resource
/// and no other value changes. An observation that is active already does
/// not begin again.
pub proof fn begin_of_an_observation_holds(
    module: Module,
    state: StateView,
    locals: LocalsView,
    context: ContextView,
    result: ValueId,
    ty: Ty,
    observation: ObservationId,
    place: Place,
    depth: nat,
    slot: ValueId,
    n: nat,
)
    requires
        loaded_from(context.origins, place.root, slot, n),
        n <= context.origins.len() + 1,
        state.table.leases.len() <= u32::MAX,
    ensures
        ({
            let (state1, locals1, r) = executed(
                module,
                state,
                Instruction::Value {
                    result,
                    ty,
                    kind: ValueKind::ObservePlace { observation, place },
                },
                locals,
                context,
                depth,
            );
            let lease = state.table.leases.len() as int;
            let lies_there = found(state.table, locals.values[slot.0], place.projections@, 0);
            &&& state1.table.records == state.table.records
            &&& state1.events == state.events
            &&& (exists|k: int|
                0 <= k < locals.leases.len() && (#[trigger] locals.leases[k]).0 == observation)
                ==> r is Err && state1 == state && locals1 == locals
            &&& r is Ok ==> {
                &&& locals.values.contains_key(slot.0)
                &&& locals1.values == locals.values.insert(result.0, locals1.values[result.0])
                &&& shows(lies_there, locals1.values[result.0])
                &&& only_observers(
                    locals1.values[result.0],
                    Some(RuntimeObservationId(lease as u32)),
                )
                &&& locals1.leases == locals.leases.push(
                    (observation, RuntimeObservationId(lease as u32)),
                )
                &&& state1.table.leases.len() == lease + 1
                &&& forall|k: int|
                    0 <= k < lease ==> #[trigger] state1.table.leases[k] == state.table.leases[k]
                &&& state1.table.leases[lease].status is Active
                &&& state1.table.leases[lease].parent == if locals.leases.len() > 0 {
                    Some(locals.leases.last().1)
                } else {
                    None
                }
                &&& forall|id: u32| #[trigger]
                    carries(locals1.values[result.0], id) ==> state1.table.held(id)
                &&& owned_graph(module, state.table, lies_there) is Ok && walkable(
                    state.table,
                    locals.values[slot.0],
                    place.projections@,
                    0,
                ) ==> forall|id: u32, hops: nat| #[trigger]
                    reaches(state.table, lies_there, id, hops)
                        ==> state1.table.leases[lease].observed.contains(ResourceId(id))
            }
        }),
{
    load_stands_for_its_slot(context.origins, place.root, slot, n);
    let (state1, locals1, r) = executed(
        module,
        state,
        Instruction::Value { result, ty, kind: ValueKind::ObservePlace { observation, place } },
        locals,
        context,
        depth,
    );
    let table = state.table;
    if r is Ok {
        let steps = place.projections@;
        let root = locals.values[slot.0];
        let seen = observed_at(table, root, steps, 0)->Ok_0;
        let view = locals1.values[result.0];
        let lease = table.next_lease();
        let lies_there = found(table, root, steps, 0);
        everything_shows_itself(root);
        reading_shows_what_lies_there(table, root, root, steps, 0);
        observing_view_shows_it(state1.table, seen, Some(lease), 0, view);
        showing_goes_on(lies_there, seen, view);
        observation_holds_what_it_sees(
            table,
            locals.values,
            context.origins,
            locals.leases,
            observation,
            place,
            state1.table,
            locals1.leases,
            view,
        );
        if owned_graph(module, table, lies_there) is Ok && walkable(table, root, steps, 0) {
            assert forall|id: u32, hops: nat| #[trigger]
                reaches(table, lies_there, id, hops) implies state1.table.leases[
                table.leases.len() as int].observed.contains(ResourceId(id)) by {
                let (ids, observed, _) = table.reach(seen, Set::empty(), Seq::empty(), 0);
                reached_is_listed_once(table, seen, Set::empty(), Seq::empty(), 0);
                observing_finds(table, root, steps, 0);
                reaching_meets_what_checking_meets(
                    module,
                    table,
                    seen,
                    None,
                    Set::empty(),
                    0,
                    Seq::empty(),
                    0,
                );
                what_is_reached_is_met(
                    module,
                    table,
                    lies_there,
                    None,
                    Set::empty(),
                    0,
                    id,
                    hops,
                );
                assert(ids.contains(id));
                assert(observed.contains(ResourceId(id)));
            }
        }
    }
}

} // verus!
