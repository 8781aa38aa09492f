use crate::frame::{executed, ContextView, LocalsView};
use crate::ids::{ResourceId, RuntimeObservationId, ValueId};
use crate::interpreter::StateView;
use crate::laws::boundary::planning_reaches_what_is_met;
use crate::laws::call::owning_collects_what_is_carried;
use crate::laws::graph::{met_twice, nothing_is_met_twice, reaches, what_is_reached_is_met};
use crate::laws::place::{found, part};
use crate::laws::storage::owned_at;
use crate::laws::transfer::{carries, has_handle, live_throughout, planned_graph_is_alive};
use crate::ownership::{plan_inner, plan_inner_from, plan_transferring, PlanView};
use crate::place::{passed_through, path_check, step_index, store_target, stored, PathIntent};
use crate::program::{Instruction, Module, Place, Projection, MAX_GENERIC_DEPTH};
use crate::structural::{disjoint_target, origin, place_check, place_store, place_type};
use crate::table::TableView;
use crate::types::TyView;
use crate::validate::{owned_graph, validated, validated_from};
use crate::value::{ErrorView, ResourceHandle, ValueView};
use crate::value_ops::tombstone;
use vstd::prelude::*;

verus! {

// ---------------------------------------------------------------------
// What kind of error a refusal is.
// ---------------------------------------------------------------------

/// Whether a refusal, if it is one, is of an invalid operation.
pub open spec fn invalid_at_most<T>(r: Result<T, ErrorView>) -> bool {
    r matches Err(e) ==> e is InvalidOperation
}

proof fn checking_refuses_as_invalid(
    module: Module,
    table: TableView,
    value: ValueView,
    expected: Option<TyView>,
    seen: Set<u32>,
    depth: nat,
)
    ensures
        invalid_at_most(validated(module, table, value, expected, seen, depth).1),
    decreases MAX_GENERIC_DEPTH - depth, 0nat,
{
    if depth < MAX_GENERIC_DEPTH {
        match value {
            ValueView::Resource(handle) => {
                if let Ok(record) = table.record(handle) {
                    if let Ok(declared) = module.record_field_types(record.item, Seq::empty()) {
                        checking_all_refuses_as_invalid(
                            module,
                            table,
                            record.fields,
                            declared,
                            0,
                            seen.insert(handle.id.0),
                            depth + 1,
                        );
                    }
                }
            },
            ValueView::Record { item, type_args, fields } => {
                if let Ok(declared) = module.record_field_types(item, type_args) {
                    checking_all_refuses_as_invalid(
                        module,
                        table,
                        fields,
                        declared,
                        0,
                        seen,
                        depth + 1,
                    );
                }
            },
            ValueView::Variant { item, type_args, case, payload } => {
                if let Ok(declared) = module.case_payload_types(item, type_args, case) {
                    checking_all_refuses_as_invalid(
                        module,
                        table,
                        payload,
                        declared,
                        0,
                        seen,
                        depth + 1,
                    );
                }
            },
            _ => {},
        }
    }
}

proof fn checking_all_refuses_as_invalid(
    module: Module,
    table: TableView,
    values: Seq<ValueView>,
    declared: Seq<TyView>,
    i: nat,
    seen: Set<u32>,
    depth: nat,
)
    ensures
        invalid_at_most(validated_from(module, table, values, declared, i, seen, depth).1),
    decreases MAX_GENERIC_DEPTH - depth, 1 + values.len() - i,
{
    if i < values.len() {
        let value = values[i as int];
        let expected = Some(declared[i as int]);
        let (seen1, r) = validated(module, table, value, expected, seen, depth);
        checking_refuses_as_invalid(module, table, value, expected, seen, depth);
        if r is Ok {
            checking_all_refuses_as_invalid(
                module,
                table,
                values,
                declared,
                i + 1,
                seen1,
                depth,
            );
        }
    }
}

proof fn owning_refuses_as_invalid(
    table: TableView,
    value: ValueView,
    owned: Set<u32>,
    depth: nat,
)
    ensures
        invalid_at_most(table.own(value, owned, depth).1),
        invalid_at_most(table.own_alive(value, owned, depth).1),
    decreases MAX_GENERIC_DEPTH - depth, 0nat,
{
    if depth < MAX_GENERIC_DEPTH {
        match value {
            ValueView::Resource(handle) => {
                if let Ok(record) = table.record(handle) {
                    owning_all_refuses_as_invalid(
                        table,
                        record.fields,
                        0,
                        owned.insert(handle.id.0),
                        depth + 1,
                    );
                }
            },
            ValueView::Record { fields, .. } => {
                owning_all_refuses_as_invalid(table, fields, 0, owned, depth + 1);
            },
            ValueView::Variant { payload, .. } => {
                owning_all_refuses_as_invalid(table, payload, 0, owned, depth + 1);
            },
            _ => {},
        }
    }
}

proof fn owning_all_refuses_as_invalid(
    table: TableView,
    values: Seq<ValueView>,
    i: nat,
    owned: Set<u32>,
    depth: nat,
)
    ensures
        invalid_at_most(table.own_from(values, i, owned, depth).1),
        invalid_at_most(table.own_alive_from(values, i, owned, depth).1),
    decreases MAX_GENERIC_DEPTH - depth, 1 + values.len() - i,
{
    if i < values.len() {
        let value = values[i as int];
        owning_refuses_as_invalid(table, value, owned, depth);
        owning_all_refuses_as_invalid(
            table,
            values,
            i + 1,
            table.own(value, owned, depth).0,
            depth,
        );
        owning_all_refuses_as_invalid(
            table,
            values,
            i + 1,
            table.own_alive(value, owned, depth).0,
            depth,
        );
    }
}

proof fn planning_refuses_as_invalid(
    module: Module,
    table: TableView,
    value: ValueView,
    plan: PlanView,
    depth: nat,
)
    ensures
        invalid_at_most(plan_inner(module, table, value, plan, depth).1),
    decreases MAX_GENERIC_DEPTH - depth, 0nat,
{
    if depth < MAX_GENERIC_DEPTH {
        match value {
            ValueView::Resource(handle) => {
                if let Ok(record) = table.record(handle) {
                    owning_all_refuses_as_invalid(
                        table,
                        record.fields,
                        0,
                        plan.reachable.insert(handle.id.0),
                        1,
                    );
                }
            },
            ValueView::Record { fields, .. } => {
                planning_all_refuses_as_invalid(
                    module,
                    table,
                    fields,
                    0,
                    Seq::empty(),
                    plan,
                    depth + 1,
                );
            },
            ValueView::Variant { payload, .. } => {
                planning_all_refuses_as_invalid(
                    module,
                    table,
                    payload,
                    0,
                    Seq::empty(),
                    plan,
                    depth + 1,
                );
            },
            _ => {},
        }
    }
}

proof fn planning_all_refuses_as_invalid(
    module: Module,
    table: TableView,
    values: Seq<ValueView>,
    i: nat,
    done: Seq<ValueView>,
    plan: PlanView,
    depth: nat,
)
    ensures
        invalid_at_most(plan_inner_from(module, table, values, i, done, plan, depth).1),
    decreases MAX_GENERIC_DEPTH - depth, 1 + values.len() - i,
{
    if i < values.len() {
        let (plan1, r) = plan_inner(module, table, values[i as int], plan, depth);
        planning_refuses_as_invalid(module, table, values[i as int], plan, depth);
        if r is Ok {
            planning_all_refuses_as_invalid(
                module,
                table,
                values,
                i + 1,
                done.push(r->Ok_0),
                plan1,
                depth,
            );
        }
    }
}

proof fn viewing_refuses_as_invalid(
    table: TableView,
    value: ValueView,
    lease: Option<RuntimeObservationId>,
    depth: nat,
)
    ensures
        invalid_at_most(table.observing_view(value, lease, depth)),
    decreases MAX_GENERIC_DEPTH - depth, 0nat,
{
    if depth < MAX_GENERIC_DEPTH {
        match value {
            ValueView::Record { fields, .. } => {
                viewing_all_refuses_as_invalid(
                    table,
                    fields,
                    0,
                    Seq::empty(),
                    lease,
                    depth + 1,
                );
            },
            ValueView::Variant { payload, .. } => {
                viewing_all_refuses_as_invalid(
                    table,
                    payload,
                    0,
                    Seq::empty(),
                    lease,
                    depth + 1,
                );
            },
            _ => {},
        }
    }
}

proof fn viewing_all_refuses_as_invalid(
    table: TableView,
    values: Seq<ValueView>,
    i: nat,
    done: Seq<ValueView>,
    lease: Option<RuntimeObservationId>,
    depth: nat,
)
    ensures
        invalid_at_most(table.observing_views(values, i, done, lease, depth)),
    decreases MAX_GENERIC_DEPTH - depth, 1 + values.len() - i,
{
    if i < values.len() {
        viewing_refuses_as_invalid(table, values[i as int], lease, depth);
        if let Ok(view) = table.observing_view(values[i as int], lease, depth) {
            viewing_all_refuses_as_invalid(
                table,
                values,
                i + 1,
                done.push(view),
                lease,
                depth,
            );
        }
    }
}

proof fn reading_a_field_refuses_as_invalid(
    table: TableView,
    handle: ResourceHandle,
    index: usize,
)
    ensures
        invalid_at_most(table.observe_field(handle, index)),
{
    if let Ok(record) = table.observe(handle) {
        if index < record.fields.len() {
            viewing_refuses_as_invalid(table, record.fields[index as int], handle.lease, 0);
        }
    }
}

proof fn walking_refuses_as_invalid(
    module: Module,
    table: TableView,
    container: ValueView,
    steps: Seq<Projection>,
    i: nat,
    out: Seq<ResourceId>,
    value: ValueView,
)
    ensures
        invalid_at_most(store_target(table, container, steps, i)),
        invalid_at_most(passed_through(table, container, steps, i, out).1),
        invalid_at_most(place_type(module, table, container, steps, i)),
        invalid_at_most(stored(table, container, steps, i, value).1),
    decreases steps.len() - i,
{
    if i < steps.len() {
        if let Ok(index) = step_index(steps[i as int]) {
            match container {
                ValueView::Resource(handle) => {
                    reading_a_field_refuses_as_invalid(table, handle, index);
                    if let Ok(inner) = table.observe_field(handle, index) {
                        walking_refuses_as_invalid(
                            module,
                            table,
                            inner,
                            steps,
                            i + 1,
                            out.push(handle.id),
                            value,
                        );
                    }
                },
                ValueView::Record { fields, .. } => {
                    if index < fields.len() {
                        walking_refuses_as_invalid(
                            module,
                            table,
                            fields[index as int],
                            steps,
                            i + 1,
                            out,
                            value,
                        );
                    }
                },
                _ => {},
            }
        }
    }
}

proof fn checking_a_path_refuses_as_invalid(
    table: TableView,
    container: ValueView,
    steps: Seq<Projection>,
    i: nat,
    intent: PathIntent,
    observed: bool,
    depth: nat,
)
    ensures
        invalid_at_most(path_check(table, container, steps, i, intent, observed, depth)),
    decreases steps.len() - i,
{
    if i < steps.len() {
        if let Ok(index) = step_index(steps[i as int]) {
            match container {
                ValueView::Resource(handle) => {
                    if let Ok(record) = table.observe(handle) {
                        let crossed = observed || !(handle.role is Owner);
                        checking_a_path_refuses_as_invalid(
                            table,
                            record.fields[index as int],
                            steps,
                            i + 1,
                            intent,
                            crossed,
                            depth + 1,
                        );
                    }
                },
                ValueView::Record { fields, .. } => {
                    checking_a_path_refuses_as_invalid(
                        table,
                        fields[index as int],
                        steps,
                        i + 1,
                        intent,
                        observed,
                        depth + 1,
                    );
                },
                _ => {},
            }
        }
    }
}

/// A structural store that is refused is refused as an invalid operation.
pub proof fn structural_store_refuses_as_invalid(
    module: Module,
    table: TableView,
    frame: Map<u32, ValueView>,
    origins: Map<u32, ValueId>,
    place: Place,
    source: ValueId,
)
    ensures
        place_store(module, table, frame, origins, place, source) matches Err(e)
            ==> e is InvalidOperation,
{
    let root = frame[origin(origins, place.root).0];
    let incoming = frame[source.0];
    let steps = place.projections@;
    let start = PlanView::empty();
    checking_refuses_as_invalid(module, table, incoming, None, Set::empty(), 0);
    planning_refuses_as_invalid(module, table, incoming, start, 0);
    let (plan, planned) = plan_transferring(module, table, incoming, start, 0);
    assert(invalid_at_most(planned));
    let moved = planned->Ok_0;
    walking_refuses_as_invalid(module, table, root, steps, 0, Seq::empty(), moved);
    owning_refuses_as_invalid(table, root, Set::empty(), 0);
    assert(invalid_at_most(disjoint_target(table, root, steps, plan.reachable)));
    if let Ok(declared) = place_type(module, table, root, steps, 0) {
        checking_refuses_as_invalid(module, table, incoming, Some(declared), Set::empty(), 0);
    }
    checking_a_path_refuses_as_invalid(table, root, steps, 0, PathIntent::Store, false, 0);
}

// ---------------------------------------------------------------------
// What a structural store is refused for.
// ---------------------------------------------------------------------

/// Whether the steps from position `i` on pass through `handle`.
pub open spec fn passes(
    table: TableView,
    container: ValueView,
    steps: Seq<Projection>,
    i: nat,
    handle: ResourceHandle,
) -> bool
    decreases steps.len() - i,
{
    i < steps.len() && {
        ||| container == ValueView::Resource(handle)
        ||| passes(table, part(table, container, steps[i as int]), steps, i + 1, handle)
    }
}

/// A field can be reached for a store only through handles that own and
/// work, and only where it is empty.
proof fn store_target_is_open(
    table: TableView,
    container: ValueView,
    steps: Seq<Projection>,
    i: nat,
)
    requires
        store_target(table, container, steps, i) is Ok,
    ensures
        tombstone(found(table, container, steps, i)),
        forall|handle: ResourceHandle| #[trigger]
            passes(table, container, steps, i, handle) ==> handle.role is Owner && table.observe(
                handle,
            ) is Ok,
    decreases steps.len() - i,
{
    let inner = part(table, container, steps[i as int]);
    if i + 1 < steps.len() {
        store_target_is_open(table, inner, steps, i + 1);
    }
    assert(found(table, container, steps, i) == found(table, inner, steps, i + 1));
    assert forall|handle: ResourceHandle| #[trigger]
        passes(table, container, steps, i, handle) implies handle.role is Owner && table.observe(
        handle,
    ) is Ok by {
        if container != ValueView::Resource(handle) {
            assert(passes(table, inner, steps, i + 1, handle));
        }
    }
}

/// Each field of a resource that an owned value carries is owned, and
/// what it owns the value owns.
proof fn fields_are_owned_too(
    table: TableView,
    value: ValueView,
    owned: Set<u32>,
    depth: nat,
    handle: ResourceHandle,
    k: int,
) -> (at: (Set<u32>, nat))
    requires
        table.own(value, owned, depth).1 is Ok,
        has_handle(value, handle),
        0 <= k < table.records[handle.id.0 as int].fields.len(),
    ensures
        table.own(table.records[handle.id.0 as int].fields[k], at.0, at.1).1 is Ok,
        table.own(table.records[handle.id.0 as int].fields[k], at.0, at.1).0.subset_of(
            table.own(value, owned, depth).0,
        ),
    decreases MAX_GENERIC_DEPTH - depth,
{
    match value {
        ValueView::Resource(_) => {
            let record = table.record(handle)->Ok_0;
            let more = owned.insert(handle.id.0);
            let owned_k = owned_at(table, record.fields, 0, more, depth + 1, k);
            (owned_k, depth + 1)
        },
        ValueView::Record { fields, .. } => {
            let j = choose|j: int|
                0 <= j < fields.len() && has_handle(#[trigger] fields[j], handle);
            let owned_j = owned_at(table, fields, 0, owned, depth + 1, j);
            fields_are_owned_too(table, fields[j], owned_j, depth + 1, handle, k)
        },
        ValueView::Variant { payload, .. } => {
            let j = choose|j: int|
                0 <= j < payload.len() && has_handle(#[trigger] payload[j], handle);
            let owned_j = owned_at(table, payload, 0, owned, depth + 1, j);
            fields_are_owned_too(table, payload[j], owned_j, depth + 1, handle, k)
        },
        _ => (owned, depth),
    }
}

/// Collecting what a value owns collects every resource that it reaches,
/// however far away.
pub proof fn owning_collects_what_is_reached(
    table: TableView,
    value: ValueView,
    owned: Set<u32>,
    depth: nat,
    id: u32,
    hops: nat,
)
    requires
        table.own(value, owned, depth).1 is Ok,
        reaches(table, value, id, hops),
    ensures
        table.own(value, owned, depth).0.contains(id),
    decreases hops,
{
    if carries(value, id) {
        owning_collects_what_is_carried(table, value, owned, depth, id);
    } else {
        let (handle, k) = choose|handle: ResourceHandle, k: int|
            #![trigger has_handle(value, handle), table.records[handle.id.0 as int].fields[k]]
            has_handle(value, handle) && 0 <= k < table.records[handle.id.0 as int].fields.len()
                && reaches(
                table,
                table.records[handle.id.0 as int].fields[k],
                id,
                (hops - 1) as nat,
            );
        let (owned_k, depth_k) = fields_are_owned_too(table, value, owned, depth, handle, k);
        owning_collects_what_is_reached(
            table,
            table.records[handle.id.0 as int].fields[k],
            owned_k,
            depth_k,
            id,
            (hops - 1) as nat,
        );
    }
}

/// Whether there is a reason to refuse moving `incoming` into the field at
/// the end of `steps` from `root`:
///
/// - the field is not empty;
/// - the way to it passes through a handle that observes, or whose
///   resource has moved on or was destroyed;
/// - a handle that `incoming` carries, or that lies in what it owns, is
///   such a handle;
/// - `incoming` disagrees with its own declaration, or with the type the
///   field declares;
/// - a resource is met twice on the way from `incoming`; or
/// - a resource is reached from both sides.
pub open spec fn unfit_to_place(
    module: Module,
    table: TableView,
    root: ValueView,
    steps: Seq<Projection>,
    incoming: ValueView,
) -> bool {
    ||| !tombstone(found(table, root, steps, 0))
    ||| exists|handle: ResourceHandle| #[trigger]
        passes(table, root, steps, 0, handle) && (handle.role is Observer || table.observe(handle)
            is Err)
    ||| exists|hops: nat| !#[trigger] live_throughout(table, incoming, hops)
    ||| owned_graph(module, table, incoming) is Err
    ||| place_check(module, table, root, steps, incoming) is Err
    ||| exists|id: u32, hops: nat| #[trigger] met_twice(table, incoming, id, hops)
    ||| exists|id: u32, hops: nat, far: nat| #[trigger]
        reaches(table, incoming, id, hops) && #[trigger] reaches(table, root, id, far)
}

proof fn completed_store_was_fit(
    module: Module,
    table: TableView,
    frame: Map<u32, ValueView>,
    origins: Map<u32, ValueId>,
    place: Place,
    source: ValueId,
)
    requires
        place_store(module, table, frame, origins, place, source) is Ok,
    ensures
        !unfit_to_place(
            module,
            table,
            frame[origin(origins, place.root).0],
            place.projections@,
            frame[source.0],
        ),
{
    let root = frame[origin(origins, place.root).0];
    let incoming = frame[source.0];
    let steps = place.projections@;
    let plan = plan_inner(module, table, incoming, PlanView::empty(), 0).0;
    let owned = table.own(root, Set::empty(), 0).0;
    let met = validated(module, table, incoming, None, Set::empty(), 0).0;
    store_target_is_open(table, root, steps, 0);
    assert forall|hops: nat| #[trigger] live_throughout(table, incoming, hops) by {
        planned_graph_is_alive(module, table, incoming, PlanView::empty(), 0, hops);
    }
    assert forall|id: u32, hops: nat| !#[trigger] met_twice(table, incoming, id, hops) by {
        nothing_is_met_twice(module, table, incoming, None, Set::empty(), 0, id, hops);
    }
    planning_reaches_what_is_met(
        module,
        table,
        incoming,
        None,
        Set::empty(),
        0,
        PlanView::empty(),
        0,
    );
    assert forall|id: u32, hops: nat, far: nat| #[trigger]
        reaches(table, incoming, id, hops) implies !#[trigger] reaches(table, root, id, far) by {
        if reaches(table, root, id, far) {
            what_is_reached_is_met(
                module,
                table,
                incoming,
                None,
                Set::empty(),
                0,
                id,
                hops,
            );
            owning_collects_what_is_reached(table, root, Set::empty(), 0, id, far);
            assert(met.contains(id));
            assert(plan.reachable.contains(id));
            assert(owned.contains(id));
        }
    }
}

/// A structural store is refused for each of its reasons, as an invalid
/// operation: where the two sides stand for the same storage, and where
/// what is to be stored is [`unfit_to_place`].
pub proof fn unfit_store_is_refused(
    module: Module,
    table: TableView,
    frame: Map<u32, ValueView>,
    origins: Map<u32, ValueId>,
    place: Place,
    source: ValueId,
)
    requires
        origin(origins, source) == origin(origins, place.root) || unfit_to_place(
            module,
            table,
            frame[origin(origins, place.root).0],
            place.projections@,
            frame[source.0],
        ),
    ensures
        place_store(module, table, frame, origins, place, source) is Err,
        place_store(module, table, frame, origins, place, source)->Err_0 is InvalidOperation,
{
    structural_store_refuses_as_invalid(module, table, frame, origins, place, source);
    if place_store(module, table, frame, origins, place, source) is Ok {
        completed_store_was_fit(module, table, frame, origins, place, source);
    }
}

/// A structural store that is refused changes neither the frame nor the
/// state, and is refused again with the same error.
pub proof fn refused_store_changes_nothing(
    module: Module,
    state: StateView,
    locals: LocalsView,
    context: ContextView,
    place: Place,
    source: ValueId,
    depth: nat,
)
    requires
        place_store(
            module,
            state.table,
            locals.values,
            context.origins,
            place,
            source,
        ) is Err,
    ensures
        ({
            let store = Instruction::StorePlace { place, value: source };
            let (state1, locals1, outcome) = executed(
                module,
                state,
                store,
                locals,
                context,
                depth,
            );
            &&& state1 == state
            &&& locals1 == locals
            &&& outcome is Err
            &&& executed(module, state1, store, locals1, context, depth).2 == outcome
        }),
{
}

} // verus!
