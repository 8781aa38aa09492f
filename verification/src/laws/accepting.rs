use crate::destroy::{drop_plan, drop_plan_below};
use crate::eval::{filled, filling_check, plan_values};
use crate::frame::{executed, ContextView, LocalsView};
use crate::ids::{ItemId, ObservationId, ResourceId, ValueId};
use crate::interpreter::StateView;
use crate::laws::dispatch::{
    closed_instances, in_order, reading_keeps_the_order, type_arguments_are_instances,
};
use crate::laws::fitting::{fill, filling_goes_in_order, fills};
use crate::laws::graph::{checking_all_meets_each_once, checking_meets_each_once, reaches};
use crate::laws::holding::{equal_values, equal_values_compare_so};
use crate::laws::lease::lease_check_passes_where_nothing_is_held;
use crate::laws::making::holds_in_field;
use crate::laws::operators::Scene;
use crate::laws::owed::{
    checked_value_nests, child_lives, field_lives, free, lives, met_is_reached, movable,
    movable_value_is_planned, owner_lives, owning, working_value_can_be_observed, works,
};
use crate::laws::place::{checked_walk, found, observing_finds, part, walkable};
use crate::laws::reading::{
    load_stands_for_its_slot, loaded_from, reaching_meets_what_checking_meets,
};
use crate::laws::step::{nests_within, reached_through_a_child};
use crate::laws::transfer::{children, has_handle};
use crate::laws::typing::primitive_is_not_affine;
use crate::ownership::{plan_transferring, PlanView};
use crate::place::{
    lemma_checked_path_is_stored, lemma_checked_path_is_taken, passed_through, step_index,
    store_target, PathIntent,
};
use crate::program::{
    Instruction, Module, OwnershipMode, Place, Projection, ValueKind, MAX_GENERIC_DEPTH,
};
use crate::structural::{
    claimed_before, claims_check, innermost, payload_leases, place_check, share_identity,
};
use crate::table::TableView;
use crate::types::{ty_views, Ty, TyView};
use crate::validate::{owned_graph, validated, validated_from};
use crate::value::{ErrorView, ResourceHandle, ValueView};
use crate::value_ops::tombstone;
use vstd::prelude::*;

verus! {

broadcast use crate::types::group_type_views;

// ---------------------------------------------------------------------
// Reading, taking and observing at a place.
// ---------------------------------------------------------------------

proof fn checked_value_is_collected(
    module: Module,
    table: TableView,
    value: ValueView,
    expected: Option<TyView>,
    seen: Set<u32>,
    depth: nat,
    known: Set<u32>,
    order: Seq<ResourceId>,
    level: nat,
)
    requires
        validated(module, table, value, expected, seen, depth).1 is Ok,
        level <= depth,
    ensures
        table.reach(value, known, order, level).2 is Ok,
    decreases MAX_GENERIC_DEPTH - depth, 0nat,
{
    match value {
        ValueView::Resource(handle) => {
            let record = table.record(handle)->Ok_0;
            let declared = module.record_field_types(record.item, Seq::empty())->Ok_0;
            checked_values_are_collected(
                module,
                table,
                record.fields,
                declared,
                0,
                seen.insert(handle.id.0),
                depth + 1,
                known.insert(handle.id.0),
                order.push(handle.id),
                level + 1,
            );
        },
        ValueView::Record { item, type_args, fields } => {
            let declared = module.record_field_types(item, type_args)->Ok_0;
            checked_values_are_collected(
                module,
                table,
                fields,
                declared,
                0,
                seen,
                depth + 1,
                known,
                order,
                level + 1,
            );
        },
        ValueView::Variant { item, type_args, case, payload } => {
            let declared = module.case_payload_types(item, type_args, case)->Ok_0;
            checked_values_are_collected(
                module,
                table,
                payload,
                declared,
                0,
                seen,
                depth + 1,
                known,
                order,
                level + 1,
            );
        },
        _ => {},
    }
}

proof fn checked_values_are_collected(
    module: Module,
    table: TableView,
    values: Seq<ValueView>,
    declared: Seq<TyView>,
    i: nat,
    seen: Set<u32>,
    depth: nat,
    known: Set<u32>,
    order: Seq<ResourceId>,
    level: nat,
)
    requires
        validated_from(module, table, values, declared, i, seen, depth).1 is Ok,
        level <= depth,
    ensures
        table.reach_from(values, i, known, order, level).2 is Ok,
    decreases MAX_GENERIC_DEPTH - depth, 1 + values.len() - i,
{
    if i < values.len() {
        let value = values[i as int];
        let expected = Some(declared[i as int]);
        let seen1 = validated(module, table, value, expected, seen, depth).0;
        checked_value_is_collected(
            module,
            table,
            value,
            expected,
            seen,
            depth,
            known,
            order,
            level,
        );
        let (known1, order1, _) = table.reach(value, known, order, level);
        checked_values_are_collected(
            module,
            table,
            values,
            declared,
            i + 1,
            seen1,
            depth,
            known1,
            order1,
            level,
        );
    }
}

proof fn free_value_passes(
    module: Module,
    table: TableView,
    value: ValueView,
    expected: Option<TyView>,
    depth: nat,
    what: Seq<char>,
)
    requires
        validated(module, table, value, expected, Set::empty(), depth).1 is Ok,
        free(table, value),
    ensures
        table.lease_check_value(value, what) is Ok,
{
    checked_value_is_collected(
        module,
        table,
        value,
        expected,
        Set::empty(),
        depth,
        Set::empty(),
        Seq::empty(),
        0,
    );
    reaching_meets_what_checking_meets(
        module,
        table,
        value,
        expected,
        Set::empty(),
        depth,
        Seq::empty(),
        0,
    );
    let met = table.reach(value, Set::empty(), Seq::empty(), 0).0;
    assert forall|id: u32| #[trigger] met.contains(id) implies !table.held(id) by {
        let hops = met_is_reached(module, table, value, expected, Set::empty(), depth, id);
        assert(reaches(table, value, id, hops));
    }
    lease_check_passes_where_nothing_is_held(table, met, what);
}

/// Where an owner can walk to a place, a well-formed value there whose
/// handles work can be observed, for the moment and for a scope; and one
/// that is not empty and is held by no active observation can be taken
/// out of a place that is not too far down.
pub proof fn place_can_be_read(
    module: Module,
    state: StateView,
    locals: LocalsView,
    context: ContextView,
    result: ValueId,
    ty: Ty,
    place: Place,
    observation: ObservationId,
    depth: nat,
    slot: ValueId,
    n: nat,
)
    requires
        loaded_from(context.origins, place.root, slot, n),
        n <= context.origins.len() + 1,
        locals.values.contains_key(slot.0),
        walkable(state.table, locals.values[slot.0], place.projections@, 0),
        owned_graph(
            module,
            state.table,
            found(state.table, locals.values[slot.0], place.projections@, 0),
        ) is Ok,
    ensures
        ({
            let value = found(state.table, locals.values[slot.0], place.projections@, 0);
            &&& works(state.table, value) ==> executed(
                module,
                state,
                Instruction::Value {
                    result,
                    ty,
                    kind: ValueKind::PlaceRead { place, mode: OwnershipMode::Observe },
                },
                locals,
                context,
                depth,
            ).2 is Ok
            &&& works(state.table, value) && (forall|k: int|
                0 <= k < locals.leases.len() ==> (#[trigger] locals.leases[k]).0 != observation)
                ==> executed(
                module,
                state,
                Instruction::Value {
                    result,
                    ty,
                    kind: ValueKind::ObservePlace { observation, place },
                },
                locals,
                context,
                depth,
            ).2 is Ok
            &&& free(state.table, value) && !(value is Moved) && !(value is Dropped) && 0
                < place.projections@.len() <= 64 ==> executed(
                module,
                state,
                Instruction::Value {
                    result,
                    ty,
                    kind: ValueKind::PlaceRead { place, mode: OwnershipMode::Transfer },
                },
                locals,
                context,
                depth,
            ).2 is Ok
        }),
{
    load_stands_for_its_slot(context.origins, place.root, slot, n);
    let table = state.table;
    let root = locals.values[slot.0];
    let steps = place.projections@;
    let value = found(table, root, steps, 0);
    observing_finds(table, root, steps, 0);
    checked_value_nests(module, table, value, None, Set::empty(), 0);
    if works(table, value) {
        working_value_can_be_observed(table, value, None, 0);
        checked_value_is_collected(
            module,
            table,
            value,
            None,
            Set::empty(),
            0,
            Set::empty(),
            Seq::empty(),
            0,
        );
        let observed = table.reach(value, Set::empty(), Seq::empty(), 0).1;
        let parent = innermost(locals.leases);
        let table1 = table.with_lease(observed, parent);
        assert(works(table1, value)) by {
            assert forall|handle: ResourceHandle| #[trigger]
                has_handle(value, handle) implies table1.observe(handle) is Ok by {
                assert(table.observe(handle) is Ok);
            }
        }
        working_value_can_be_observed(table1, value, Some(table.next_lease()), 0);
    }
    if free(table, value) && !tombstone(value) && 0 < steps.len() <= 64 {
        free_value_passes(module, table, value, None, 0, "moved out of its place"@);
        checked_walk(table, root, steps, 0, PathIntent::Take, 0);
        lemma_checked_path_is_taken(table, root, steps, 0, 0);
    }
}

/// A field of a record or of a living resource whose value is not too
/// deeply nested, and whose handles work, can be selected.
pub proof fn field_can_be_selected(
    at: Scene,
    base: ValueId,
    record: ItemId,
    field: usize,
    held: ValueView,
)
    requires
        at.values.contains_key(base.0),
        holds_in_field(at.state.table, at.values[base.0], record, field, held),
        works(at.state.table, held),
        nests_within(held, 64),
    ensures
        at.outcome(ValueKind::RecordField { base, record, field }).1 is Ok,
{
    working_value_can_be_observed(at.state.table, held, None, 0);
}

// ---------------------------------------------------------------------
// Making.
// ---------------------------------------------------------------------

/// Whether values of the frame can be put together into something new:
/// each fits its position and can be moved, and no resource is reached
/// from two of them.
pub open spec fn can_be_put(at: Scene, ids: Seq<ValueId>, declared: Seq<TyView>) -> bool {
    let table = at.state.table;
    &&& declared.len() == ids.len()
    &&& forall|k: int|
        0 <= k < ids.len() ==> {
            &&& at.values.contains_key((#[trigger] ids[k]).0)
            &&& validated(
                at.module,
                table,
                at.values[ids[k].0],
                Some(declared[k]),
                Set::empty(),
                0,
            ).1 is Ok
            &&& movable(at.module, table, at.values[ids[k].0])
        }
    &&& forall|j: int, k: int, id: u32, hops: nat, hops1: nat|
        0 <= j < k < ids.len() && #[trigger] reaches(table, at.values[ids[j].0], id, hops)
            ==> !#[trigger] reaches(table, at.values[ids[k].0], id, hops1)
}

proof fn all_checked(
    module: Module,
    table: TableView,
    values: Seq<ValueView>,
    declared: Seq<TyView>,
    i: nat,
)
    requires
        forall|k: int|
            i <= k < values.len() ==> validated(
                module,
                table,
                #[trigger] values[k],
                Some(declared[k]),
                Set::empty(),
                0,
            ).1 is Ok,
    ensures
        filling_check(module, table, values, declared, i) is Ok,
    decreases values.len() - i,
{
    if i < values.len() {
        assert(validated(
            module,
            table,
            values[i as int],
            Some(declared[i as int]),
            Set::empty(),
            0,
        ).1 is Ok);
        all_checked(module, table, values, declared, i + 1);
    }
}

proof fn all_planned(
    module: Module,
    table: TableView,
    values: Seq<ValueView>,
    i: nat,
    done: Seq<ValueView>,
    plan: PlanView,
)
    requires
        i <= values.len(),
        forall|k: int| 0 <= k < values.len() ==> movable(module, table, #[trigger] values[k]),
        forall|j: int, k: int, id: u32, hops: nat, hops1: nat|
            0 <= j < k < values.len() && #[trigger] reaches(table, values[j], id, hops)
                ==> !#[trigger] reaches(table, values[k], id, hops1),
        forall|id: u32| #[trigger] plan.reachable.contains(id) ==> !table.held(id),
        forall|id: u32| #[trigger]
            plan.reachable.contains(id) ==> exists|k: int, hops: nat|
                0 <= k < i && #[trigger] reaches(table, values[k], id, hops),
    ensures
        plan_values(module, table, values, i, done, plan).1 is Ok,
    decreases values.len() - i,
{
    if i < values.len() {
        let value = values[i as int];
        assert(movable(module, table, value));
        assert forall|id: u32, hops: nat| #[trigger]
            reaches(table, value, id, hops) implies !plan.reachable.contains(id) by {
            if plan.reachable.contains(id) {
                let (k, hops1) = choose|k: int, hops1: nat|
                    0 <= k < i && #[trigger] reaches(table, values[k], id, hops1);
                assert(reaches(table, values[k], id, hops1) && reaches(
                    table,
                    values[i as int],
                    id,
                    hops,
                ));
            }
        }
        movable_value_is_planned(module, table, value, plan);
        let (plan1, r) = plan_transferring(module, table, value, plan, 0);
        assert forall|id: u32| #[trigger] plan1.reachable.contains(id) implies exists|
            k: int,
            hops: nat,
        |
            0 <= k < i + 1 && #[trigger] reaches(table, values[k], id, hops) by {
            if plan.reachable.contains(id) {
                let (k, hops) = choose|k: int, hops: nat|
                    0 <= k < i && #[trigger] reaches(table, values[k], id, hops);
                assert(reaches(table, values[k], id, hops));
            } else {
                let hops = met_is_reached(module, table, value, None, Set::empty(), 0, id);
                assert(reaches(table, values[i as int], id, hops));
            }
        }
        all_planned(module, table, values, i + 1, done.push(r->Ok_0), plan1);
    }
}

proof fn values_are_put(
    at: Scene,
    ids: Seq<ValueId>,
    declared: Seq<TyView>,
    miscounted: Seq<char>,
)
    requires
        can_be_put(at, ids, declared),
    ensures
        filled(at.module, at.state.table, at.values, declared, ids, miscounted) is Ok,
{
    let supplied = Seq::new(ids.len(), |k: int| at.values[ids[k].0]);
    assert(in_order(at.values, ids, supplied));
    reading_keeps_the_order(at.values, ids, 0, Seq::empty(), supplied);
    assert forall|k: int| 0 <= k < supplied.len() implies validated(
        at.module,
        at.state.table,
        #[trigger] supplied[k],
        Some(declared[k]),
        Set::empty(),
        0,
    ).1 is Ok && movable(at.module, at.state.table, supplied[k]) by {
        assert(at.values.contains_key(ids[k].0));
    }
    all_checked(at.module, at.state.table, supplied, declared, 0);
    all_planned(at.module, at.state.table, supplied, 0, Seq::empty(), PlanView::empty());
}

/// Values that can be put together are made into a record or a resource,
/// and into a case of a variant, where the type arguments are closed.
pub proof fn values_can_be_put_together(
    at: Scene,
    item: ItemId,
    case: usize,
    type_args: Vec<Ty>,
    ids: Vec<ValueId>,
    args: Seq<TyView>,
)
    requires
        closed_instances(ty_views(type_args@), at.subst, args),
    ensures
        at.module.record_field_types(item, args) matches Ok(declared) && can_be_put(
            at,
            ids@,
            declared,
        ) ==> at.outcome(ValueKind::RecordCreate(item, type_args, ids)).1 is Ok,
        at.module.case_payload_types(item, args, case) matches Ok(declared) && can_be_put(
            at,
            ids@,
            declared,
        ) ==> at.outcome(
            ValueKind::VariantCreate { variant: item, case, type_args, payload: ids },
        ).1 is Ok,
{
    type_arguments_are_instances(ty_views(type_args@), at.subst, 0, Seq::empty(), args);
    match at.module.record_field_types(item, args) {
        Ok(declared) => {
            if can_be_put(at, ids@, declared) {
                values_are_put(
                    at,
                    ids@,
                    declared,
                    "a runtime construction supplies a field count its declaration does not declare"@,
                );
            }
        },
        Err(_) => {},
    }
    match at.module.case_payload_types(item, args, case) {
        Ok(declared) => {
            if can_be_put(at, ids@, declared) {
                values_are_put(
                    at,
                    ids@,
                    declared,
                    "a runtime construction supplies a payload count its active case does not declare"@,
                );
            }
        },
        Err(_) => {},
    }
}

// ---------------------------------------------------------------------
// Storing into a place.
// ---------------------------------------------------------------------

proof fn empty_place_is_a_target(
    table: TableView,
    container: ValueView,
    steps: Seq<Projection>,
    i: nat,
)
    requires
        i < steps.len(),
        walkable(table, container, steps, i),
        tombstone(found(table, container, steps, i)),
    ensures
        store_target(table, container, steps, i) is Ok,
    decreases steps.len() - i,
{
    let index = step_index(steps[i as int])->Ok_0;
    let next = part(table, container, steps[i as int]);
    assert(found(table, container, steps, i) == found(table, next, steps, i + 1));
    if i + 1 >= steps.len() {
        assert(found(table, next, steps, i + 1) == next);
    } else {
        match container {
            ValueView::Resource(handle) => {
                let inner = table.observe_field(handle, index)->Ok_0;
                empty_place_is_a_target(table, inner, steps, i + 1);
            },
            ValueView::Record { fields, .. } => {
                empty_place_is_a_target(table, fields[index as int], steps, i + 1);
            },
            _ => {},
        }
    }
}

proof fn what_is_passed_is_reached(
    table: TableView,
    container: ValueView,
    steps: Seq<Projection>,
    i: nat,
    out: Seq<ResourceId>,
)
    requires
        walkable(table, container, steps, i),
    ensures
        passed_through(table, container, steps, i, out).1 is Ok,
        forall|j: int|
            #![trigger passed_through(table, container, steps, i, out).0[j]]
            0 <= j < passed_through(table, container, steps, i, out).0.len() ==> {
                let id = passed_through(table, container, steps, i, out).0[j];
                out.contains(id) || exists|hops: nat| #[trigger]
                    reaches(table, container, id.0, hops)
            },
    decreases steps.len() - i,
{
    let after = passed_through(table, container, steps, i, out).0;
    if i < steps.len() {
        let index = step_index(steps[i as int])->Ok_0;
        match container {
            ValueView::Resource(handle) => {
                assert(reaches(table, container, handle.id.0, 0));
                if i + 1 < steps.len() {
                    let inner = table.observe_field(handle, index)->Ok_0;
                    what_is_passed_is_reached(table, inner, steps, i + 1, out.push(handle.id));
                }
                assert forall|j: int| 0 <= j < after.len() implies out.contains(#[trigger] after[j])
                    || exists|hops: nat| #[trigger]
                    reaches(table, container, after[j].0, hops) by {
                    let id = after[j];
                    if i + 1 < steps.len() {
                        let inner = table.observe_field(handle, index)->Ok_0;
                        if out.push(handle.id).contains(id) {
                            let m = choose|m: int|
                                0 <= m < out.push(handle.id).len() && out.push(handle.id)[m] == id;
                            if m < out.len() {
                                assert(out[m] == id);
                            }
                        } else {
                            let hops = choose|hops: nat| #[trigger] reaches(table, inner, id.0, hops);
                            assert(has_handle(container, handle));
                            assert(table.records[handle.id.0 as int].fields[index as int] == inner);
                            assert(reaches(table, container, id.0, hops + 1));
                        }
                    } else if j < out.len() {
                        assert(out[j] == id);
                    }
                }
            },
            ValueView::Record { fields, .. } => {
                if i + 1 < steps.len() {
                    what_is_passed_is_reached(table, fields[index as int], steps, i + 1, out);
                }
                assert forall|j: int| 0 <= j < after.len() implies out.contains(#[trigger] after[j])
                    || exists|hops: nat| #[trigger]
                    reaches(table, container, after[j].0, hops) by {
                    let id = after[j];
                    if i + 1 < steps.len() {
                        if !out.contains(id) {
                            let hops = choose|hops: nat| #[trigger]
                                reaches(table, fields[index as int], id.0, hops);
                            assert(children(container) == fields);
                            reached_through_a_child(table, container, index as int, id.0, hops);
                        }
                    } else {
                        assert(out[j] == id);
                    }
                }
            },
            _ => {},
        }
    } else {
        assert forall|j: int| 0 <= j < after.len() implies out.contains(#[trigger] after[j]) by {
            assert(out[j] == after[j]);
        }
    }
}

/// A value that can be moved, and fits the field, is stored into a place
/// that an owner can walk to, is not too far down and is empty, where the
/// storage is well-formed and nothing is reached from both sides.
pub proof fn empty_place_can_be_filled(
    module: Module,
    state: StateView,
    locals: LocalsView,
    context: ContextView,
    place: Place,
    value: ValueId,
    depth: nat,
    slot: ValueId,
    n: nat,
    source: ValueId,
    m: nat,
)
    requires
        loaded_from(context.origins, place.root, slot, n),
        n <= context.origins.len() + 1,
        loaded_from(context.origins, value, source, m),
        m <= context.origins.len() + 1,
        slot != source,
        locals.values.contains_key(slot.0),
        locals.values.contains_key(value.0),
        0 < place.projections@.len() <= 64,
        walkable(state.table, locals.values[slot.0], place.projections@, 0),
        found(state.table, locals.values[slot.0], place.projections@, 0) is Moved || found(
            state.table,
            locals.values[slot.0],
            place.projections@,
            0,
        ) is Dropped,
        owned_graph(module, state.table, locals.values[slot.0]) is Ok,
        movable(module, state.table, locals.values[value.0]),
        place_check(
            module,
            state.table,
            locals.values[slot.0],
            place.projections@,
            locals.values[value.0],
        ) is Ok,
        forall|id: u32, hops: nat, hops1: nat| #[trigger]
            reaches(state.table, locals.values[value.0], id, hops) ==> !#[trigger] reaches(
                state.table,
                locals.values[slot.0],
                id,
                hops1,
            ),
    ensures
        executed(
            module,
            state,
            Instruction::StorePlace { place, value },
            locals,
            context,
            depth,
        ).2 is Ok,
{
    load_stands_for_its_slot(context.origins, place.root, slot, n);
    load_stands_for_its_slot(context.origins, value, source, m);
    let table = state.table;
    let root = locals.values[slot.0];
    let incoming = locals.values[value.0];
    let steps = place.projections@;
    movable_value_is_planned(module, table, incoming, PlanView::empty());
    let (plan, planned) = plan_transferring(module, table, incoming, PlanView::empty(), 0);
    empty_place_is_a_target(table, root, steps, 0);
    what_is_passed_is_reached(table, root, steps, 0, Seq::empty());
    let met = validated(module, table, root, None, Set::empty(), 0).0;
    owning(module, table, root, None, Set::empty(), 0, Set::empty(), 0);
    let owned = table.own(root, Set::empty(), 0).0;
    let passed = passed_through(table, root, steps, 0, Seq::empty()).0;
    assert forall|id: u32| #[trigger] plan.reachable.contains(id) implies !owned.contains(id)
        && !(exists|j: int| 0 <= j < passed.len() && (#[trigger] passed[j]).0 == id) by {
        let hops = met_is_reached(module, table, incoming, None, Set::empty(), 0, id);
        assert(reaches(table, incoming, id, hops));
        if owned.contains(id) {
            let hops1 = met_is_reached(module, table, root, None, Set::empty(), 0, id);
            assert(reaches(table, root, id, hops1));
        }
        if exists|j: int| 0 <= j < passed.len() && (#[trigger] passed[j]).0 == id {
            let j = choose|j: int| 0 <= j < passed.len() && (#[trigger] passed[j]).0 == id;
            let at = passed_through(table, root, steps, 0, Seq::empty()).0[j];
            let hops1 = choose|hops1: nat| #[trigger] reaches(table, root, at.0, hops1);
            assert(reaches(table, root, id, hops1));
        }
    }
    assert(!share_identity(plan.reachable, owned, passed));
    checked_walk(table, root, steps, 0, PathIntent::Store, 0);
    lemma_checked_path_is_stored(table, root, steps, 0, 0, planned->Ok_0);
}

// ---------------------------------------------------------------------
// Destroying.
// ---------------------------------------------------------------------

/// Whether nothing in `after` but not in `before` is in `known`.
spec fn apart(before: Set<u32>, after: Set<u32>, known: Set<u32>) -> bool {
    forall|id: u32| #[trigger] after.contains(id) && !before.contains(id) ==> !known.contains(id)
}

proof fn living_value_is_planned_to_go(
    module: Module,
    table: TableView,
    value: ValueView,
    expected: Option<TyView>,
    seen: Set<u32>,
    depth: nat,
    known: Set<u32>,
    plan: Seq<ResourceHandle>,
    level: nat,
)
    requires
        validated(module, table, value, expected, seen, depth).1 is Ok,
        level <= depth,
        apart(seen, validated(module, table, value, expected, seen, depth).0, known),
        lives(table, value),
        value is Resource || value is Record || value is Variant,
    ensures
        drop_plan(module, table, value, known, plan, level).2 is Ok,
        drop_plan(module, table, value, known, plan, level).0.subset_of(
            known.union(
                validated(module, table, value, expected, seen, depth).0.difference(seen),
            ),
        ),
    decreases MAX_GENERIC_DEPTH - depth, 0nat, 0nat,
{
    let after = validated(module, table, value, expected, seen, depth).0;
    let (values, declared, seen1, known1) = match value {
        ValueView::Resource(handle) => {
            let record = table.record(handle)->Ok_0;
            (
                record.fields,
                module.record_field_types(record.item, Seq::empty())->Ok_0,
                seen.insert(handle.id.0),
                known.insert(handle.id.0),
            )
        },
        ValueView::Record { item, type_args, fields } => (
            fields,
            module.record_field_types(item, type_args)->Ok_0,
            seen,
            known,
        ),
        ValueView::Variant { item, type_args, case, payload } => (
            payload,
            module.case_payload_types(item, type_args, case)->Ok_0,
            seen,
            known,
        ),
        _ => (Seq::empty(), Seq::empty(), seen, known),
    };
    let met = filling_goes_in_order(
        module,
        table,
        values,
        declared,
        0,
        seen1,
        depth + 1,
        seq![seen1],
    );
    assert(seq![seen1][0] == met[0]);
    checking_all_meets_each_once(
        module,
        table,
        values,
        declared,
        0,
        seen1,
        depth + 1,
    );
    match value {
        ValueView::Resource(handle) => {
            owner_lives(table, handle);
            assert(after.contains(handle.id.0));
            assert forall|k: int| 0 <= k < values.len()
                implies lives(table, #[trigger] values[k]) by {
                field_lives(table, handle, k);
            }
        },
        _ => {
            assert(children(value) == values);
            assert forall|k: int| 0 <= k < values.len()
                implies lives(table, #[trigger] values[k]) by {
                child_lives(table, value, k);
            }
        },
    }
    living_values_are_planned_to_go(
        module,
        table,
        values,
        declared,
        values.len(),
        depth + 1,
        met,
        known1,
        plan,
        level + 1,
    );
}

proof fn met_grows(
    module: Module,
    table: TableView,
    values: Seq<ValueView>,
    declared: Seq<TyView>,
    depth: nat,
    met: Seq<Set<u32>>,
    n: nat,
)
    requires
        fill(module, table, values, declared, depth, met),
        n <= values.len(),
    ensures
        met[0].subset_of(met[n as int]),
    decreases n,
{
    if n > 0 {
        let k = n - 1;
        met_grows(module, table, values, declared, depth, met, k as nat);
        assert(fills(module, table, values[k], declared[k], depth, met[k], met[k + 1]));
        checking_meets_each_once(module, table, values[k], Some(declared[k]), met[k], depth);
    }
}

proof fn living_values_are_planned_to_go(
    module: Module,
    table: TableView,
    values: Seq<ValueView>,
    declared: Seq<TyView>,
    n: nat,
    depth: nat,
    met: Seq<Set<u32>>,
    known: Set<u32>,
    plan: Seq<ResourceHandle>,
    level: nat,
)
    requires
        fill(module, table, values, declared, depth, met),
        n <= values.len(),
        level <= depth,
        apart(met[0], met[n as int], known),
        forall|k: int| 0 <= k < values.len() ==> lives(table, #[trigger] values[k]),
    ensures
        drop_plan_below(module, table, values, declared, n, known, plan, level).2 is Ok,
        drop_plan_below(module, table, values, declared, n, known, plan, level).0.subset_of(
            known.union(met[n as int].difference(met[0])),
        ),
    decreases MAX_GENERIC_DEPTH - depth, 1nat, n,
{
    if n > 0 {
        let i = n - 1;
        let value = values[i];
        met_grows(module, table, values, declared, depth, met, i as nat);
        assert(fills(module, table, values[i], declared[i], depth, met[i], met[i + 1]));
        checking_meets_each_once(module, table, value, Some(declared[i]), met[i], depth);
        assert(met[i].subset_of(met[n as int]));
        if !module.affine(declared[i]) || tombstone(value) {
            assert(apart(met[0], met[i], known));
            living_values_are_planned_to_go(
                module,
                table,
                values,
                declared,
                i as nat,
                depth,
                met,
                known,
                plan,
                level,
            );
        } else {
            if !(value is Resource) && !(value is Record) && !(value is Variant) {
                primitive_is_not_affine(module, declared[i]);
            }
            assert(apart(met[i], met[n as int], known));
            living_value_is_planned_to_go(
                module,
                table,
                value,
                Some(declared[i]),
                met[i],
                depth,
                known,
                plan,
                level,
            );
            let (known1, plan1, _) = drop_plan(module, table, value, known, plan, level);
            assert(apart(met[0], met[i], known1));
            living_values_are_planned_to_go(
                module,
                table,
                values,
                declared,
                i as nat,
                depth,
                met,
                known1,
                plan1,
                level,
            );
        }
    }
}

/// A well-formed value that may own a resource, all of whose resources are
/// alive, its own and held by no active observation, can be destroyed.
pub proof fn living_value_can_be_destroyed(
    module: Module,
    state: StateView,
    locals: LocalsView,
    context: ContextView,
    value: ValueId,
    depth: nat,
)
    requires
        locals.values.contains_key(value.0),
        owned_graph(module, state.table, locals.values[value.0]) is Ok,
        module.affine_value(locals.values[value.0]) == Ok::<bool, ErrorView>(true),
        lives(state.table, locals.values[value.0]),
        free(state.table, locals.values[value.0]),
    ensures
        executed(module, state, Instruction::Drop { value }, locals, context, depth).2 is Ok,
{
    let table = state.table;
    let operand = locals.values[value.0];
    free_value_passes(module, table, operand, None, 0, "dropped"@);
    assert(apart(
        Set::empty(),
        validated(module, table, operand, None, Set::empty(), 0).0,
        Set::empty(),
    ));
    living_value_is_planned_to_go(
        module,
        table,
        operand,
        None,
        Set::empty(),
        0,
        Set::empty(),
        Seq::empty(),
        0,
    );
}

// ---------------------------------------------------------------------
// Taking a variant apart.
// ---------------------------------------------------------------------

proof fn free_payload_passes(table: TableView, payload: Seq<ValueView>, i: nat)
    requires
        forall|k: int|
            i <= k < payload.len() ==> table.lease_check_value(
                #[trigger] payload[k],
                "decomposed out of its variant"@,
            ) is Ok,
    ensures
        payload_leases(table, payload, i) is Ok,
    decreases payload.len() - i,
{
    if i < payload.len() {
        assert(table.lease_check_value(payload[i as int], "decomposed out of its variant"@) is Ok);
        free_payload_passes(table, payload, i + 1);
    }
}

proof fn right_claims_pass(
    values: Map<u32, ValueView>,
    payload: Seq<ValueView>,
    taken: Seq<(usize, ValueId)>,
    i: nat,
)
    requires
        right_claims(values, payload, taken),
    ensures
        claims_check(values, payload, taken, i) is Ok,
    decreases taken.len() - i,
{
    if i < taken.len() {
        assert(taken[i as int].0 < payload.len());
        equal_values_compare_so(
            values[taken[i as int].1.0],
            payload[taken[i as int].0 as int],
        );
        assert(!claimed_before(taken, i as int));
        right_claims_pass(values, payload, taken, i + 1);
    }
}

/// Whether claims on a payload are right: each is on a position that there
/// is and that is not empty, on one that no other is on, for a value of
/// the frame that equals what lies there.
pub open spec fn right_claims(
    values: Map<u32, ValueView>,
    payload: Seq<ValueView>,
    taken: Seq<(usize, ValueId)>,
) -> bool {
    &&& forall|j: int|
        0 <= j < taken.len() ==> {
            &&& (#[trigger] taken[j]).0 < payload.len()
            &&& !(payload[taken[j].0 as int] is Moved)
            &&& !(payload[taken[j].0 as int] is Dropped)
            &&& values.contains_key(taken[j].1.0)
            &&& equal_values(values[taken[j].1.0], payload[taken[j].0 as int])
        }
    &&& forall|j: int, k: int|
        0 <= j < k < taken.len() ==> (#[trigger] taken[j]).0 != (#[trigger] taken[k]).0
}

/// A well-formed variant whose live case is the one named, and that no
/// active observation holds anything of, can be taken apart by right
/// claims.
pub proof fn free_variant_can_be_taken_apart(
    module: Module,
    state: StateView,
    locals: LocalsView,
    context: ContextView,
    value: ValueId,
    variant: ItemId,
    case: usize,
    taken: Vec<(usize, ValueId)>,
    depth: nat,
    slot: ValueId,
    n: nat,
)
    requires
        loaded_from(context.origins, value, slot, n),
        n <= context.origins.len() + 1,
        locals.values.contains_key(slot.0),
        locals.values[slot.0] matches ValueView::Variant { item, case: live, .. } && item == variant
            && live == case,
        owned_graph(module, state.table, locals.values[slot.0]) is Ok,
        free(state.table, locals.values[slot.0]),
        right_claims(locals.values, children(locals.values[slot.0]), taken@),
    ensures
        executed(
            module,
            state,
            Instruction::DecomposeVariant { value, variant, case, taken },
            locals,
            context,
            depth,
        ).2 is Ok,
{
    load_stands_for_its_slot(context.origins, value, slot, n);
    let table = state.table;
    let shell = locals.values[slot.0];
    match shell {
        ValueView::Variant { item, type_args, case: live, payload } => {
            let declared = module.case_payload_types(item, type_args, live)->Ok_0;
            let met = filling_goes_in_order(
                module,
                table,
                payload,
                declared,
                0,
                Set::empty(),
                1,
                seq![Set::empty()],
            );
            assert forall|k: int| 0 <= k < payload.len() implies table.lease_check_value(
                #[trigger] payload[k],
                "decomposed out of its variant"@,
            ) is Ok by {
                assert(fills(module, table, payload[k], declared[k], 1, met[k], met[k + 1]));
                checked_value_is_collected(
                    module,
                    table,
                    payload[k],
                    Some(declared[k]),
                    met[k],
                    1,
                    Set::empty(),
                    Seq::empty(),
                    0,
                );
                let collected = table.reach(payload[k], Set::empty(), Seq::empty(), 0).0;
                assert forall|id: u32| #[trigger] collected.contains(id)
                    implies !table.held(id) by {
                    let hops = collected_is_reached(
                        table,
                        payload[k],
                        Set::empty(),
                        Seq::empty(),
                        0,
                        id,
                    );
                    assert(children(shell) == payload);
                    reached_through_a_child(table, shell, k, id, hops);
                    assert(reaches(table, shell, id, hops));
                }
                lease_check_passes_where_nothing_is_held(
                    table,
                    collected,
                    "decomposed out of its variant"@,
                );
            }
            free_payload_passes(table, payload, 0);
            right_claims_pass(locals.values, payload, taken@, 0);
        },
        _ => {},
    }
}

proof fn collected_is_reached(
    table: TableView,
    value: ValueView,
    seen: Set<u32>,
    order: Seq<ResourceId>,
    depth: nat,
    id: u32,
) -> (hops: nat)
    requires
        table.reach(value, seen, order, depth).0.contains(id),
        !seen.contains(id),
    ensures
        reaches(table, value, id, hops),
    decreases MAX_GENERIC_DEPTH - depth, 0nat,
{
    match value {
        ValueView::Resource(handle) => {
            if handle.id.0 == id {
                0
            } else {
                let record = table.record(handle)->Ok_0;
                let (k, hops) = one_collected_is_reached(
                    table,
                    record.fields,
                    0,
                    seen.insert(handle.id.0),
                    order.push(handle.id),
                    depth + 1,
                    id,
                );
                assert(has_handle(value, handle));
                assert(reaches(table, table.records[handle.id.0 as int].fields[k], id, hops));
                hops + 1
            }
        },
        ValueView::Record { fields, .. } => {
            let (k, hops) = one_collected_is_reached(
                table,
                fields,
                0,
                seen,
                order,
                depth + 1,
                id,
            );
            assert(children(value) == fields);
            reached_through_a_child(table, value, k, id, hops);
            hops
        },
        ValueView::Variant { payload, .. } => {
            let (k, hops) = one_collected_is_reached(
                table,
                payload,
                0,
                seen,
                order,
                depth + 1,
                id,
            );
            assert(children(value) == payload);
            reached_through_a_child(table, value, k, id, hops);
            hops
        },
        _ => 0,
    }
}

proof fn one_collected_is_reached(
    table: TableView,
    values: Seq<ValueView>,
    i: nat,
    seen: Set<u32>,
    order: Seq<ResourceId>,
    depth: nat,
    id: u32,
) -> (r: (int, nat))
    requires
        table.reach_from(values, i, seen, order, depth).0.contains(id),
        !seen.contains(id),
    ensures
        i <= r.0 < values.len(),
        reaches(table, values[r.0], id, r.1),
    decreases MAX_GENERIC_DEPTH - depth, 1 + values.len() - i,
{
    if i < values.len() {
        let (seen1, order1, _) = table.reach(values[i as int], seen, order, depth);
        if seen1.contains(id) {
            let hops = collected_is_reached(table, values[i as int], seen, order, depth, id);
            (i as int, hops)
        } else {
            one_collected_is_reached(table, values, i + 1, seen1, order1, depth, id)
        }
    } else {
        (0, 0)
    }
}

} // verus!
