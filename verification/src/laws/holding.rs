use crate::eval::CallView;
use crate::frame::{
    bound_argument, bound_arguments, entered, executed, BindingView, ContextView, LocalsView,
};
use crate::ids::{ItemId, ValueId};
use crate::interpreter::StateView;
use crate::laws::boundary::{
    planned_value_stands_for_it, planning_reaches_what_is_met, stands_for,
};
use crate::laws::call::alias_check_passes_where_nothing_is_shared;
use crate::laws::graph::{reaches, what_is_reached_is_met};
use crate::laws::lease::{
    lease_check_passes_where_nothing_is_held, reaching_collects_what_is_carried,
};
use crate::laws::number::{
    measure, no_number, pattern_is_read_alike, smaller_pattern_is_nearer_to_zero, unsigned_pattern,
};
use crate::laws::place::{found, observing_finds, walkable};
use crate::laws::reading::{
    load_stands_for_its_slot, loaded_from, reaching_meets_what_checking_meets,
};
use crate::laws::refusal::owning_collects_what_is_reached;
use crate::laws::storage::{claimed, decomposition_empties_what_was_claimed, placing};
use crate::laws::transfer::{carries, children, has_handle};
use crate::ownership::{plan_inner, plan_transferring, PlanView};
use crate::place::observed_at;
use crate::program::{Instruction, Module, OwnershipMode, Param, Place, ValueKind};
use crate::structural::{claims_check, decomposition, payload_leases};
use crate::table::TableView;
use crate::types::{Ty, TyView};
use crate::validate::{owned_graph, validated};
use crate::value::{value_eq, value_eq_from, ResourceHandle, ValueView};
use vstd::prelude::*;

verus! {

broadcast use crate::types::group_type_views;

// ---------------------------------------------------------------------
// What an observation holds, however deep, stays where it is.
// ---------------------------------------------------------------------

proof fn planned_reach_is_free(
    module: Module,
    table: TableView,
    value: ValueView,
    plan: PlanView,
    id: u32,
    hops: nat,
)
    requires
        owned_graph(module, table, value) is Ok,
        plan_transferring(module, table, value, plan, 0).1 is Ok,
        reaches(table, value, id, hops),
    ensures
        !table.held(id),
        plan_inner(module, table, value, plan, 0).0.reachable.contains(id),
        !plan.reachable.contains(id),
        plan.reachable.subset_of(plan_inner(module, table, value, plan, 0).0.reachable),
{
    let met = validated(module, table, value, None, Set::empty(), 0).0;
    let reachable = plan_inner(module, table, value, plan, 0).0.reachable;
    what_is_reached_is_met(module, table, value, None, Set::empty(), 0, id, hops);
    planning_reaches_what_is_met(module, table, value, None, Set::empty(), 0, plan, 0);
    assert(met.contains(id));
    assert(Set::<u32>::empty().union(reachable).contains(id));
    lease_check_passes_where_nothing_is_held(table, reachable, "transferred"@);
}

proof fn checked_reach_is_free(
    module: Module,
    table: TableView,
    value: ValueView,
    expected: Option<TyView>,
    depth: nat,
    what: Seq<char>,
    id: u32,
    hops: nat,
)
    requires
        validated(module, table, value, expected, Set::empty(), depth).1 is Ok,
        table.lease_check_value(value, what) is Ok,
        reaches(table, value, id, hops),
    ensures
        !table.held(id),
{
    let collected = table.reach(value, Set::empty(), Seq::empty(), 0).0;
    what_is_reached_is_met(module, table, value, expected, Set::empty(), depth, id, hops);
    reaching_meets_what_checking_meets(
        module,
        table,
        value,
        expected,
        Set::empty(),
        depth,
        Seq::empty(),
        0,
    );
    lease_check_passes_where_nothing_is_held(table, collected, what);
}

/// The value whose resources an instruction takes from where they are: the
/// operand of a move, of a capture, of a store that moves, of a store into
/// a place and of a destruction.
pub open spec fn given_away(instruction: Instruction) -> Option<ValueId> {
    match instruction {
        Instruction::Value { kind: ValueKind::Move { source }, .. } => Some(source),
        Instruction::Value { kind: ValueKind::DeferCapture { source }, .. } => Some(source),
        Instruction::Store { value, mode: OwnershipMode::Transfer, .. } => Some(value),
        Instruction::StorePlace { value, .. } => Some(value),
        Instruction::Drop { value } => Some(value),
        _ => None,
    }
}

/// While an active observation holds a resource, no value from which it is
/// reached, however deep it lies there, is moved, captured, stored or
/// destroyed.
pub proof fn held_resource_is_not_given_away(
    module: Module,
    state: StateView,
    instruction: Instruction,
    locals: LocalsView,
    context: ContextView,
    depth: nat,
    operand: ValueId,
    id: u32,
    hops: nat,
)
    requires
        given_away(instruction) == Some(operand),
        owned_graph(module, state.table, locals.values[operand.0]) is Ok,
        reaches(state.table, locals.values[operand.0], id, hops),
        state.table.held(id),
    ensures
        executed(module, state, instruction, locals, context, depth).2 is Err,
{
    let table = state.table;
    let value = locals.values[operand.0];
    if executed(module, state, instruction, locals, context, depth).2 is Ok {
        if instruction is Drop {
            checked_reach_is_free(
                module,
                table,
                value,
                None,
                0,
                "dropped"@,
                id,
                hops,
            );
        } else {
            planned_reach_is_free(module, table, value, PlanView::empty(), id, hops);
        }
    }
}

/// Only a well-formed value is stored, destroyed or taken apart.
pub proof fn only_sound_values_are_given_away(
    module: Module,
    state: StateView,
    instruction: Instruction,
    locals: LocalsView,
    context: ContextView,
    depth: nat,
    operand: ValueId,
)
    requires
        given_away(instruction) == Some(operand),
        executed(module, state, instruction, locals, context, depth).2 is Ok,
    ensures
        locals.values.contains_key(operand.0),
        !(instruction is Value) ==> owned_graph(
            module,
            state.table,
            locals.values[operand.0],
        ) is Ok,
{
}

/// While an active observation holds a resource, nothing from which it is
/// reached, however deep it lies there, is taken out of a place.
pub proof fn held_resource_is_not_taken_out(
    module: Module,
    state: StateView,
    locals: LocalsView,
    context: ContextView,
    result: ValueId,
    ty: Ty,
    place: Place,
    depth: nat,
    slot: ValueId,
    n: nat,
    id: u32,
    hops: nat,
)
    requires
        loaded_from(context.origins, place.root, slot, n),
        n <= context.origins.len() + 1,
        walkable(state.table, locals.values[slot.0], place.projections@, 0),
        owned_graph(
            module,
            state.table,
            found(state.table, locals.values[slot.0], place.projections@, 0),
        ) is Ok,
        reaches(
            state.table,
            found(state.table, locals.values[slot.0], place.projections@, 0),
            id,
            hops,
        ),
        state.table.held(id),
    ensures
        executed(
            module,
            state,
            Instruction::Value {
                result,
                ty,
                kind: ValueKind::PlaceRead { place, mode: OwnershipMode::Transfer },
            },
            locals,
            context,
            depth,
        ).2 is Err,
{
    load_stands_for_its_slot(context.origins, place.root, slot, n);
    let root = locals.values[slot.0];
    observing_finds(state.table, root, place.projections@, 0);
    let value = found(state.table, root, place.projections@, 0);
    if state.table.lease_check_value(value, "moved out of its place"@) is Ok {
        checked_reach_is_free(
            module,
            state.table,
            value,
            None,
            0,
            "moved out of its place"@,
            id,
            hops,
        );
    }
}

// ---------------------------------------------------------------------
// What a call takes, it takes alone.
// ---------------------------------------------------------------------

pub(crate) proof fn binding_knows_what_is_reached(
    module: Module,
    table: TableView,
    params: Seq<Param>,
    args: Seq<ValueView>,
    subst: Map<u32, TyView>,
    i: nat,
    binding: BindingView,
    k: int,
    id: u32,
    hops: nat,
)
    requires
        bound_arguments(module, table, params, args, subst, i, binding) is Ok,
        i <= k < params.len(),
        reaches(table, args[k], id, hops),
    ensures
        ({
            let last = bound_arguments(module, table, params, args, subst, i, binding)->Ok_0;
            &&& params[k].take ==> last.plan.reachable.contains(id)
                && !binding.plan.reachable.contains(id) && !table.held(id)
            &&& !params[k].take ==> last.observed.contains(id)
        }),
    decreases params.len() - i,
{
    let next = bound_argument(
        module,
        table,
        params[i as int],
        args[i as int],
        subst,
        binding,
    )->Ok_0;
    binding_forgets_nothing(module, table, params, args, subst, i, binding);
    if k == i {
        binding_forgets_nothing(module, table, params, args, subst, i + 1, next);
        if params[k].take {
            planned_reach_is_free(module, table, args[k], binding.plan, id, hops);
        } else {
            owning_collects_what_is_reached(table, args[k], Set::empty(), 0, id, hops);
        }
    } else {
        binding_knows_what_is_reached(
            module,
            table,
            params,
            args,
            subst,
            i + 1,
            next,
            k,
            id,
            hops,
        );
        if params[i as int].take {
            planning_reaches_what_is_met(
                module,
                table,
                args[i as int],
                None,
                Set::empty(),
                0,
                binding.plan,
                0,
            );
        }
    }
}

proof fn binding_forgets_nothing(
    module: Module,
    table: TableView,
    params: Seq<Param>,
    args: Seq<ValueView>,
    subst: Map<u32, TyView>,
    i: nat,
    binding: BindingView,
)
    requires
        bound_arguments(module, table, params, args, subst, i, binding) is Ok,
    ensures
        ({
            let last = bound_arguments(module, table, params, args, subst, i, binding)->Ok_0;
            &&& binding.plan.reachable.subset_of(last.plan.reachable)
            &&& binding.observed.subset_of(last.observed)
        }),
    decreases params.len() - i,
{
    if i < params.len() {
        let next = bound_argument(
            module,
            table,
            params[i as int],
            args[i as int],
            subst,
            binding,
        )->Ok_0;
        binding_forgets_nothing(module, table, params, args, subst, i + 1, next);
        if params[i as int].take {
            planning_reaches_what_is_met(
                module,
                table,
                args[i as int],
                None,
                Set::empty(),
                0,
                binding.plan,
                0,
            );
        }
    }
}

proof fn taken_apart(
    module: Module,
    table: TableView,
    params: Seq<Param>,
    args: Seq<ValueView>,
    subst: Map<u32, TyView>,
    i: nat,
    binding: BindingView,
    j: int,
    k: int,
    id: u32,
    hops: nat,
    hops1: nat,
)
    requires
        i <= j < k < params.len(),
        params[j].take,
        params[k].take,
        reaches(table, args[j], id, hops),
        reaches(table, args[k], id, hops1),
    ensures
        bound_arguments(module, table, params, args, subst, i, binding) is Err,
    decreases params.len() - i,
{
    if bound_arguments(module, table, params, args, subst, i, binding) is Ok {
        let next = bound_argument(
            module,
            table,
            params[i as int],
            args[i as int],
            subst,
            binding,
        )->Ok_0;
        if i == j {
            planned_reach_is_free(module, table, args[j], binding.plan, id, hops);
            binding_knows_what_is_reached(
                module,
                table,
                params,
                args,
                subst,
                i + 1,
                next,
                k,
                id,
                hops1,
            );
        } else {
            taken_apart(module, table, params, args, subst, i + 1, next, j, k, id, hops, hops1);
        }
    }
}

/// A call that takes an argument takes everything reached from it, however
/// deep, alone: where something reached from it is reached from another
/// argument too, whether that is taken or observed, or is held by an
/// active observation, the call is refused.
pub proof fn taken_argument_shares_nothing_it_reaches(
    module: Module,
    table: TableView,
    call: CallView,
    j: int,
    id: u32,
    hops: nat,
)
    requires
        0 <= j < call.callee.params@.len(),
        call.callee.params@[j].take,
        reaches(table, call.args[j], id, hops),
        table.held(id) || exists|k: int, hops1: nat|
            0 <= k < call.callee.params@.len() && k != j && #[trigger] reaches(
                table,
                call.args[k],
                id,
                hops1,
            ),
    ensures
        entered(module, table, call) is Err,
{
    if entered(module, table, call) is Ok {
        let params = call.callee.params@;
        let subst = entered(module, table, call)->Ok_0.context.subst;
        let empty = BindingView::empty();
        let binding = bound_arguments(module, table, params, call.args, subst, 0, empty)->Ok_0;
        binding_knows_what_is_reached(
            module,
            table,
            params,
            call.args,
            subst,
            0,
            empty,
            j,
            id,
            hops,
        );
        alias_check_passes_where_nothing_is_shared(binding.plan.reachable, binding.observed);
        let (k, hops1) = choose|k: int, hops1: nat|
            0 <= k < params.len() && k != j && #[trigger] reaches(table, call.args[k], id, hops1);
        binding_knows_what_is_reached(
            module,
            table,
            params,
            call.args,
            subst,
            0,
            empty,
            k,
            id,
            hops1,
        );
        if params[k].take {
            if j < k {
                taken_apart(
                    module,
                    table,
                    params,
                    call.args,
                    subst,
                    0,
                    empty,
                    j,
                    k,
                    id,
                    hops,
                    hops1,
                );
            } else {
                taken_apart(
                    module,
                    table,
                    params,
                    call.args,
                    subst,
                    0,
                    empty,
                    k,
                    j,
                    id,
                    hops1,
                    hops,
                );
            }
        }
    }
}

// ---------------------------------------------------------------------
// Taking a variant apart.
// ---------------------------------------------------------------------

/// Whether two values are equal: the same, but for numbers that are no
/// integers, which are equal where they denote the same number.
pub open spec fn equal_values(a: ValueView, b: ValueView) -> bool
    decreases a,
{
    match a {
        ValueView::Float(x) => {
            &&& b matches ValueView::Float(y)
            &&& !no_number(x) && !no_number(y) && measure(x) == measure(y)
        },
        ValueView::Record { item, type_args, fields } => {
            &&& b matches ValueView::Record { item: item1, type_args: type_args1, fields: fields1 }
            &&& item1 == item && type_args1 == type_args
            &&& fields1.len() == fields.len()
            &&& forall|k: int|
                0 <= k < fields.len() ==> equal_values(#[trigger] fields[k], fields1[k])
        },
        ValueView::Variant { item, type_args, case, payload } => {
            &&& b matches ValueView::Variant {
                item: item1,
                type_args: type_args1,
                case: case1,
                payload: payload1,
            }
            &&& item1 == item && type_args1 == type_args && case1 == case
            &&& payload1.len() == payload.len()
            &&& forall|k: int|
                0 <= k < payload.len() ==> equal_values(#[trigger] payload[k], payload1[k])
        },
        _ => a == b,
    }
}

/// Values compare as equal exactly where they are.
pub proof fn equal_values_compare_so(a: ValueView, b: ValueView)
    ensures
        value_eq(a, b) <==> equal_values(a, b),
    decreases a, 0nat,
{
    match (a, b) {
        (ValueView::Float(x), ValueView::Float(y)) => {
            pattern_is_read_alike(x);
            pattern_is_read_alike(y);
            if unsigned_pattern(x) < unsigned_pattern(y) {
                smaller_pattern_is_nearer_to_zero(x, y);
            } else if unsigned_pattern(y) < unsigned_pattern(x) {
                smaller_pattern_is_nearer_to_zero(y, x);
            }
        },
        (ValueView::Record { fields, .. }, ValueView::Record { fields: fields1, .. }) => {
            if fields.len() == fields1.len() {
                equal_lists_compare_so(fields, fields1, 0);
            }
        },
        (ValueView::Variant { payload, .. }, ValueView::Variant { payload: payload1, .. }) => {
            if payload.len() == payload1.len() {
                equal_lists_compare_so(payload, payload1, 0);
            }
        },
        _ => {},
    }
}

proof fn equal_lists_compare_so(a: Seq<ValueView>, b: Seq<ValueView>, i: nat)
    requires
        a.len() == b.len(),
    ensures
        value_eq_from(a, b, i) <==> forall|k: int|
            i <= k < a.len() ==> equal_values(#[trigger] a[k], b[k]),
    decreases a, a.len() - i,
{
    if i < a.len() {
        equal_values_compare_so(a[i as int], b[i as int]);
        equal_lists_compare_so(a, b, i + 1);
    }
}

proof fn claims_are_what_is_there(
    values: Map<u32, ValueView>,
    payload: Seq<ValueView>,
    taken: Seq<(usize, ValueId)>,
    i: nat,
)
    requires
        claims_check(values, payload, taken, i) is Ok,
    ensures
        forall|j: int|
            i <= j < taken.len() ==> values.contains_key((#[trigger] taken[j]).1.0)
                && equal_values(values[taken[j].1.0], payload[taken[j].0 as int]),
    decreases taken.len() - i,
{
    if i < taken.len() {
        claims_are_what_is_there(values, payload, taken, i + 1);
        equal_values_compare_so(
            values[taken[i as int].1.0],
            payload[taken[i as int].0 as int],
        );
    }
}

proof fn checked_payload_is_free(table: TableView, payload: Seq<ValueView>, i: nat, k: int)
    requires
        payload_leases(table, payload, i) is Ok,
        i <= k < payload.len(),
    ensures
        table.lease_check_value(payload[k], "decomposed out of its variant"@) is Ok,
    decreases payload.len() - i,
{
    if k > i {
        checked_payload_is_free(table, payload, i + 1, k);
    }
}

/// Taking a variant apart empties exactly the claimed positions of the
/// live case's payload, in the storage that its loads lead back to: each
/// is claimed once, was not empty, and is claimed for a value of the frame
/// that equals what lies there. Nothing that the payload carries is held
/// by an active observation. No other value, no resource and no lease
/// changes. A refused one changes nothing.
pub proof fn decomposition_hands_out_what_is_there(
    module: Module,
    state: StateView,
    locals: LocalsView,
    context: ContextView,
    value: ValueId,
    variant: ItemId,
    case: usize,
    taken: Vec<(usize, ValueId)>,
    depth: nat,
    slot: ValueId,
    n: nat,
)
    requires
        loaded_from(context.origins, value, slot, n),
        n <= context.origins.len() + 1,
    ensures
        ({
            let (state1, locals1, r) = executed(
                module,
                state,
                Instruction::DecomposeVariant { value, variant, case, taken },
                locals,
                context,
                depth,
            );
            let payload = children(locals.values[slot.0]);
            let payload1 = children(locals1.values[slot.0]);
            &&& state1 == state
            &&& r is Err ==> locals1 == locals
            &&& r is Ok ==> {
                &&& locals1.leases == locals.leases
                &&& locals.values.contains_key(slot.0)
                &&& locals1.values.remove(slot.0) == locals.values.remove(slot.0)
                &&& locals.values[slot.0] matches ValueView::Variant {
                    item,
                    case: live,
                    type_args,
                    ..
                } && item == variant && live == case && locals1.values[slot.0]
                    == (ValueView::Variant { item, case: live, type_args, payload: payload1 })
                &&& payload1.len() == payload.len()
                &&& forall|k: int|
                    0 <= k < payload.len() ==> #[trigger] payload1[k] == if exists|j: int|
                        0 <= j < taken@.len() && (#[trigger] taken@[j]).0 == k {
                        ValueView::Moved
                    } else {
                        payload[k]
                    }
                &&& forall|j: int, k: int|
                    0 <= j < k < taken@.len() ==> (#[trigger] taken@[j]).0 != (
                    #[trigger] taken@[k]).0
                &&& forall|j: int|
                    0 <= j < taken@.len() ==> {
                        &&& (#[trigger] taken@[j]).0 < payload.len()
                        &&& !(payload[taken@[j].0 as int] is Moved)
                        &&& !(payload[taken@[j].0 as int] is Dropped)
                        &&& locals.values.contains_key(taken@[j].1.0)
                        &&& equal_values(
                            locals.values[taken@[j].1.0],
                            payload[taken@[j].0 as int],
                        )
                    }
                &&& forall|k: int, id: u32|
                    0 <= k < payload.len() && #[trigger] carries(payload[k], id)
                        ==> !state.table.held(id)
            }
        }),
{
    load_stands_for_its_slot(context.origins, value, slot, n);
    match decomposition(
        module,
        state.table,
        locals.values,
        context.origins,
        value,
        variant,
        case,
        taken@,
    ) {
        Ok(values) => {
            let payload = children(locals.values[slot.0]);
            decomposition_empties_what_was_claimed(
                module,
                state.table,
                locals.values,
                context.origins,
                value,
                variant,
                case,
                taken@,
                values,
            );
            claims_are_what_is_there(locals.values, payload, taken@, 0);
            assert forall|k: int| 0 <= k < payload.len() implies #[trigger] children(
                values[slot.0],
            )[k] == if exists|j: int| 0 <= j < taken@.len() && (#[trigger] taken@[j]).0 == k {
                ValueView::Moved
            } else {
                payload[k]
            } by {
                assert(claimed(taken@, taken@.len(), k) == exists|j: int|
                    0 <= j < taken@.len() && (#[trigger] taken@[j]).0 == k);
            }
            assert forall|k: int, id: u32|
                0 <= k < payload.len() && #[trigger] carries(
                    payload[k],
                    id,
                ) implies !state.table.held(id) by {
                checked_payload_is_free(state.table, payload, 0, k);
                reaching_collects_what_is_carried(
                    state.table,
                    payload[k],
                    Set::empty(),
                    Seq::empty(),
                    0,
                );
                lease_check_passes_where_nothing_is_held(
                    state.table,
                    state.table.reach(payload[k], Set::empty(), Seq::empty(), 0).0,
                    "decomposed out of its variant"@,
                );
            }
        },
        Err(_) => {},
    }
}

// ---------------------------------------------------------------------
// Storing into a place.
// ---------------------------------------------------------------------

/// A store into a place fills the place in the storage its loads lead back
/// to with the value, in the hands of that storage: it stands there
/// through owning handles that work, and the handles that it carried are
/// stale. The value, and the storage that it was loaded from, are empty
/// afterwards; no other value of the frame changes. A store into a place
/// that is not empty, or of a value into its own storage, is refused. A
/// refused store changes nothing.
pub proof fn place_is_filled(
    module: Module,
    state: StateView,
    locals: LocalsView,
    context: ContextView,
    place: Place,
    value: ValueId,
    depth: nat,
    slot: ValueId,
    n: nat,
    source: ValueId,
    m: nat,
)
    requires
        loaded_from(context.origins, place.root, slot, n),
        n <= context.origins.len() + 1,
        loaded_from(context.origins, value, source, m),
        m <= context.origins.len() + 1,
        value.0 != slot.0,
    ensures
        ({
            let (state1, locals1, r) = executed(
                module,
                state,
                Instruction::StorePlace { place, value },
                locals,
                context,
                depth,
            );
            &&& r is Err ==> state1 == state && locals1 == locals
            &&& slot == source ==> r is Err
            &&& r is Ok ==> {
                &&& locals.values.contains_key(value.0)
                &&& locals1.values[value.0] is Moved
                &&& locals1.values[source.0] is Moved
                &&& forall|id: u32|
                    id != value.0 && id != source.0 && id != slot.0 ==> locals1.values.contains_key(
                        id,
                    ) == locals.values.contains_key(id) && #[trigger] locals1.values[id]
                        == locals.values[id]
                &&& observed_at(
                    state1.table,
                    locals1.values[slot.0],
                    place.projections@,
                    0,
                ) matches Ok(stored) && {
                    &&& stands_for(
                        state1.table,
                        locals.values[value.0],
                        stored,
                    )
                    &&& forall|handle: ResourceHandle| #[trigger]
                        has_handle(stored, handle) ==> handle.role is Owner
                            && state1.table.observe(handle) is Ok
                }
                &&& forall|handle: ResourceHandle| #[trigger]
                    has_handle(locals.values[value.0], handle) ==> state1.table.record(handle)
                        is Err
                &&& state1.table.leases == state.table.leases
                &&& state1.events == state.events
                &&& locals1.leases == locals.leases
            }
        }),
{
    load_stands_for_its_slot(context.origins, place.root, slot, n);
    load_stands_for_its_slot(context.origins, value, source, m);
    let (state1, locals1, r) = executed(
        module,
        state,
        Instruction::StorePlace { place, value },
        locals,
        context,
        depth,
    );
    if r is Ok {
        let moved = placing(
            module,
            state.table,
            locals.values,
            context.origins,
            place,
            value,
            state1.table,
            locals1.values,
        );
        assert forall|handle: ResourceHandle| #[trigger]
            has_handle(moved, handle) implies state1.table.record(handle) is Ok by {
            assert(state1.table.observe(handle) is Ok);
        }
        planned_value_stands_for_it(
            module,
            state.table,
            state1.table,
            locals.values[value.0],
            PlanView::empty(),
            0,
            moved,
        );
    }
}

} // verus!
