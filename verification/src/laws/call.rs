use crate::entry::outside_call;
use crate::eval::{call_target, evidence_from, evidence_in, CallView};
use crate::frame::{
    alias_check, bound_argument, bound_arguments, branch_taken, called, case_taken, continuation,
    entered, executed, find_block, find_target, invoke_check, leak_check, lowest_shared, returned,
    run_blocks, run_frame, run_instructions, too_many_blocks, BindingView, ContextView, EntryView,
    LocalsView, OutcomeView,
};
use crate::ids::{BlockId, ItemId, ValueId};
use crate::interpreter::{Event, StateView};
use crate::laws::history::{follows, sound_state};
use crate::laws::lease::lowest_with;
use crate::laws::observation::{observing_view_carries_only_observers, only_observers};
use crate::laws::transfer::{
    carries, carrying_out_a_sound_plan, handle_is_carried, has_handle, moved_handle, moves,
    owning_all_grows, planned, planning_moves_what_is_carried, sound_plan,
};
use crate::layout::param_ids;
use crate::ownership::{plan_inner, plan_transferring, PlanView};
use crate::program::{
    FailureTarget, Function, Instruction, Module, Param, Terminator, MAX_BLOCKS, MAX_CALL_DEPTH,
    MAX_GENERIC_DEPTH,
};
use crate::table::{next_generation, RecordView, TableView};
use crate::type_ops::{instantiation, substituted};
use crate::types::{evidence_views, ty_views, EvidenceView, TyView};
use crate::validate::argument_check;
use crate::value::{ErrorView, ResourceHandle, ValueView};
use vstd::prelude::*;

verus! {

// ---------------------------------------------------------------------
// Calls that are refused.
// ---------------------------------------------------------------------

/// A call refused at its boundary changes nothing and is not recorded.
/// Repeated, it is refused with the same error.
pub proof fn refused_call_changes_nothing(
    module: Module,
    state: StateView,
    call: CallView,
    depth: nat,
)
    requires
        entered(module, state.table, call) is Err || depth >= MAX_CALL_DEPTH,
    ensures
        called(module, state, call, depth).0 == state,
        called(module, state, call, depth).1 is Err,
        called(module, called(module, state, call, depth).0, call, depth).1 == called(
            module,
            state,
            call,
            depth,
        ).1,
{
}

/// The same of a frame, apart from how many frames there are: one refused
/// at its boundary changes nothing, is not recorded, and is refused with
/// the same error when it is tried again.
pub proof fn refused_frame_changes_nothing(
    module: Module,
    state: StateView,
    call: CallView,
    depth: nat,
)
    requires
        entered(module, state.table, call) is Err,
    ensures
        run_frame(module, state, call, depth).0 == state,
        run_frame(module, state, call, depth).1 is Err,
        run_frame(module, run_frame(module, state, call, depth).0, call, depth).1 == run_frame(
            module,
            state,
            call,
            depth,
        ).1,
{
}

/// A generic function, or one that asks for capabilities, cannot be
/// called from outside; nor can any with another number of arguments
/// than it declares. The attempt changes nothing.
pub proof fn outside_call_must_fit(
    module: Module,
    state: StateView,
    function: Function,
    args: Seq<ValueView>,
    depth: nat,
)
    requires
        function.type_params@.len() > 0 || function.requirements@.len() > 0
            || function.params@.len() != args.len(),
    ensures
        outside_call(module, state, function, args, depth).0 == state,
        outside_call(module, state, function, args, depth).1 is Err,
{
}

// ---------------------------------------------------------------------
// How long a frame may run.
// ---------------------------------------------------------------------

proof fn instructions_do_not_count_blocks(
    module: Module,
    state: StateView,
    instructions: Seq<Instruction>,
    i: nat,
    locals: LocalsView,
    context: ContextView,
    budget: nat,
    more: nat,
    depth: nat,
)
    ensures
        run_instructions(module, state, instructions, i, locals, context, more, depth)
            == run_instructions(module, state, instructions, i, locals, context, budget, depth),
    decreases instructions.len() - i,
{
    if i < instructions.len() {
        let (state1, locals1, r) = executed(
            module,
            state,
            instructions[i as int],
            locals,
            context,
            depth,
        );
        if r is Ok {
            instructions_do_not_count_blocks(
                module,
                state1,
                instructions,
                i + 1,
                locals1,
                context,
                budget,
                more,
                depth,
            );
        }
    }
}

/// How many blocks a frame may run decides nothing but when a frame that
/// is still running is given up: one that ends, or is refused for another
/// reason, does the same however many more blocks it may run.
pub proof fn blocks_to_spare_change_nothing(
    module: Module,
    state: StateView,
    function: Function,
    id: BlockId,
    locals: LocalsView,
    context: ContextView,
    budget: nat,
    more: nat,
    depth: nat,
)
    requires
        budget <= more,
        run_blocks(module, state, function, id, locals, context, budget, depth).1 != Err::<
            OutcomeView,
            ErrorView,
        >(too_many_blocks()),
    ensures
        run_blocks(module, state, function, id, locals, context, more, depth) == run_blocks(
            module,
            state,
            function,
            id,
            locals,
            context,
            budget,
            depth,
        ),
    decreases budget,
{
    if let Some(block) = find_block(function.blocks@, id, 0) {
        instructions_do_not_count_blocks(
            module,
            state,
            block.instructions@,
            0,
            locals,
            context,
            budget,
            more,
            depth,
        );
        let (state1, locals1, r) = run_instructions(
            module,
            state,
            block.instructions@,
            0,
            locals,
            context,
            budget,
            depth,
        );
        let less = (budget - 1) as nat;
        let spare = (more - 1) as nat;
        if r is Ok {
            match block.terminator {
                Terminator::Branch(target) => {
                    blocks_to_spare_change_nothing(
                        module,
                        state1,
                        function,
                        target,
                        locals1,
                        context,
                        less,
                        spare,
                        depth,
                    );
                },
                Terminator::CondBranch { condition, then_block, else_block } => {
                    if let Ok(target) = branch_taken(
                        locals1.values,
                        condition,
                        then_block,
                        else_block,
                    ) {
                        blocks_to_spare_change_nothing(
                            module,
                            state1,
                            function,
                            target,
                            locals1,
                            context,
                            less,
                            spare,
                            depth,
                        );
                    }
                },
                Terminator::Switch { scrutinee, variant, cases } => {
                    if let Ok(target) = case_taken(locals1.values, scrutinee, variant, cases@) {
                        blocks_to_spare_change_nothing(
                            module,
                            state1,
                            function,
                            target,
                            locals1,
                            context,
                            less,
                            spare,
                            depth,
                        );
                    }
                },
                Terminator::Invoke {
                    callee,
                    type_args,
                    args,
                    evidence,
                    ok_slot,
                    ok_target,
                    err_targets,
                } => {
                    if let Ok(call) = call_target(
                        module,
                        locals1.values,
                        context.evidence,
                        context.subst,
                        callee,
                        ty_views(type_args@),
                        args@,
                        evidence_views(evidence@),
                        "invoke targets a function not present in this module"@,
                    ) {
                        let (state2, outcome) = called(module, state1, call, depth);
                        if outcome is Ok && invoke_check(
                            module,
                            state1.table,
                            locals1.values,
                            call,
                            ok_slot,
                            err_targets@,
                        ) is Ok {
                            if let Ok((value, slot, target)) = continuation(
                                outcome->Ok_0,
                                ok_slot,
                                ok_target,
                                err_targets@,
                            ) {
                                blocks_to_spare_change_nothing(
                                    module,
                                    state2,
                                    function,
                                    target,
                                    locals1.bind(slot, value),
                                    context,
                                    less,
                                    spare,
                                    depth,
                                );
                            }
                        }
                    }
                },
                _ => {},
            }
        }
    }
}

// ---------------------------------------------------------------------
// What entering a call does to its arguments.
// ---------------------------------------------------------------------

/// Collecting what a value owns collects what it carries.
pub proof fn owning_collects_what_is_carried(
    table: TableView,
    value: ValueView,
    owned: Set<u32>,
    depth: nat,
    id: u32,
)
    requires
        table.own(value, owned, depth).1 is Ok,
        carries(value, id),
    ensures
        table.own(value, owned, depth).0.contains(id),
    decreases MAX_GENERIC_DEPTH - depth, 0nat,
{
    match value {
        ValueView::Resource(handle) => {
            let record = table.record(handle)->Ok_0;
            let more = owned.insert(handle.id.0);
            owning_all_grows(table, record.fields, 0, more, depth + 1);
            assert(more.contains(id));
        },
        ValueView::Record { fields, .. } => {
            let k = choose|k: int| 0 <= k < fields.len() && carries(#[trigger] fields[k], id);
            owning_all_collects(table, fields, 0, owned, depth + 1, k, id);
        },
        ValueView::Variant { payload, .. } => {
            let k = choose|k: int| 0 <= k < payload.len() && carries(#[trigger] payload[k], id);
            owning_all_collects(table, payload, 0, owned, depth + 1, k, id);
        },
        _ => {},
    }
}

proof fn owning_all_collects(
    table: TableView,
    values: Seq<ValueView>,
    i: nat,
    owned: Set<u32>,
    depth: nat,
    k: int,
    id: u32,
)
    requires
        table.own_from(values, i, owned, depth).1 is Ok,
        i <= k < values.len(),
        carries(values[k], id),
    ensures
        table.own_from(values, i, owned, depth).0.contains(id),
    decreases MAX_GENERIC_DEPTH - depth, 1 + values.len() - i,
{
    let (owned1, _) = table.own(values[i as int], owned, depth);
    if i == k {
        owning_collects_what_is_carried(table, values[k], owned, depth, id);
        owning_all_grows(table, values, i + 1, owned1, depth);
        assert(owned1.contains(id));
    } else {
        owning_all_collects(table, values, i + 1, owned1, depth, k, id);
    }
}

/// Whether one of the first `n` arguments is taken and carries the
/// resource numbered `id`.
pub open spec fn taken_in(params: Seq<Param>, args: Seq<ValueView>, n: int, id: u32) -> bool {
    exists|k: int| 0 <= k < n && (#[trigger] params[k]).take && carries(args[k], id)
}

/// Whether a parameter is bound as it must be: a taken argument as its
/// new owner holds it, an observed one as a view.
pub open spec fn bound_rightly(
    table: TableView,
    param: Param,
    arg: ValueView,
    value: ValueView,
) -> bool {
    if param.take {
        &&& forall|id: u32| #[trigger] carries(value, id) <==> carries(arg, id)
        &&& forall|handle: ResourceHandle| #[trigger]
            has_handle(value, handle) ==> moved_handle(table, handle) && carries(arg, handle.id.0)
    } else {
        only_observers(value, None)
    }
}

/// Whether a plan moves exactly what the first `n` arguments carry that
/// are taken.
pub open spec fn planned_so_far(
    table: TableView,
    params: Seq<Param>,
    args: Seq<ValueView>,
    n: int,
    plan: PlanView,
) -> bool {
    &&& sound_plan(table, plan)
    &&& forall|id: u32| #[trigger] moves(plan, id) <==> taken_in(params, args, n, id)
    &&& forall|id: u32| #[trigger] taken_in(params, args, n, id) ==> plan.reachable.contains(id)
}

/// Whether `observed` holds what the first `n` arguments carry that are
/// observed.
pub open spec fn observed_so_far(
    params: Seq<Param>,
    args: Seq<ValueView>,
    n: int,
    observed: Set<u32>,
) -> bool {
    forall|k: int, id: u32|
        0 <= k < n && !(#[trigger] params[k]).take && #[trigger] carries(args[k], id)
            ==> observed.contains(id)
}

/// Whether of the first `n` arguments no two that are taken carry the
/// same resource.
pub open spec fn apart_so_far(params: Seq<Param>, args: Seq<ValueView>, n: int) -> bool {
    forall|j: int, k: int, id: u32|
        0 <= j < k < n && (#[trigger] params[j]).take && (#[trigger] params[k]).take
            && #[trigger] carries(args[j], id) ==> !carries(args[k], id)
}

/// Whether the first `n` arguments that are taken carry owners of live
/// resources only.
pub open spec fn owned_so_far(
    table: TableView,
    params: Seq<Param>,
    args: Seq<ValueView>,
    n: int,
) -> bool {
    forall|k: int, handle: ResourceHandle|
        0 <= k < n && (#[trigger] params[k]).take && #[trigger] has_handle(args[k], handle)
            ==> handle.role is Owner && table.observe(handle) is Ok
}

/// Whether the first `n` parameters are bound as they must be, but for
/// those that a later one of the same name replaced.
pub open spec fn values_so_far(
    table: TableView,
    params: Seq<Param>,
    args: Seq<ValueView>,
    n: int,
    values: Map<u32, ValueView>,
) -> bool {
    forall|k: int|
        0 <= k < n && (forall|l: int|
            k < l < n ==> (#[trigger] params[l]).value != params[k].value) ==> {
            &&& values.contains_key((#[trigger] params[k]).value.0)
            &&& bound_rightly(table, params[k], args[k], values[params[k].value.0])
        }
}

/// What binding the first `n` parameters has come to.
pub open spec fn bound_so_far(
    table: TableView,
    params: Seq<Param>,
    args: Seq<ValueView>,
    n: int,
    binding: BindingView,
) -> bool {
    &&& planned_so_far(table, params, args, n, binding.plan)
    &&& observed_so_far(params, args, n, binding.observed)
    &&& apart_so_far(params, args, n)
    &&& owned_so_far(table, params, args, n)
    &&& values_so_far(table, params, args, n, binding.values)
}

proof fn planning_one_more_argument(
    table: TableView,
    params: Seq<Param>,
    args: Seq<ValueView>,
    n: int,
    plan: PlanView,
    plan1: PlanView,
    moved: ValueView,
)
    requires
        0 <= n < params.len(),
        planned_so_far(table, params, args, n, plan),
        apart_so_far(params, args, n),
        owned_so_far(table, params, args, n),
        params[n].take,
        planned(table, args[n], plan, plan1, moved),
    ensures
        planned_so_far(table, params, args, n + 1, plan1),
        apart_so_far(params, args, n + 1),
        owned_so_far(table, params, args, n + 1),
        bound_rightly(table, params[n], args[n], moved),
{
    let arg = args[n];
    assert forall|id: u32| #[trigger] moves(plan1, id) <==> taken_in(
        params,
        args,
        n + 1,
        id,
    ) by {
        assert(moves(plan1, id) <==> moves(plan, id) || carries(arg, id));
        taken_in_one_more(params, args, n, id);
    }
    assert forall|id: u32| #[trigger]
        taken_in(params, args, n + 1, id) implies plan1.reachable.contains(id) by {
        taken_in_one_more(params, args, n, id);
    }
    assert forall|j: int, k: int, id: u32|
        0 <= j < k < n + 1 && (#[trigger] params[j]).take && (#[trigger] params[k]).take
            && #[trigger] carries(args[j], id) implies !carries(args[k], id) by {
        if k == n {
            assert(taken_in(params, args, n, id));
            if carries(arg, id) {
                assert(!plan.reachable.contains(id));
            }
        }
    }
}

proof fn binding_one_more_value(
    table: TableView,
    params: Seq<Param>,
    args: Seq<ValueView>,
    n: int,
    values: Map<u32, ValueView>,
    value: ValueView,
)
    requires
        0 <= n < params.len(),
        values_so_far(table, params, args, n, values),
        bound_rightly(table, params[n], args[n], value),
    ensures
        values_so_far(table, params, args, n + 1, values.insert(params[n].value.0, value)),
{
    let next = values.insert(params[n].value.0, value);
    assert forall|k: int|
        0 <= k < n + 1 && (forall|l: int|
            k < l < n + 1 ==> (#[trigger] params[l]).value != params[k].value) implies {
        &&& next.contains_key((#[trigger] params[k]).value.0)
        &&& bound_rightly(table, params[k], args[k], next[params[k].value.0])
    } by {
        if k < n {
            assert(params[n].value != params[k].value);
            assert(forall|l: int| k < l < n ==> (#[trigger] params[l]).value != params[k].value);
            assert(values.contains_key(params[k].value.0));
        }
    }
}

proof fn binding_one_more(
    module: Module,
    table: TableView,
    params: Seq<Param>,
    args: Seq<ValueView>,
    subst: Map<u32, TyView>,
    n: int,
    binding: BindingView,
    next: BindingView,
)
    requires
        0 <= n < params.len(),
        bound_so_far(table, params, args, n, binding),
        bound_argument(module, table, params[n], args[n], subst, binding) == Ok::<
            BindingView,
            ErrorView,
        >(next),
    ensures
        bound_so_far(table, params, args, n + 1, next),
{
    let param = params[n];
    let arg = args[n];
    if param.take {
        planning_moves_what_is_carried(module, table, arg, binding.plan, 0);
        let moved = plan_transferring(module, table, arg, binding.plan, 0).1->Ok_0;
        planning_one_more_argument(table, params, args, n, binding.plan, next.plan, moved);
        binding_one_more_value(table, params, args, n, binding.values, moved);
    } else {
        let view = table.observing_view(arg, None, 0)->Ok_0;
        observing_view_carries_only_observers(table, arg, None, 0, view);
        binding_one_more_value(table, params, args, n, binding.values, view);
        observing_one_more(table, params, args, n, binding, next);
    }
}

proof fn observing_one_more(
    table: TableView,
    params: Seq<Param>,
    args: Seq<ValueView>,
    n: int,
    binding: BindingView,
    next: BindingView,
)
    requires
        0 <= n < params.len(),
        !params[n].take,
        planned_so_far(table, params, args, n, binding.plan),
        observed_so_far(params, args, n, binding.observed),
        apart_so_far(params, args, n),
        owned_so_far(table, params, args, n),
        next.plan == binding.plan,
        table.own(args[n], Set::empty(), 0).1 is Ok,
        next.observed == binding.observed.union(table.own(args[n], Set::empty(), 0).0),
    ensures
        planned_so_far(table, params, args, n + 1, next.plan),
        observed_so_far(params, args, n + 1, next.observed),
        apart_so_far(params, args, n + 1),
        owned_so_far(table, params, args, n + 1),
{
    assert forall|id: u32| #[trigger] moves(next.plan, id) <==> taken_in(
        params,
        args,
        n + 1,
        id,
    ) by {
        taken_in_one_more(params, args, n, id);
    }
    assert forall|id: u32| #[trigger]
        taken_in(params, args, n + 1, id) implies next.plan.reachable.contains(id) by {
        taken_in_one_more(params, args, n, id);
    }
    assert forall|k: int, id: u32|
        0 <= k < n + 1 && !(#[trigger] params[k]).take && #[trigger] carries(
            args[k],
            id,
        ) implies next.observed.contains(id) by {
        if k == n {
            owning_collects_what_is_carried(table, args[n], Set::empty(), 0, id);
        }
    }
}

proof fn taken_in_one_more(params: Seq<Param>, args: Seq<ValueView>, n: int, id: u32)
    requires
        0 <= n < params.len(),
    ensures
        taken_in(params, args, n + 1, id) <==> taken_in(params, args, n, id) || (params[n].take
            && carries(args[n], id)),
{
    if taken_in(params, args, n, id) {
        let k = choose|k: int| 0 <= k < n && (#[trigger] params[k]).take && carries(args[k], id);
        assert(params[k].take);
    }
    if taken_in(params, args, n + 1, id) {
        let k = choose|k: int|
            0 <= k < n + 1 && (#[trigger] params[k]).take && carries(args[k], id);
        assert(params[k].take);
    }
    assert(params[n].take == params[n].take);
}

proof fn binding_the_rest(
    module: Module,
    table: TableView,
    params: Seq<Param>,
    args: Seq<ValueView>,
    subst: Map<u32, TyView>,
    i: nat,
    binding: BindingView,
    end: BindingView,
)
    requires
        i <= params.len(),
        bound_so_far(table, params, args, i as int, binding),
        bound_arguments(module, table, params, args, subst, i, binding) == Ok::<
            BindingView,
            ErrorView,
        >(end),
    ensures
        bound_so_far(table, params, args, params.len() as int, end),
    decreases params.len() - i,
{
    if i < params.len() {
        let next = bound_argument(
            module,
            table,
            params[i as int],
            args[i as int],
            subst,
            binding,
        )->Ok_0;
        binding_one_more(module, table, params, args, subst, i as int, binding, next);
        binding_the_rest(module, table, params, args, subst, i + 1, next, end);
    }
}

/// The binding that an entered call came to.
proof fn entered_binding(
    module: Module,
    table: TableView,
    call: CallView,
    entry: EntryView,
) -> (binding: BindingView)
    requires
        entered(module, table, call) == Ok::<EntryView, ErrorView>(entry),
    ensures
        bound_so_far(
            table,
            call.callee.params@,
            call.args,
            call.callee.params@.len() as int,
            binding,
        ),
        alias_check(binding.plan.reachable, binding.observed) is Ok,
        entry.table == table.advanced(binding.plan.transitions, 0),
        entry.values == binding.values,
{
    let params = call.callee.params@;
    let start = BindingView::empty();
    let binding = bound_arguments(
        module,
        table,
        params,
        call.args,
        entry.context.subst,
        0,
        start,
    )->Ok_0;
    assert(bound_so_far(table, params, call.args, 0, start));
    binding_the_rest(module, table, params, call.args, entry.context.subst, 0, start, binding);
    binding
}

/// The check of aliases passes exactly where the two sets are disjoint.
pub proof fn alias_check_passes_where_nothing_is_shared(taken: Set<u32>, observed: Set<u32>)
    ensures
        alias_check(taken, observed) is Ok <==> forall|id: u32| #[trigger]
            taken.contains(id) ==> !observed.contains(id),
{
    if exists|id: u32| #[trigger] taken.contains(id) && observed.contains(id) {
        let witness = choose|id: u32| #[trigger] taken.contains(id) && observed.contains(id);
        let shared = |id: u32| taken.contains(id) && observed.contains(id);
        let lowest = lowest_with(shared, witness);
        assert forall|other: u32|
            taken.contains(other) && #[trigger] observed.contains(other) implies lowest
            <= other by {
            assert(shared(other));
        }
        assert(lowest_shared(taken, observed, lowest));
    }
}

/// A call that takes a resource passes it once: where an argument that
/// is taken carries a resource, and another argument carries it too, the
/// call is refused, whether the other is taken or observed.
pub proof fn taken_argument_is_not_shared(
    module: Module,
    table: TableView,
    call: CallView,
    i: int,
    j: int,
    id: u32,
)
    requires
        0 <= i < call.callee.params@.len(),
        0 <= j < call.callee.params@.len(),
        i != j,
        call.callee.params@[i].take,
        carries(call.args[i], id),
        carries(call.args[j], id),
    ensures
        entered(module, table, call) is Err,
{
    if entered(module, table, call) is Ok {
        let entry = entered(module, table, call)->Ok_0;
        let binding = entered_binding(module, table, call, entry);
        let params = call.callee.params@;
        let n = params.len() as int;
        assert(taken_in(params, call.args, n, id));
        assert(binding.plan.reachable.contains(id));
        alias_check_passes_where_nothing_is_shared(binding.plan.reachable, binding.observed);
        if params[j].take {
            if i < j {
                assert(!carries(call.args[j], id));
            } else {
                assert(!carries(call.args[i], id));
            }
        } else {
            assert(binding.observed.contains(id));
        }
    }
}

/// Entering a call moves exactly what its taken arguments carry: the
/// generation of each such resource rises by one, so every handle the
/// caller still has of it is stale, and nothing else changes. A taken
/// parameter holds what its argument carried, through handles that own
/// and work; an observing one holds observers only.
pub proof fn entering_moves_what_is_taken(
    module: Module,
    table: TableView,
    call: CallView,
    entry: EntryView,
)
    requires
        entered(module, table, call) == Ok::<EntryView, ErrorView>(entry),
        forall|k: int, l: int|
            0 <= k < l < call.callee.params@.len() ==> (#[trigger] call.callee.params@[k]).value
                != (#[trigger] call.callee.params@[l]).value,
    ensures
        entry.table.leases == table.leases,
        entry.table.records.len() == table.records.len(),
        forall|id: u32|
            (id as int) < table.records.len() ==> #[trigger] entry.table.records[id as int]
                == if taken_in(
                call.callee.params@,
                call.args,
                call.callee.params@.len() as int,
                id,
            ) {
                RecordView {
                    generation: next_generation(table.records[id as int].generation),
                    ..table.records[id as int]
                }
            } else {
                table.records[id as int]
            },
        forall|k: int, handle: ResourceHandle|
            0 <= k < call.callee.params@.len() && (#[trigger] call.callee.params@[k]).take
                && #[trigger] has_handle(call.args[k], handle) ==> entry.table.record(handle)
                is Err,
        forall|k: int|
            0 <= k < call.callee.params@.len() ==> entry.values.contains_key(
                (#[trigger] call.callee.params@[k]).value.0,
            ),
        forall|k: int, handle: ResourceHandle|
            0 <= k < call.callee.params@.len() && (#[trigger] call.callee.params@[k]).take
                && #[trigger] has_handle(
                entry.values[call.callee.params@[k].value.0],
                handle,
            ) ==> handle.role is Owner && entry.table.observe(handle) is Ok,
        forall|k: int|
            0 <= k < call.callee.params@.len() && !(#[trigger] call.callee.params@[k]).take
                ==> only_observers(entry.values[call.callee.params@[k].value.0], None),
{
    let params = call.callee.params@;
    let n = params.len() as int;
    let binding = entered_binding(module, table, call, entry);
    carrying_out_a_sound_plan(table, binding.plan);
    assert forall|id: u32|
        (id as int) < table.records.len() implies #[trigger] entry.table.records[id as int]
        == if taken_in(params, call.args, n, id) {
        RecordView {
            generation: next_generation(table.records[id as int].generation),
            ..table.records[id as int]
        }
    } else {
        table.records[id as int]
    } by {
        assert(moves(binding.plan, id) <==> taken_in(params, call.args, n, id));
    }
    assert forall|k: int, handle: ResourceHandle|
        0 <= k < n && (#[trigger] params[k]).take && #[trigger] has_handle(
            call.args[k],
            handle,
        ) implies entry.table.record(handle) is Err by {
        handle_is_carried(call.args[k], handle);
        assert(taken_in(params, call.args, n, handle.id.0));
        assert(table.observe(handle) is Ok);
        assert(entry.table.records[handle.id.0 as int].generation != handle.generation);
    }
    assert forall|k: int| 0 <= k < n implies entry.values.contains_key(
        (#[trigger] params[k]).value.0,
    ) && bound_rightly(table, params[k], call.args[k], entry.values[params[k].value.0]) by {
        assert(forall|l: int| k < l < n ==> (#[trigger] params[l]).value != params[k].value);
    }
    assert forall|k: int, handle: ResourceHandle|
        0 <= k < n && (#[trigger] params[k]).take && #[trigger] has_handle(
            entry.values[params[k].value.0],
            handle,
        ) implies handle.role is Owner && entry.table.observe(handle) is Ok by {
        assert(bound_rightly(table, params[k], call.args[k], entry.values[params[k].value.0]));
        assert(moved_handle(table, handle));
        assert(taken_in(params, call.args, n, handle.id.0));
        assert(entry.table.records[handle.id.0 as int].generation == handle.generation);
    }
}

proof fn arguments_fit_from(
    module: Module,
    table: TableView,
    params: Seq<Param>,
    args: Seq<ValueView>,
    subst: Map<u32, TyView>,
    i: nat,
    binding: BindingView,
)
    requires
        bound_arguments(module, table, params, args, subst, i, binding) is Ok,
    ensures
        forall|k: int|
            i <= k < params.len() ==> argument_check(
                module,
                table,
                args[k],
                substituted((#[trigger] params[k]).ty@, subst),
            ) is Ok,
    decreases params.len() - i,
{
    if i < params.len() {
        let next = bound_argument(
            module,
            table,
            params[i as int],
            args[i as int],
            subst,
            binding,
        )->Ok_0;
        arguments_fit_from(module, table, params, args, subst, i + 1, next);
    }
}

/// The arguments of a call fit their parameters under one instantiation,
/// the one its type arguments give: a type parameter means the same type
/// in all of them.
pub proof fn arguments_fit_one_instantiation(
    module: Module,
    table: TableView,
    call: CallView,
    entry: EntryView,
)
    requires
        entered(module, table, call) == Ok::<EntryView, ErrorView>(entry),
    ensures
        instantiation(param_ids(call.callee.type_params@), call.type_args) == Some(
            entry.context.subst,
        ),
        call.args.len() == call.callee.params@.len(),
        forall|k: int|
            0 <= k < call.args.len() ==> argument_check(
                module,
                table,
                call.args[k],
                substituted((#[trigger] call.callee.params@[k]).ty@, entry.context.subst),
            ) is Ok,
{
    arguments_fit_from(
        module,
        table,
        call.callee.params@,
        call.args,
        entry.context.subst,
        0,
        BindingView::empty(),
    );
}

/// Whether every entry names an extension.
pub open spec fn concrete_evidence(evidence: Seq<EvidenceView>) -> bool {
    forall|k: int| 0 <= k < evidence.len() ==> (#[trigger] evidence[k]) is Extension
}

proof fn resolving_evidence(
    current: Seq<EvidenceView>,
    entries: Seq<EvidenceView>,
    i: nat,
    done: Seq<EvidenceView>,
)
    requires
        concrete_evidence(current),
        concrete_evidence(done),
        i <= entries.len(),
        done.len() == i,
    ensures
        evidence_from(current, entries, i, done) matches Ok(resolved) ==> concrete_evidence(
            resolved,
        ) && resolved.len() == entries.len(),
    decreases entries.len() - i,
{
    if i < entries.len() {
        match evidence_in(current, entries[i as int]) {
            Ok(entry) => resolving_evidence(current, entries, i + 1, done.push(entry)),
            Err(_) => {},
        }
    }
}

/// A frame whose own evidence names extensions calls with evidence that
/// does: what it forwards is what it was given.
pub proof fn forwarded_evidence_is_concrete(
    module: Module,
    frame: Map<u32, ValueView>,
    current: Seq<EvidenceView>,
    subst: Map<u32, TyView>,
    item: ItemId,
    type_args: Seq<TyView>,
    args: Seq<ValueId>,
    evidence: Seq<EvidenceView>,
    unknown: Seq<char>,
    call: CallView,
)
    requires
        concrete_evidence(current),
        call_target(module, frame, current, subst, item, type_args, args, evidence, unknown)
            == Ok::<CallView, ErrorView>(call),
    ensures
        concrete_evidence(call.evidence),
        call.evidence.len() == evidence.len(),
{
    resolving_evidence(current, evidence, 0, Seq::empty());
}

/// A call that was entered is recorded before anything it does.
pub proof fn entered_call_is_recorded(
    module: Module,
    state: StateView,
    call: CallView,
    depth: nat,
)
    requires
        sound_state(module, state),
        depth < MAX_CALL_DEPTH,
        entered(module, state.table, call) is Ok,
    ensures
        called(module, state, call, depth).0.events.len() > state.events.len(),
        called(module, state, call, depth).0.events[state.events.len() as int] == Event::Call(
            call.callee.id,
        ),
{
    let entry = entered(module, state.table, call)->Ok_0;
    let state1 = StateView {
        table: entry.table,
        events: state.events.push(Event::Call(call.callee.id)),
    };
    let locals = LocalsView { values: entry.values, leases: Seq::empty() };
    let end = called(module, state, call, depth).0;
    crate::laws::history::entering_is_lawful(module, state, call);
    crate::laws::history::running_blocks_is_lawful(
        module,
        state1,
        call.callee,
        BlockId(0),
        locals,
        entry.context,
        MAX_BLOCKS as nat,
        depth + 1,
    );
    assert(follows(state1, end));
    assert(end.events[state.events.len() as int] == state1.events[state.events.len() as int]);
}

// ---------------------------------------------------------------------
// Leaving a frame, and refusals within one.
// ---------------------------------------------------------------------

/// The check for leaks passes exactly where no value of the frame, apart
/// from those it only observes, still owns a live resource that does not
/// leave with the result.
pub proof fn leak_check_passes_where_nothing_is_abandoned(
    table: TableView,
    values: Map<u32, ValueView>,
    observing: Set<u32>,
    exiting: Set<u32>,
    attempt: Seq<char>,
)
    ensures
        leak_check(table, values, observing, exiting, attempt) is Ok <==> forall|id: u32|
            !#[trigger] table.leaks(values, observing, exiting, id),
{
    if exists|id: u32| #[trigger] table.leaks(values, observing, exiting, id) {
        let witness = choose|id: u32| #[trigger] table.leaks(values, observing, exiting, id);
        let leaking = |id: u32| table.leaks(values, observing, exiting, id);
        let lowest = lowest_with(leaking, witness);
        assert forall|other: u32| #[trigger]
            table.leaks(values, observing, exiting, other) implies lowest <= other by {
            assert(leaking(other));
        }
        assert(table.lowest_leak(values, observing, exiting, lowest));
    }
}

/// A function that returns abandons nothing: what its frame still owned
/// leaves with the result.
pub proof fn returning_abandons_nothing(
    module: Module,
    table: TableView,
    function: Function,
    values: Map<u32, ValueView>,
    context: ContextView,
    id: Option<ValueId>,
    other: u32,
)
    requires
        returned(module, table, function, values, context, id) is Ok,
    ensures
        match id {
            None => !table.leaks(values, context.observing, Set::empty(), other),
            Some(id) => values.contains_key(id.0) && !table.leaks(
                values,
                context.observing,
                plan_inner(module, table, values[id.0], PlanView::empty(), 0).0.reachable,
                other,
            ),
        },
{
    let attempt = "function returned while still owning an undestroyed resource (%"@;
    match id {
        None => leak_check_passes_where_nothing_is_abandoned(
            table,
            values,
            context.observing,
            Set::empty(),
            attempt,
        ),
        Some(id) => {
            let plan = plan_transferring(module, table, values[id.0], PlanView::empty(), 0).0;
            leak_check_passes_where_nothing_is_abandoned(
                table,
                values,
                context.observing,
                plan.reachable,
                attempt,
            );
        },
    }
}

/// An invocation goes on after a failure only where the failure is a
/// variant that one of its targets names, and then at that target, with
/// the failure as it was raised.
pub proof fn caught_failure_is_a_named_variant(
    failure: ValueView,
    ok_slot: ValueId,
    ok_target: BlockId,
    targets: Seq<FailureTarget>,
    value: ValueView,
    slot: ValueId,
    target: BlockId,
)
    requires
        continuation(OutcomeView::Raised(failure), ok_slot, ok_target, targets) == Ok::<
            (ValueView, ValueId, BlockId),
            ErrorView,
        >((value, slot, target)),
    ensures
        value == failure,
        failure matches ValueView::Variant { item, .. } && exists|k: int|
            0 <= k < targets.len() && (#[trigger] targets[k]).variant == item && targets[k].slot
                == slot && targets[k].target == target,
{
    target_is_listed(targets, failure->Variant_item, 0);
}

proof fn target_is_listed(targets: Seq<FailureTarget>, item: ItemId, i: nat)
    ensures
        find_target(targets, item, i) matches Some(target) ==> target.variant == item && exists|
            k: int,
        | 0 <= k < targets.len() && #[trigger] targets[k] == target,
    decreases targets.len() - i,
{
    if i < targets.len() {
        if targets[i as int].variant == item {
            assert(targets[i as int] == find_target(targets, item, i)->0);
        } else {
            target_is_listed(targets, item, i + 1);
        }
    }
}

/// Whether an instruction runs another function.
pub open spec fn calls(instruction: Instruction) -> bool {
    instruction matches Instruction::Value { kind, .. } && (kind is Call || kind is ProtocolCall)
}

/// Whether an instruction begins an observation.
pub open spec fn begins_observation(instruction: Instruction) -> bool {
    instruction matches Instruction::Value { kind, .. } && kind is ObservePlace
}

/// A refused instruction changes nothing, unless it ran another function
/// or had opened its observation's lease.
pub proof fn refused_instruction_changes_nothing(
    module: Module,
    state: StateView,
    instruction: Instruction,
    locals: LocalsView,
    context: ContextView,
    depth: nat,
)
    requires
        executed(module, state, instruction, locals, context, depth).2 is Err,
    ensures
        !calls(instruction) && !begins_observation(instruction) ==> executed(
            module,
            state,
            instruction,
            locals,
            context,
            depth,
        ).0 == state && executed(module, state, instruction, locals, context, depth).1 == locals,
        executed(module, state, instruction, locals, context, depth).1.values == locals.values,
{
}

/// An instruction other than a call or a destruction records nothing.
pub proof fn only_calls_and_drops_are_recorded(
    module: Module,
    state: StateView,
    instruction: Instruction,
    locals: LocalsView,
    context: ContextView,
    depth: nat,
)
    requires
        !calls(instruction),
        !(instruction is Drop),
    ensures
        executed(module, state, instruction, locals, context, depth).0.events == state.events,
{
}

} // verus!
