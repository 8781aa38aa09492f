use crate::entry::{call_by_item, call_by_name, function_called};
use crate::eval::{find_function, CallView};
use crate::frame::{
    bound_argument, bound_arguments, called, entered, executed, failure_slots, find_block,
    find_target, invoke_check, leak_check, leaving, invoke_plan, raised, returned, run_blocks, run_instructions,
    continuation, BindingView, ContextView, LocalsView, OutcomeView,
};
use crate::ids::{BlockId, ItemId, ValueId};
use crate::interpreter::{Event, StateView};
use crate::laws::call::leak_check_passes_where_nothing_is_abandoned;
use crate::laws::dispatch::{
    declared_by, described, function_is_the_first, hands_back, only_described_call,
};
use crate::laws::entering::block_is_the_first_of_its_number;
use crate::laws::graph::{reaches, what_is_reached_is_met};
use crate::laws::holding::binding_knows_what_is_reached;
use crate::laws::owed::{movable, movable_value_is_planned, nothing_else_is_owned};
use crate::laws::step::{
    handed_over, nests_within, only_handle, owned_resource_is_noticed, planned_is_reached,
    transfer_hands_over,
};
use crate::laws::transfer::has_handle;
use crate::layout::param_ids;
use crate::ownership::{plan_inner, plan_transferring, PlanView};
use crate::program::{
    BasicBlock, FailureTarget, Function, Instruction, Module, Param, Terminator, MAX_GENERIC_DEPTH,
};
use crate::table::TableView;
use crate::type_ops::{instantiation, substituted};
use crate::types::{evidence_views, ty_views, EvidenceView, TyView};
use crate::validate::argument_check;
use crate::value::{ErrorView, ResourceHandle, ValueView};
use vstd::prelude::*;

verus! {

/// A frame of a function as it runs: what does not change while it does.
pub struct Course {
    pub module: Module,
    pub function: Function,
    pub context: ContextView,
    pub depth: nat,
}

impl Course {
    /// What running comes to from the start of a block.
    #[verifier::opaque]
    pub open spec fn from(
        self,
        state: StateView,
        locals: LocalsView,
        block: BlockId,
        budget: nat,
    ) -> (StateView, Result<OutcomeView, ErrorView>) {
        run_blocks(
            self.module,
            state,
            self.function,
            block,
            locals,
            self.context,
            budget,
            self.depth,
        )
    }

    /// What one instruction comes to.
    #[verifier::opaque]
    pub open spec fn does(
        self,
        instruction: Instruction,
        at: (StateView, LocalsView),
    ) -> (StateView, LocalsView, Result<(), ErrorView>) {
        executed(self.module, at.0, instruction, at.1, self.context, self.depth)
    }

    /// Whether `trace` is what carrying out instructions in their order
    /// leads through: each is carried out in what the one before it left.
    pub open spec fn leads(
        self,
        instructions: Seq<Instruction>,
        trace: Seq<(StateView, LocalsView)>,
    ) -> bool {
        &&& 0 < trace.len() <= instructions.len() + 1
        &&& forall|k: int|
            0 <= k < trace.len() - 1 ==> #[trigger] self.leads_on(instructions, trace, k)
    }

    /// Whether the instruction at `k`, carried out in what stands there in
    /// `trace`, succeeds and leaves what stands next.
    pub open spec fn leads_on(
        self,
        instructions: Seq<Instruction>,
        trace: Seq<(StateView, LocalsView)>,
        k: int,
    ) -> bool {
        let (state, locals, r) = self.does(instructions[k], trace[k]);
        r is Ok && trace[k + 1] == (state, locals)
    }

    /// Whether `block` is the first of the function's with the number `id`.
    pub open spec fn has(self, id: BlockId, block: BasicBlock) -> bool {
        exists|k: int|
            0 <= k < self.function.blocks@.len() && #[trigger] self.function.blocks@[k] == block
                && block.id == id && forall|j: int|
                0 <= j < k ==> (#[trigger] self.function.blocks@[j]).id != id
    }
}

proof fn block_is_had(at: Course, id: BlockId, block: BasicBlock)
    requires
        at.has(id, block),
    ensures
        find_block(at.function.blocks@, id, 0) == Some(block),
{
    let blocks = at.function.blocks@;
    block_is_the_first_of_its_number(blocks, id, 0);
    let k = choose|k: int|
        0 <= k < blocks.len() && #[trigger] blocks[k] == block && block.id == id && forall|j: int|
            0 <= j < k ==> (#[trigger] blocks[j]).id != id;
    assert(blocks[k].id == id);
    let found = find_block(blocks, id, 0)->0;
    let l = choose|l: int|
        0 <= l < blocks.len() && #[trigger] blocks[l] == found && found.id == id && forall|j: int|
            0 <= j < l ==> (#[trigger] blocks[j]).id != id;
    assert(blocks[l].id == id);
    assert(k == l);
}

/// A frame that goes on at a block its function does not have is refused.
pub proof fn unknown_block_is_refused(
    at: Course,
    state: StateView,
    locals: LocalsView,
    id: BlockId,
    budget: nat,
)
    requires
        forall|k: int|
            0 <= k < at.function.blocks@.len() ==> (#[trigger] at.function.blocks@[k]).id != id,
    ensures
        at.from(state, locals, id, budget).0 == state,
        at.from(state, locals, id, budget).1 is Err,
{
    reveal(Course::from);
    block_is_the_first_of_its_number(at.function.blocks@, id, 0);
}

proof fn instruction_comes_next(
    at: Course,
    state: StateView,
    instructions: Seq<Instruction>,
    i: nat,
    locals: LocalsView,
    budget: nat,
)
    requires
        i < instructions.len(),
    ensures
        ({
            let (state1, locals1, r) = at.does(instructions[i as int], (state, locals));
            run_instructions(
                at.module,
                state,
                instructions,
                i,
                locals,
                at.context,
                budget,
                at.depth,
            ) == if r is Ok {
                run_instructions(
                    at.module,
                    state1,
                    instructions,
                    i + 1,
                    locals1,
                    at.context,
                    budget,
                    at.depth,
                )
            } else {
                (state1, locals1, r)
            }
        }),
{
    reveal(Course::does);
}

proof fn refused_instruction_ends_the_frame(
    at: Course,
    state: StateView,
    locals: LocalsView,
    id: BlockId,
    block: BasicBlock,
    budget: nat,
)
    requires
        budget > 0,
        find_block(at.function.blocks@, id, 0) == Some(block),
    ensures
        ({
            let (state1, _, r) = run_instructions(
                at.module,
                state,
                block.instructions@,
                0,
                locals,
                at.context,
                budget,
                at.depth,
            );
            r is Err ==> at.from(state, locals, id, budget) == (
                state1,
                Err::<OutcomeView, ErrorView>(r->Err_0),
            )
        }),
{
    reveal(Course::from);
}

proof fn instructions_lead(
    at: Course,
    state: StateView,
    instructions: Seq<Instruction>,
    i: nat,
    locals: LocalsView,
    budget: nat,
    before: Seq<(StateView, LocalsView)>,
) -> (trace: Seq<(StateView, LocalsView)>)
    requires
        i <= instructions.len(),
        before.len() == i + 1,
        at.leads(instructions, before),
        before.last() == (state, locals),
    ensures
        before.is_prefix_of(trace),
        at.leads(instructions, trace),
        ({
            let (state1, locals1, r) = run_instructions(
                at.module,
                state,
                instructions,
                i,
                locals,
                at.context,
                budget,
                at.depth,
            );
            if trace.len() == instructions.len() + 1 {
                r is Ok && trace.last() == (state1, locals1)
            } else {
                r is Err && at.does(instructions[trace.len() - 1], trace.last()) == (
                    state1,
                    locals1,
                    r,
                )
            }
        }),
    decreases instructions.len() - i,
{
    if i < instructions.len() {
        let (state1, locals1, r) = at.does(instructions[i as int], before.last());
        instruction_comes_next(at, state, instructions, i, locals, budget);
        if r is Ok {
            let next = before.push((state1, locals1));
            assert forall|k: int| 0 <= k < next.len() - 1 implies #[trigger] at.leads_on(
                instructions,
                next,
                k,
            ) by {
                if k < i {
                    assert(at.leads_on(instructions, before, k));
                    assert(before[k] == next[k]);
                    assert(before[k + 1] == next[k + 1]);
                } else {
                    assert(next[k] == before.last());
                    assert(next[k + 1] == (state1, locals1));
                }
            }
            let trace = instructions_lead(at, state1, instructions, i + 1, locals1, budget, next);
            assert(before.is_prefix_of(trace)) by {
                assert forall|k: int| 0 <= k < before.len() implies before[k] == trace[k] by {
                    assert(next[k] == trace[k]);
                }
            }
            trace
        } else {
            before
        }
    } else {
        before
    }
}

/// A block carries out its instructions in their order, and stops at the
/// first that is refused, which then is what the frame comes to. After the
/// last of them its terminator acts on what they left.
pub proof fn block_runs_in_order(
    at: Course,
    state: StateView,
    locals: LocalsView,
    id: BlockId,
    block: BasicBlock,
    budget: nat,
) -> (trace: Seq<(StateView, LocalsView)>)
    requires
        at.has(id, block),
        budget > 0,
    ensures
        at.leads(block.instructions@, trace),
        trace[0] == (state, locals),
        trace.len() <= block.instructions@.len() ==> {
            let (state1, _, r) = at.does(block.instructions@[trace.len() - 1], trace.last());
            &&& r is Err
            &&& at.from(state, locals, id, budget) == (
                state1,
                Err::<OutcomeView, ErrorView>(r->Err_0),
            )
        },
        trace.len() == block.instructions@.len() + 1 ==> terminates(
            at,
            block.terminator,
            trace.last().0,
            trace.last().1,
            (budget - 1) as nat,
            at.from(state, locals, id, budget),
        ),
{
    block_is_had(at, id, block);
    let start = seq![(state, locals)];
    let trace = instructions_lead(at, state, block.instructions@, 0, locals, budget, start);
    assert(start[0] == trace[0]);
    refused_instruction_ends_the_frame(at, state, locals, id, block, budget);
    if trace.len() == block.instructions@.len() + 1 {
        let (state1, locals1) = trace.last();
        terminator_acts(
            at,
            block.terminator,
            state1,
            locals1,
            budget,
            state,
            locals,
            id,
            block,
        );
    }
    trace
}

/// Whether a frame comes to `end` where its terminator acts on what its
/// instructions left:
/// - a branch goes on at its target;
/// - a condition goes on at the one block where it is true and at the
///   other where it is false;
/// - a switch goes on at the target of the case that is live;
/// - a return and a failure end the frame;
/// - an invocation goes on where its call's outcome says.
pub open spec fn terminates(
    at: Course,
    terminator: Terminator,
    state: StateView,
    locals: LocalsView,
    budget: nat,
    end: (StateView, Result<OutcomeView, ErrorView>),
) -> bool {
    match terminator {
        Terminator::Branch(target) => end == at.from(state, locals, target, budget),
        Terminator::CondBranch { condition, then_block, else_block } => {
            let value = locals.values[condition.0];
            if locals.values.contains_key(condition.0) && value == ValueView::Bool(true) {
                end == at.from(state, locals, then_block, budget)
            } else if locals.values.contains_key(condition.0) && value == ValueView::Bool(false) {
                end == at.from(state, locals, else_block, budget)
            } else {
                end.0 == state && end.1 is Err
            }
        },
        Terminator::Switch { scrutinee, variant, cases } => {
            if locals.values.contains_key(scrutinee.0) && switches(
                locals.values[scrutinee.0],
                variant,
                cases@.len(),
            ) {
                end == at.from(
                    state,
                    locals,
                    cases@[locals.values[scrutinee.0]->Variant_case as int],
                    budget,
                )
            } else {
                end.0 == state && end.1 is Err
            }
        },
        Terminator::Return(None) => end.0 == state && match end.1 {
            Ok(outcome) => outcome == OutcomeView::Returned(ValueView::Unit) && abandons_nothing(
                at,
                state,
                locals,
                None,
            ),
            Err(_) => !(fits_result(at, state, ValueView::Unit)
                && cleared(at, state, locals, None)),
        },
        Terminator::Return(Some(value)) => match end.1 {
            Ok(outcome) => {
                &&& outcome matches OutcomeView::Returned(result)
                &&& locals.values.contains_key(value.0)
                &&& handed_over(state.table, locals.values[value.0], end.0.table, result)
                &&& abandons_nothing(at, state, locals, Some(value))
                &&& end.0.events == state.events
            },
            Err(_) => end.0 == state && !(leaves(at, state, locals, value) && fits_result(
                at,
                state,
                locals.values[value.0],
            )),
        },
        Terminator::Raise { value } => match end.1 {
            Ok(outcome) => {
                &&& outcome matches OutcomeView::Raised(failure)
                &&& locals.values.contains_key(value.0)
                &&& handed_over(state.table, locals.values[value.0], end.0.table, failure)
                &&& abandons_nothing(at, state, locals, Some(value))
                &&& end.0.events == state.events
            },
            Err(_) => end.0 == state && !leaves(at, state, locals, value),
        },
        Terminator::Invoke { .. } => invocation(at, terminator, state, locals, budget, end),
    }
}

/// Whether a value fits the type that the function returns.
pub open spec fn fits_result(at: Course, state: StateView, value: ValueView) -> bool {
    argument_check(
        at.module,
        state.table,
        value,
        substituted(at.function.return_type@, at.context.subst),
    ) is Ok
}

/// Whether a frame can be left with a value of it: the value can be moved,
/// and nothing else is owned.
pub open spec fn leaves(
    at: Course,
    state: StateView,
    locals: LocalsView,
    value: ValueId,
) -> bool {
    &&& locals.values.contains_key(value.0)
    &&& movable(at.module, state.table, locals.values[value.0])
    &&& cleared(at, state, locals, Some(value))
}

/// Whether a frame owns nothing but what is reached from `leaving`: every
/// other handle in it observes or is stale, unless it lies in a parameter
/// that only observes.
pub open spec fn cleared(
    at: Course,
    state: StateView,
    locals: LocalsView,
    leaving: Option<ValueId>,
) -> bool {
    forall|id: u32, handle: ResourceHandle|
        locals.values.contains_key(id) && !at.context.observing.contains(id)
            && #[trigger] has_handle(locals.values[id], handle) ==> handle.role is Observer
            || state.table.record(handle) is Err || (leaving matches Some(value) && exists|
            hops: nat,
        | #[trigger]
            reaches(state.table, locals.values[value.0], handle.id.0, hops))
}

proof fn cleared_frame_leaks_nothing(
    at: Course,
    state: StateView,
    locals: LocalsView,
    leaving: Option<ValueId>,
    exiting: Set<u32>,
    attempt: Seq<char>,
)
    requires
        cleared(at, state, locals, leaving),
        leaving matches Some(value) ==> forall|id: u32, hops: nat| #[trigger]
            reaches(state.table, locals.values[value.0], id, hops) ==> exiting.contains(id),
    ensures
        leak_check(state.table, locals.values, at.context.observing, exiting, attempt) is Ok,
{
    assert forall|id: u32|
        !#[trigger] state.table.leaks(locals.values, at.context.observing, exiting, id) by {
        if locals.values.contains_key(id) && !at.context.observing.contains(id) {
            let value = locals.values[id];
            assert forall|handle: ResourceHandle| #[trigger]
                has_handle(value, handle) implies handle.role is Observer || state.table.record(
                handle,
            ) is Err || exiting.contains(handle.id.0) by {
                assert(has_handle(locals.values[id], handle));
            }
            nothing_else_is_owned(state.table, value, Set::empty(), 0, exiting);
        }
    }
    leak_check_passes_where_nothing_is_abandoned(
        state.table,
        locals.values,
        at.context.observing,
        exiting,
        attempt,
    );
}

proof fn cleared_frame_is_left(
    at: Course,
    state: StateView,
    locals: LocalsView,
    value: ValueId,
    attempt: Seq<char>,
)
    requires
        leaves(at, state, locals, value),
    ensures
        leaving(
            at.module,
            state.table,
            locals.values,
            at.context.observing,
            locals.values[value.0],
            attempt,
        ) is Ok,
{
    let operand = locals.values[value.0];
    movable_value_is_planned(at.module, state.table, operand, PlanView::empty());
    let exiting = plan_transferring(
        at.module,
        state.table,
        operand,
        PlanView::empty(),
        0,
    ).0.reachable;
    assert forall|id: u32, hops: nat| #[trigger]
        reaches(state.table, operand, id, hops) implies exiting.contains(id) by {
        what_is_reached_is_met(at.module, state.table, operand, None, Set::empty(), 0, id, hops);
    }
    cleared_frame_leaks_nothing(at, state, locals, Some(value), exiting, attempt);
}

/// Whether a frame that is left with `leaving` abandons nothing: a resource
/// that one of its values owns alone, alive, is reached from what leaves,
/// unless the value is a parameter that only observes.
pub open spec fn abandons_nothing(
    at: Course,
    state: StateView,
    locals: LocalsView,
    leaving: Option<ValueId>,
) -> bool {
    forall|id: ValueId, handle: ResourceHandle| #[trigger]
        owns_alone(state.table, locals, id, handle) && !at.context.observing.contains(id.0) ==> (
        leaving matches Some(value) && exists|hops: nat| #[trigger]
            reaches(state.table, locals.values[value.0], handle.id.0, hops))
}

proof fn checked_leaving_abandons_nothing(
    at: Course,
    state: StateView,
    locals: LocalsView,
    leaving: Option<ValueId>,
    exiting: Set<u32>,
)
    requires
        forall|id: u32|
            !#[trigger] state.table.leaks(locals.values, at.context.observing, exiting, id),
        match leaving {
            None => exiting == Set::<u32>::empty(),
            Some(value) => exiting == plan_inner(
                at.module,
                state.table,
                locals.values[value.0],
                PlanView::empty(),
                0,
            ).0.reachable && plan_inner(
                at.module,
                state.table,
                locals.values[value.0],
                PlanView::empty(),
                0,
            ).1 is Ok,
        },
    ensures
        abandons_nothing(at, state, locals, leaving),
{
    assert forall|id: ValueId, handle: ResourceHandle| #[trigger]
        owns_alone(state.table, locals, id, handle) && !at.context.observing.contains(
            id.0,
        ) implies (leaving matches Some(value) && exists|hops: nat| #[trigger]
        reaches(state.table, locals.values[value.0], handle.id.0, hops)) by {
        assert(!state.table.leaks(locals.values, at.context.observing, exiting, id.0));
        if !exiting.contains(handle.id.0) {
            owned_resource_is_noticed(
                state.table,
                locals.values[id.0],
                handle,
                Set::empty(),
                0,
                exiting,
            );
        }
        let value = leaving->0;
        let hops = planned_is_reached(
            at.module,
            state.table,
            locals.values[value.0],
            PlanView::empty(),
            0,
            handle.id.0,
        );
        assert(reaches(state.table, locals.values[value.0], handle.id.0, hops));
    }
}

/// Whether a switch over `variant` with `n` cases has a target for
/// `value`.
pub open spec fn switches(value: ValueView, variant: ItemId, n: nat) -> bool {
    value matches ValueView::Variant { item, case, .. } && item == variant && case < n
}

proof fn terminator_acts(
    at: Course,
    terminator: Terminator,
    state1: StateView,
    locals1: LocalsView,
    budget: nat,
    state: StateView,
    locals: LocalsView,
    id: BlockId,
    block: BasicBlock,
)
    requires
        budget > 0,
        find_block(at.function.blocks@, id, 0) == Some(block),
        terminator == block.terminator,
        ({
            let (left, remaining, r) = run_instructions(
                at.module,
                state,
                block.instructions@,
                0,
                locals,
                at.context,
                budget,
                at.depth,
            );
            r is Ok && left == state1 && remaining == locals1
        }),
    ensures
        terminates(
            at,
            terminator,
            state1,
            locals1,
            (budget - 1) as nat,
            at.from(state, locals, id, budget),
        ),
{
    reveal(Course::from);
    match terminator {
        Terminator::Invoke { .. } => {
            invocation_acts(at, terminator, state1, locals1, budget, state, locals, id, block);
        },
        Terminator::Return(None) => {
            if returned(
                at.module,
                state1.table,
                at.function,
                locals1.values,
                at.context,
                None,
            ) is Ok {
                leak_check_passes_where_nothing_is_abandoned(
                    state1.table,
                    locals1.values,
                    at.context.observing,
                    Set::empty(),
                    "function returned while still owning an undestroyed resource (%"@,
                );
                checked_leaving_abandons_nothing(at, state1, locals1, None, Set::empty());
            } else if fits_result(at, state1, ValueView::Unit)
                && cleared(at, state1, locals1, None) {
                cleared_frame_leaks_nothing(
                    at,
                    state1,
                    locals1,
                    None,
                    Set::empty(),
                    "function returned while still owning an undestroyed resource (%"@,
                );
            }
        },
        Terminator::Return(Some(value)) => {
            match returned(
                at.module,
                state1.table,
                at.function,
                locals1.values,
                at.context,
                Some(value),
            ) {
                Ok((table, result)) => {
                    transfer_hands_over(
                        at.module,
                        state1.table,
                        locals1.values[value.0],
                        table,
                        result,
                    );
                    let exiting = plan_inner(
                        at.module,
                        state1.table,
                        locals1.values[value.0],
                        PlanView::empty(),
                        0,
                    ).0.reachable;
                    leak_check_passes_where_nothing_is_abandoned(
                        state1.table,
                        locals1.values,
                        at.context.observing,
                        exiting,
                        "function returned while still owning an undestroyed resource (%"@,
                    );
                    checked_leaving_abandons_nothing(at, state1, locals1, Some(value), exiting);
                },
                Err(_) => {
                    if leaves(at, state1, locals1, value) {
                        cleared_frame_is_left(
                            at,
                            state1,
                            locals1,
                            value,
                            "function returned while still owning an undestroyed resource (%"@,
                        );
                    }
                },
            }
        },
        Terminator::Raise { value } => {
            match raised(at.module, state1.table, locals1.values, at.context, value) {
                Ok((table, failure)) => {
                    transfer_hands_over(
                        at.module,
                        state1.table,
                        locals1.values[value.0],
                        table,
                        failure,
                    );
                    let exiting = plan_inner(
                        at.module,
                        state1.table,
                        locals1.values[value.0],
                        PlanView::empty(),
                        0,
                    ).0.reachable;
                    leak_check_passes_where_nothing_is_abandoned(
                        state1.table,
                        locals1.values,
                        at.context.observing,
                        exiting,
                        "function raised while still owning an undestroyed resource (%"@,
                    );
                    checked_leaving_abandons_nothing(at, state1, locals1, Some(value), exiting);
                },
                Err(_) => {
                    if leaves(at, state1, locals1, value) {
                        cleared_frame_is_left(
                            at,
                            state1,
                            locals1,
                            value,
                            "function raised while still owning an undestroyed resource (%"@,
                        );
                    }
                },
            }
        },
        _ => {},
    }
}

// ---------------------------------------------------------------------
// Calls.
// ---------------------------------------------------------------------

/// A call that is entered is recorded and runs its function from the block
/// numbered zero, with its parameters bound and no observation active, one
/// frame deeper. One that is not entered, or would be the frame after the
/// last there may be, is refused and changes nothing.
pub proof fn call_runs_its_function(module: Module, state: StateView, call: CallView, depth: nat)
    ensures
        depth >= 256 ==> called(module, state, call, depth).0 == state && called(
            module,
            state,
            call,
            depth,
        ).1 is Err,
        depth < 256 ==> match entered(module, state.table, call) {
            Err(e) => called(module, state, call, depth) == (
                state,
                Err::<OutcomeView, ErrorView>(e),
            ),
            Ok(entry) => called(module, state, call, depth) == (Course {
                module,
                function: call.callee,
                context: entry.context,
                depth: depth + 1,
            }).from(
                StateView {
                    table: entry.table,
                    events: state.events.push(Event::Call(call.callee.id)),
                },
                LocalsView { values: entry.values, leases: Seq::empty() },
                BlockId(0),
                0xffff_ffff_ffff_ffff,
            ),
        },
{
    reveal(Course::from);
}

/// Whether `target` is the first of `targets` for failures of `item`.
pub open spec fn handles(targets: Seq<FailureTarget>, item: ItemId, target: FailureTarget) -> bool {
    exists|k: int|
        0 <= k < targets.len() && #[trigger] targets[k] == target && target.variant == item
            && forall|j: int| 0 <= j < k ==> (#[trigger] targets[j]).variant != item
}

proof fn target_is_the_first(targets: Seq<FailureTarget>, item: ItemId, i: nat)
    ensures
        match find_target(targets, item, i) {
            Some(target) => exists|k: int|
                i <= k < targets.len() && #[trigger] targets[k] == target && target.variant == item
                    && forall|j: int| i <= j < k ==> (#[trigger] targets[j]).variant != item,
            None => forall|k: int|
                i <= k < targets.len() ==> (#[trigger] targets[k]).variant != item,
        },
    decreases targets.len() - i,
{
    if i < targets.len() && targets[i as int].variant != item {
        target_is_the_first(targets, item, i + 1);
    }
}

/// Whether the frame that made a call by an invocation comes to `end`: it
/// goes on with the result at the one place where the call returned, and
/// with the failure at the first target for its variant where it raised
/// one. The result or the failure is all that the frame gains.
pub open spec fn goes_on(
    at: Course,
    locals: LocalsView,
    outcome: (StateView, Result<OutcomeView, ErrorView>),
    ok_slot: ValueId,
    ok_target: BlockId,
    targets: Seq<FailureTarget>,
    budget: nat,
    end: (StateView, Result<OutcomeView, ErrorView>),
) -> bool {
    match outcome.1 {
        Err(e) => end == (outcome.0, Err::<OutcomeView, ErrorView>(e)),
        Ok(OutcomeView::Returned(value)) => end == at.from(
            outcome.0,
            LocalsView { values: locals.values.insert(ok_slot.0, value), leases: locals.leases },
            ok_target,
            budget,
        ),
        Ok(OutcomeView::Raised(value)) => {
            ||| value matches ValueView::Variant { item, .. } && exists|target: FailureTarget|
                {
                    &&& #[trigger] handles(targets, item, target)
                    &&& end == at.from(
                        outcome.0,
                        LocalsView {
                            values: locals.values.insert(target.slot.0, value),
                            leases: locals.leases,
                        },
                        target.target,
                        budget,
                    )
                }
            ||| {
                &&& end.0 == outcome.0 && end.1 is Err
                &&& value matches ValueView::Variant { item, .. } ==> forall|k: int|
                    0 <= k < targets.len() ==> (#[trigger] targets[k]).variant != item
            }
        },
    }
}

proof fn binding_plans_as_invoking_does(
    module: Module,
    table: TableView,
    params: Seq<Param>,
    args: Seq<ValueView>,
    subst: Map<u32, TyView>,
    i: nat,
    binding: BindingView,
)
    requires
        bound_arguments(module, table, params, args, subst, i, binding) is Ok,
    ensures
        invoke_plan(module, table, params, args, Some(subst), i, binding.plan) == Ok::<
            PlanView,
            ErrorView,
        >(bound_arguments(module, table, params, args, subst, i, binding)->Ok_0.plan),
    decreases params.len() - i,
{
    if i < params.len() {
        let next = bound_argument(
            module,
            table,
            params[i as int],
            args[i as int],
            subst,
            binding,
        )->Ok_0;
        binding_plans_as_invoking_does(module, table, params, args, subst, i + 1, next);
    }
}

proof fn invoking_plans_what_is_reached(
    module: Module,
    table: TableView,
    params: Seq<Param>,
    args: Seq<ValueView>,
    subst: Option<Map<u32, TyView>>,
    i: nat,
    plan: PlanView,
    id: u32,
)
    requires
        invoke_plan(module, table, params, args, subst, i, plan) is Ok,
        !plan.reachable.contains(id),
        invoke_plan(module, table, params, args, subst, i, plan)->Ok_0.reachable.contains(id),
    ensures
        exists|k: int, hops: nat|
            0 <= k < params.len() && (#[trigger] params[k]).take && #[trigger] reaches(
                table,
                args[k],
                id,
                hops,
            ),
    decreases params.len() - i,
{
    if i < params.len() {
        let param = params[i as int];
        if param.take {
            let plan1 = plan_inner(module, table, args[i as int], plan, 0).0;
            if plan1.reachable.contains(id) {
                let hops = planned_is_reached(module, table, args[i as int], plan, 0, id);
                assert(params[i as int].take && reaches(table, args[i as int], id, hops));
            } else {
                invoking_plans_what_is_reached(
                    module,
                    table,
                    params,
                    args,
                    subst,
                    i + 1,
                    plan1,
                    id,
                );
            }
        } else {
            invoking_plans_what_is_reached(module, table, params, args, subst, i + 1, plan, id);
        }
    }
}

/// Whether a slot is one that an invocation may fill.
pub open spec fn filled_by_invocation(
    ok_slot: ValueId,
    targets: Seq<FailureTarget>,
    slot: ValueId,
) -> bool {
    slot == ok_slot || exists|k: int| 0 <= k < targets.len() && (#[trigger] targets[k]).slot == slot
}

proof fn failure_slots_are_checked(
    table: TableView,
    values: Map<u32, ValueView>,
    targets: Seq<FailureTarget>,
    retired: Set<u32>,
    i: nat,
)
    ensures
        failure_slots(table, values, targets, retired, i) is Ok ==> forall|k: int|
            i <= k < targets.len() && values.contains_key((#[trigger] targets[k]).slot.0)
                ==> !table.owns_live(values[targets[k].slot.0], Set::empty(), 0, retired).1,
        (forall|k: int|
            i <= k < targets.len() && values.contains_key((#[trigger] targets[k]).slot.0)
                ==> !table.owns_live(values[targets[k].slot.0], Set::empty(), 0, retired).1)
            ==> failure_slots(table, values, targets, retired, i) is Ok,
    decreases targets.len() - i,
{
    if i < targets.len() {
        failure_slots_are_checked(table, values, targets, retired, i + 1);
    }
}

/// Whether a frame comes to `end` where an invocation acts on what its
/// instructions left: it makes the call that its operands describe, and
/// goes on as the outcome says, or is refused with nothing changed. Where
/// the operands do describe a call, it is refused only if that call is, or
/// if a slot that it may fill holds on to something that the call does not
/// take.
pub open spec fn invocation(
    at: Course,
    terminator: Terminator,
    state: StateView,
    locals: LocalsView,
    budget: nat,
    end: (StateView, Result<OutcomeView, ErrorView>),
) -> bool {
    match terminator {
        Terminator::Invoke {
            callee,
            type_args,
            args,
            evidence,
            ok_slot,
            ok_target,
            err_targets,
        } => {
            ||| exists|call: CallView|
                {
                    &&& #[trigger] described(
                        at.module,
                        locals.values,
                        at.context.evidence,
                        at.context.subst,
                        callee,
                        ty_views(type_args@),
                        args@,
                        evidence_views(evidence@),
                        call,
                    )
                    &&& goes_on(
                        at,
                        locals,
                        called(at.module, state, call, at.depth),
                        ok_slot,
                        ok_target,
                        err_targets@,
                        budget,
                        end,
                    )
                    &&& forall|slot: ValueId, handle: ResourceHandle| #[trigger]
                        owns_alone(state.table, locals, slot, handle) && filled_by_invocation(
                            ok_slot,
                            err_targets@,
                            slot,
                        ) && counts_fit(call) ==> exists|k: int, hops: nat|
                            0 <= k < call.callee.params@.len() && (
                            #[trigger] call.callee.params@[k]).take && #[trigger] reaches(
                                state.table,
                                call.args[k],
                                handle.id.0,
                                hops,
                            )
                }
            ||| {
                &&& end.0 == state && end.1 is Err
                &&& forall|call: CallView| #[trigger]
                    described(
                        at.module,
                        locals.values,
                        at.context.evidence,
                        at.context.subst,
                        callee,
                        ty_views(type_args@),
                        args@,
                        evidence_views(evidence@),
                        call,
                    ) ==> called(at.module, state, call, at.depth).1 is Err || exists|slot: ValueId|
                        #[trigger]
                        filled_by_invocation(ok_slot, err_targets@, slot) && holds_on(
                            state.table,
                            locals,
                            call,
                            slot,
                        )
            }
        },
        _ => false,
    }
}

/// Whether a value of the frame owns one resource, alive, through `handle`
/// and nothing else.
pub open spec fn owns_alone(
    table: TableView,
    locals: LocalsView,
    id: ValueId,
    handle: ResourceHandle,
) -> bool {
    &&& locals.values.contains_key(id.0)
    &&& nests_within(locals.values[id.0], MAX_GENERIC_DEPTH as nat)
    &&& has_handle(locals.values[id.0], handle)
    &&& only_handle(locals.values[id.0], handle)
    &&& handle.role is Owner
    &&& table.observe(handle) is Ok
}

/// Whether a call has as many arguments and evidence entries as its
/// function declares.
pub open spec fn counts_fit(call: CallView) -> bool {
    &&& call.args.len() == call.callee.params@.len()
    &&& call.evidence.len() == call.callee.requirements@.len()
}

proof fn checked_invocation_overwrites_nothing(
    module: Module,
    table: TableView,
    locals: LocalsView,
    call: CallView,
    ok_slot: ValueId,
    targets: Seq<FailureTarget>,
    slot: ValueId,
    handle: ResourceHandle,
)
    requires
        invoke_check(module, table, locals.values, call, ok_slot, targets) is Ok,
        counts_fit(call),
        owns_alone(table, locals, slot, handle),
        filled_by_invocation(ok_slot, targets, slot),
    ensures
        exists|k: int, hops: nat|
            0 <= k < call.callee.params@.len() && (#[trigger] call.callee.params@[k]).take
                && #[trigger] reaches(table, call.args[k], handle.id.0, hops),
{
    let params = call.callee.params@;
    let subst = instantiation(param_ids(call.callee.type_params@), call.type_args);
    let plan = invoke_plan(
        module,
        table,
        params,
        call.args,
        subst,
        0,
        PlanView::empty(),
    )->Ok_0;
    failure_slots_are_checked(table, locals.values, targets, plan.reachable, 0);
    if slot != ok_slot {
        let k = choose|k: int| 0 <= k < targets.len() && (#[trigger] targets[k]).slot == slot;
        assert(targets[k].slot == slot);
    }
    assert(!table.owns_live(locals.values[slot.0], Set::empty(), 0, plan.reachable).1);
    if !plan.reachable.contains(handle.id.0) {
        owned_resource_is_noticed(
            table,
            locals.values[slot.0],
            handle,
            Set::empty(),
            0,
            plan.reachable,
        );
    }
    invoking_plans_what_is_reached(
        module,
        table,
        params,
        call.args,
        subst,
        0,
        PlanView::empty(),
        handle.id.0,
    );
}

proof fn refused_invocation_has_its_reason(
    module: Module,
    state: StateView,
    locals: LocalsView,
    call: CallView,
    ok_slot: ValueId,
    targets: Seq<FailureTarget>,
    depth: nat,
)
    requires
        invoke_check(module, state.table, locals.values, call, ok_slot, targets) is Err,
    ensures
        called(module, state, call, depth).1 is Err || exists|slot: ValueId| #[trigger]
            filled_by_invocation(ok_slot, targets, slot) && holds_on(
                state.table,
                locals,
                call,
                slot,
            ),
{
    if called(module, state, call, depth).1 is Ok {
        let subst = entered(module, state.table, call)->Ok_0.context.subst;
        binding_plans_as_invoking_does(
            module,
            state.table,
            call.callee.params@,
            call.args,
            subst,
            0,
            BindingView::empty(),
        );
        let plan = invoke_plan(
            module,
            state.table,
            call.callee.params@,
            call.args,
            Some(subst),
            0,
            PlanView::empty(),
        )->Ok_0;
        failure_slots_are_checked(state.table, locals.values, targets, plan.reachable, 0);
        let owning = |slot: ValueId|
            locals.values.contains_key(slot.0) && state.table.owns_live(
                locals.values[slot.0],
                Set::empty(),
                0,
                plan.reachable,
            ).1;
        let slot = if owning(ok_slot) {
            ok_slot
        } else {
            let k = choose|k: int|
                0 <= k < targets.len() && locals.values.contains_key((#[trigger] targets[k]).slot.0)
                    && state.table.owns_live(
                    locals.values[targets[k].slot.0],
                    Set::empty(),
                    0,
                    plan.reachable,
                ).1;
            targets[k].slot
        };
        assert(filled_by_invocation(ok_slot, targets, slot));
        if !holds_on(state.table, locals, call, slot) {
            assert forall|handle: ResourceHandle| #[trigger]
                has_handle(locals.values[slot.0], handle) implies handle.role is Observer
                || state.table.record(handle) is Err || plan.reachable.contains(handle.id.0) by {
                if !(handle.role is Observer) && state.table.record(handle) is Ok {
                    let (k, hops) = choose|k: int, hops: nat|
                        0 <= k < call.callee.params@.len() && (
                        #[trigger] call.callee.params@[k]).take && #[trigger] reaches(
                            state.table,
                            call.args[k],
                            handle.id.0,
                            hops,
                        );
                    binding_knows_what_is_reached(
                        module,
                        state.table,
                        call.callee.params@,
                        call.args,
                        subst,
                        0,
                        BindingView::empty(),
                        k,
                        handle.id.0,
                        hops,
                    );
                }
            }
            nothing_else_is_owned(
                state.table,
                locals.values[slot.0],
                Set::empty(),
                0,
                plan.reachable,
            );
        }
    }
}

/// Whether a slot of the frame holds a handle that owns, is current, and
/// whose resource no argument that a call takes reaches.
pub open spec fn holds_on(
    table: TableView,
    locals: LocalsView,
    call: CallView,
    slot: ValueId,
) -> bool {
    locals.values.contains_key(slot.0) && exists|handle: ResourceHandle|
        {
            &&& #[trigger] has_handle(locals.values[slot.0], handle)
            &&& handle.role is Owner
            &&& table.record(handle) is Ok
            &&& forall|k: int, hops: nat|
                0 <= k < call.callee.params@.len() && (#[trigger] call.callee.params@[k]).take
                    ==> !#[trigger] reaches(table, call.args[k], handle.id.0, hops)
        }
}

proof fn invocation_continues(
    at: Course,
    locals: LocalsView,
    outcome: (StateView, Result<OutcomeView, ErrorView>),
    ok_slot: ValueId,
    ok_target: BlockId,
    targets: Seq<FailureTarget>,
    budget: nat,
)
    ensures
        goes_on(
            at,
            locals,
            outcome,
            ok_slot,
            ok_target,
            targets,
            budget,
            match outcome.1 {
                Err(e) => (outcome.0, Err::<OutcomeView, ErrorView>(e)),
                Ok(result) => match continuation(result, ok_slot, ok_target, targets) {
                    Err(e) => (outcome.0, Err::<OutcomeView, ErrorView>(e)),
                    Ok((value, slot, target)) => at.from(
                        outcome.0,
                        locals.bind(slot, value),
                        target,
                        budget,
                    ),
                },
            },
        ),
{
    match outcome.1 {
        Ok(OutcomeView::Raised(ValueView::Variant { item, .. })) => {
            target_is_the_first(targets, item, 0);
            match find_target(targets, item, 0) {
                Some(target) => {
                    assert(handles(targets, item, target));
                },
                None => {},
            }
        },
        _ => {},
    }
}

proof fn invocation_acts(
    at: Course,
    terminator: Terminator,
    state1: StateView,
    locals1: LocalsView,
    budget: nat,
    state: StateView,
    locals: LocalsView,
    id: BlockId,
    block: BasicBlock,
)
    requires
        budget > 0,
        find_block(at.function.blocks@, id, 0) == Some(block),
        terminator == block.terminator,
        terminator is Invoke,
        ({
            let (left, remaining, r) = run_instructions(
                at.module,
                state,
                block.instructions@,
                0,
                locals,
                at.context,
                budget,
                at.depth,
            );
            r is Ok && left == state1 && remaining == locals1
        }),
    ensures
        invocation(
            at,
            terminator,
            state1,
            locals1,
            (budget - 1) as nat,
            at.from(state, locals, id, budget),
        ),
{
    match terminator {
        Terminator::Invoke {
            callee,
            type_args,
            args,
            evidence,
            ok_slot,
            ok_target,
            err_targets,
        } => {
            let made = only_described_call(
                at.module,
                locals1.values,
                at.context.evidence,
                at.context.subst,
                callee,
                ty_views(type_args@),
                args@,
                evidence_views(evidence@),
                "invoke targets a function not present in this module"@,
            );
            let targets = err_targets@;
            match made {
                Some(call) => {
                    assert(described(
                        at.module,
                        locals1.values,
                        at.context.evidence,
                        at.context.subst,
                        callee,
                        ty_views(type_args@),
                        args@,
                        evidence_views(evidence@),
                        call,
                    ));
                    if invoke_check(
                        at.module,
                        state1.table,
                        locals1.values,
                        call,
                        ok_slot,
                        targets,
                    ) is Ok {
                        assert(at.from(state, locals, id, budget) == {
                            let outcome = called(at.module, state1, call, at.depth);
                            match outcome.1 {
                                Err(e) => (outcome.0, Err::<OutcomeView, ErrorView>(e)),
                                Ok(result) => match continuation(
                                    result,
                                    ok_slot,
                                    ok_target,
                                    targets,
                                ) {
                                    Err(e) => (outcome.0, Err::<OutcomeView, ErrorView>(e)),
                                    Ok((value, slot, target)) => at.from(
                                        outcome.0,
                                        locals1.bind(slot, value),
                                        target,
                                        (budget - 1) as nat,
                                    ),
                                },
                            }
                        }) by {
                            reveal(Course::from);
                        }
                        invocation_continues(
                            at,
                            locals1,
                            called(at.module, state1, call, at.depth),
                            ok_slot,
                            ok_target,
                            targets,
                            (budget - 1) as nat,
                        );
                        assert forall|slot: ValueId, handle: ResourceHandle| #[trigger]
                            owns_alone(state1.table, locals1, slot, handle)
                                && filled_by_invocation(ok_slot, targets, slot) && counts_fit(
                                call,
                            ) implies exists|k: int, hops: nat|
                            0 <= k < call.callee.params@.len() && (
                            #[trigger] call.callee.params@[k]).take && #[trigger] reaches(
                                state1.table,
                                call.args[k],
                                handle.id.0,
                                hops,
                            ) by {
                            checked_invocation_overwrites_nothing(
                                at.module,
                                state1.table,
                                locals1,
                                call,
                                ok_slot,
                                targets,
                                slot,
                                handle,
                            );
                        }
                    } else {
                        refused_invocation_has_its_reason(
                            at.module,
                            state1,
                            locals1,
                            call,
                            ok_slot,
                            targets,
                            at.depth,
                        );
                        reveal(Course::from);
                    }
                },
                None => {
                    reveal(Course::from);
                },
            }
        },
        _ => {},
    }
}

// ---------------------------------------------------------------------
// Calls from outside.
// ---------------------------------------------------------------------

/// The call of a function from outside: with arguments, and neither type
/// arguments nor evidence.
pub open spec fn plain_call(function: Function, args: Seq<ValueView>) -> CallView {
    CallView {
        callee: function,
        type_args: Seq::<TyView>::empty(),
        args,
        evidence: Seq::<EvidenceView>::empty(),
    }
}

/// Calling by declaration calls the first function of that declaration
/// with the arguments given, and gives back what it returned. A failure is
/// refused.
pub proof fn item_calls_its_function(
    module: Module,
    state: StateView,
    item: ItemId,
    args: Seq<ValueView>,
    depth: nat,
    function: Function,
)
    requires
        declared_by(module.functions@, item, function),
    ensures
        call_by_item(module, state, item, args, depth).0 == called(
            module,
            state,
            plain_call(function, args),
            depth,
        ).0,
        hands_back(
            called(module, state, plain_call(function, args), depth).1,
            call_by_item(module, state, item, args, depth).1,
        ),
{
    function_is_the_first(module.functions@, item, 0, function);
}

/// Calling by a declaration of no function changes nothing and is refused.
pub proof fn unknown_item_is_refused(
    module: Module,
    state: StateView,
    item: ItemId,
    args: Seq<ValueView>,
    depth: nat,
)
    requires
        forall|k: int|
            0 <= k < module.functions@.len() ==> (#[trigger] module.functions@[k]).id != item,
    ensures
        call_by_item(module, state, item, args, depth).0 == state,
        call_by_item(module, state, item, args, depth).1 is Err,
{
    match find_function(module.functions@, item, 0) {
        Some(function) => {
            function_is_the_first(module.functions@, item, 0, function);
        },
        None => {},
    }
}

/// Whether a function is called `name`.
pub open spec fn is_called(
    names: Seq<Seq<char>>,
    function: Function,
    name: Seq<char>,
) -> bool {
    (function.name.0 as int) < names.len() && names[function.name.0 as int] == name
}

proof fn function_of_a_name_is_the_first(
    functions: Seq<Function>,
    names: Seq<Seq<char>>,
    name: Seq<char>,
    i: nat,
)
    ensures
        match function_called(functions, names, name, i) {
            Some(function) => exists|k: int|
                i <= k < functions.len() && #[trigger] functions[k] == function && is_called(
                    names,
                    function,
                    name,
                ) && forall|j: int| i <= j < k ==> !is_called(names, #[trigger] functions[j], name),
            None => forall|k: int|
                i <= k < functions.len() ==> !is_called(names, #[trigger] functions[k], name),
        },
    decreases functions.len() - i,
{
    if i < functions.len() && !is_called(names, functions[i as int], name) {
        function_of_a_name_is_the_first(functions, names, name, i + 1);
    }
}

/// Calling by name calls the first function called that with the arguments
/// given, and gives back what it returned; a failure is refused. Where no
/// function is called that, nothing changes and the call is refused.
pub proof fn name_calls_its_function(
    module: Module,
    state: StateView,
    names: Seq<Seq<char>>,
    name: Seq<char>,
    args: Seq<ValueView>,
    depth: nat,
    k: int,
)
    requires
        0 <= k <= module.functions@.len(),
        k < module.functions@.len() ==> is_called(names, module.functions@[k], name),
        forall|j: int| 0 <= j < k ==> !is_called(names, #[trigger] module.functions@[j], name),
    ensures
        ({
            let (state1, r) = call_by_name(module, state, names, name, args, depth);
            if k < module.functions@.len() {
                let call = plain_call(module.functions@[k], args);
                state1 == called(module, state, call, depth).0 && hands_back(
                    called(module, state, call, depth).1,
                    r,
                )
            } else {
                state1 == state && r is Err
            }
        }),
{
    let functions = module.functions@;
    function_of_a_name_is_the_first(functions, names, name, 0);
    match function_called(functions, names, name, 0) {
        Some(function) => {
            let l = choose|l: int|
                0 <= l < functions.len() && #[trigger] functions[l] == function && is_called(
                    names,
                    function,
                    name,
                ) && forall|j: int| 0 <= j < l ==> !is_called(names, #[trigger] functions[j], name);
            if l < k {
                assert(!is_called(names, functions[l], name));
            }
            if k < l {
                assert(!is_called(names, functions[k], name));
            }
        },
        None => {
            if k < functions.len() {
                assert(!is_called(names, functions[k], name));
            }
        },
    }
}

} // verus!
