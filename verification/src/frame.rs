use crate::destroy::{dropping, not_affine};
use crate::eval::{call_target, computed, protocol_target, CallView};
use crate::idmap::{IdMap, IdSet};
use crate::ids::{BlockId, ItemId, ObservationId, RuntimeObservationId, ValueId};
use crate::interpreter::{Event, StateView};
use crate::layout::param_ids;
use crate::ownership::{plan_transferring, PlanView};
use crate::program::{
    BasicBlock, FailureTarget, Function, Instruction, Module, OwnershipMode, Param, Terminator,
    ValueKind, MAX_BLOCKS, MAX_CALL_DEPTH,
};
use crate::structural::{
    decomposition, observation_begun, observation_ended, place_access, place_store,
};
use crate::table::TableView;
use crate::text::decimal;
use crate::type_ops::{instantiation, substituted};
use crate::types::{evidence_views, ty_views, Evidence, EvidenceView, Substitution, Ty, TyView};
use crate::validate::{argument_check, owned_graph};
use crate::value::{refusal, ErrorView, InterpreterError, Value, ValueView};
use crate::value_ops::{read_value, Frame};
use vstd::prelude::*;

verus! {

broadcast use {crate::types::group_type_views, crate::value::group_value_views};

/// How a frame ended: with a result, or with a failure for its caller to
/// handle.
#[derive(Debug)]
pub enum Outcome {
    Returned(Value),
    Raised(Value),
}

/// The mathematical value of an [`Outcome`].
pub enum OutcomeView {
    Returned(ValueView),
    Raised(ValueView),
}

impl View for Outcome {
    type V = OutcomeView;

    open spec fn view(&self) -> OutcomeView {
        match *self {
            Outcome::Returned(value) => OutcomeView::Returned(value@),
            Outcome::Raised(value) => OutcomeView::Raised(value@),
        }
    }
}

/// How a frame ended, or why it was refused, as a mathematical value.
pub open spec fn concluded(r: Result<Outcome, InterpreterError>) -> Result<
    OutcomeView,
    ErrorView,
> {
    match r {
        Ok(outcome) => Ok(outcome@),
        Err(e) => Err(e@),
    }
}

/// What a frame computes with that no instruction changes: its evidence,
/// its instantiation, where its loads read from, the type each of its
/// slots declares, and the values it only observes.
pub struct Context {
    pub evidence: Vec<Evidence>,
    pub subst: Substitution,
    pub origins: IdMap<ValueId>,
    pub slots: IdMap<Ty>,
    pub observing: IdSet,
}

/// The mathematical value of a [`Context`].
pub struct ContextView {
    pub evidence: Seq<EvidenceView>,
    pub subst: Map<u32, TyView>,
    pub origins: Map<u32, ValueId>,
    pub slots: Map<u32, TyView>,
    pub observing: Set<u32>,
}

impl View for Context {
    type V = ContextView;

    open spec fn view(&self) -> ContextView {
        ContextView {
            evidence: evidence_views(self.evidence@),
            subst: self.subst@,
            origins: self.origins@,
            slots: slot_views(self.slots@),
            observing: self.observing@,
        }
    }
}

/// The types that slots declare, as mathematical values.
pub open spec fn slot_views(slots: Map<u32, Ty>) -> Map<u32, TyView> {
    slots.map_values(|ty: Ty| ty.view())
}

/// What a frame's instructions change: its values, and its stack of
/// active observations, innermost last.
pub struct Locals {
    pub values: Frame,
    pub leases: Vec<(ObservationId, RuntimeObservationId)>,
}

/// The mathematical value of a [`Locals`].
pub struct LocalsView {
    pub values: Map<u32, ValueView>,
    pub leases: Seq<(ObservationId, RuntimeObservationId)>,
}

impl View for Locals {
    type V = LocalsView;

    open spec fn view(&self) -> LocalsView {
        LocalsView { values: self.values@, leases: self.leases@ }
    }
}

impl LocalsView {
    /// The locals with `id` bound to `value`.
    pub open spec fn bind(self, id: ValueId, value: ValueView) -> LocalsView {
        LocalsView { values: self.values.insert(id.0, value), leases: self.leases }
    }
}

// ---------------------------------------------------------------------
// Entering a frame.
// ---------------------------------------------------------------------

/// The loads among the instructions from position `i` on, added to
/// `origins`: each result is bound to the slot it was read from.
pub open spec fn loads_from(
    instructions: Seq<Instruction>,
    i: nat,
    origins: Map<u32, ValueId>,
) -> Map<u32, ValueId>
    decreases instructions.len() - i,
{
    if i >= instructions.len() {
        origins
    } else {
        match instructions[i as int] {
            Instruction::Value { result, kind: ValueKind::Load(slot), .. } => loads_from(
                instructions,
                i + 1,
                origins.insert(result.0, slot),
            ),
            _ => loads_from(instructions, i + 1, origins),
        }
    }
}

/// The loads of the blocks from position `i` on, added to `origins`.
pub open spec fn load_origins(
    blocks: Seq<BasicBlock>,
    i: nat,
    origins: Map<u32, ValueId>,
) -> Map<u32, ValueId>
    decreases blocks.len() - i,
{
    if i >= blocks.len() {
        origins
    } else {
        load_origins(
            blocks,
            i + 1,
            loads_from(blocks[i as int].instructions@, 0, origins),
        )
    }
}

/// The slots that the instructions from position `i` on allocate, added
/// to `slots`: each is bound to the type it declares.
pub open spec fn slots_from(
    instructions: Seq<Instruction>,
    i: nat,
    slots: Map<u32, TyView>,
) -> Map<u32, TyView>
    decreases instructions.len() - i,
{
    if i >= instructions.len() {
        slots
    } else {
        match instructions[i as int] {
            Instruction::Value { result, ty, kind: ValueKind::Alloc } => slots_from(
                instructions,
                i + 1,
                slots.insert(result.0, ty@),
            ),
            _ => slots_from(instructions, i + 1, slots),
        }
    }
}

/// The slots that the blocks from position `i` on allocate, added to
/// `slots`.
pub open spec fn slot_types(
    blocks: Seq<BasicBlock>,
    i: nat,
    slots: Map<u32, TyView>,
) -> Map<u32, TyView>
    decreases blocks.len() - i,
{
    if i >= blocks.len() {
        slots
    } else {
        slot_types(
            blocks,
            i + 1,
            slots_from(blocks[i as int].instructions@, 0, slots),
        )
    }
}

/// The parameters from position `i` on that only observe, added to
/// `observing`.
pub open spec fn observing_params(params: Seq<Param>, i: nat, observing: Set<u32>) -> Set<u32>
    decreases params.len() - i,
{
    if i >= params.len() {
        observing
    } else if params[i as int].take {
        observing_params(params, i + 1, observing)
    } else {
        observing_params(params, i + 1, observing.insert(params[i as int].value.0))
    }
}

/// The first block with an id, from position `i` on.
pub open spec fn find_block(blocks: Seq<BasicBlock>, id: BlockId, i: nat) -> Option<BasicBlock>
    decreases blocks.len() - i,
{
    if i >= blocks.len() {
        None
    } else if blocks[i as int].id == id {
        Some(blocks[i as int])
    } else {
        find_block(blocks, id, i + 1)
    }
}

/// What binding parameters has come to: the plan of what is taken, the
/// values bound so far, and what the observing arguments own.
pub struct BindingView {
    pub plan: PlanView,
    pub values: Map<u32, ValueView>,
    pub observed: Set<u32>,
}

impl BindingView {
    pub open spec fn empty() -> BindingView {
        BindingView { plan: PlanView::empty(), values: Map::empty(), observed: Set::empty() }
    }
}

/// Binding one argument: it is checked against the parameter's type
/// under the call's instantiation, then planned to move or turned into
/// an observing view.
pub open spec fn bound_argument(
    module: Module,
    table: TableView,
    param: Param,
    arg: ValueView,
    subst: Map<u32, TyView>,
    binding: BindingView,
) -> Result<BindingView, ErrorView> {
    match argument_check(module, table, arg, substituted(param.ty@, subst)) {
        Err(e) => Err(e),
        Ok(_) => if param.take {
            let (plan, r) = plan_transferring(module, table, arg, binding.plan, 0);
            match r {
                Err(e) => Err(e),
                Ok(moved) => Ok(
                    BindingView {
                        plan,
                        values: binding.values.insert(param.value.0, moved),
                        observed: binding.observed,
                    },
                ),
            }
        } else {
            let (owned, r) = table.own(arg, Set::empty(), 0);
            match r {
                Err(e) => Err(e),
                Ok(_) => match table.observing_view(arg, None, 0) {
                    Err(e) => Err(e),
                    Ok(view) => Ok(
                        BindingView {
                            plan: binding.plan,
                            values: binding.values.insert(param.value.0, view),
                            observed: binding.observed.union(owned),
                        },
                    ),
                },
            }
        },
    }
}

/// Binding the arguments from position `i` on.
pub open spec fn bound_arguments(
    module: Module,
    table: TableView,
    params: Seq<Param>,
    args: Seq<ValueView>,
    subst: Map<u32, TyView>,
    i: nat,
    binding: BindingView,
) -> Result<BindingView, ErrorView>
    decreases params.len() - i,
{
    if i >= params.len() {
        Ok(binding)
    } else {
        match bound_argument(module, table, params[i as int], args[i as int], subst, binding) {
            Err(e) => Err(e),
            Ok(next) => bound_arguments(module, table, params, args, subst, i + 1, next),
        }
    }
}

/// Whether `id` is the lowest number in both sets.
pub open spec fn lowest_shared(a: Set<u32>, b: Set<u32>, id: u32) -> bool {
    &&& a.contains(id)
    &&& b.contains(id)
    &&& forall|other: u32| a.contains(other) && #[trigger] b.contains(other) ==> id <= other
}

/// The refusal of a call that observes and takes the same resource.
pub open spec fn alias_check(taken: Set<u32>, observed: Set<u32>) -> Result<(), ErrorView> {
    if exists|id: u32| lowest_shared(taken, observed, id) {
        let id = choose|id: u32| lowest_shared(taken, observed, id);
        Err(
            refusal(
                "one resource (#"@ + decimal(id as nat)
                    + ") is passed to this call as both an observing argument and a `take` argument, so the callee could destroy it while the observation is still readable"@,
            ),
        )
    } else {
        Ok(())
    }
}

/// A frame that was entered: the table with everything taken moved, the
/// bound parameters, and the frame's context.
pub struct EntryView {
    pub table: TableView,
    pub values: Map<u32, ValueView>,
    pub context: ContextView,
}

/// Entering a call's frame. Nothing changes unless the numbers of
/// arguments, evidence entries and type arguments are the declared ones,
/// every argument fits its parameter, no resource is taken twice or both
/// taken and observed, and there is an entry block.
pub open spec fn entered(module: Module, table: TableView, call: CallView) -> Result<
    EntryView,
    ErrorView,
> {
    let function = call.callee;
    let params = function.params@;
    let type_params = param_ids(function.type_params@);
    if params.len() != call.args.len() {
        Err(
            refusal(
                "function expects "@ + decimal(params.len()) + " argument(s), found "@ + decimal(
                    call.args.len(),
                ) + ""@,
            ),
        )
    } else if function.requirements@.len() != call.evidence.len() {
        Err(
            refusal(
                "function declares "@ + decimal(function.requirements@.len())
                    + " capability requirement(s) but was given "@ + decimal(call.evidence.len())
                    + " evidence entries"@,
            ),
        )
    } else {
        match instantiation(type_params, call.type_args) {
            None => Err(
                refusal(
                    "function declares "@ + decimal(type_params.len())
                        + " type parameter(s) but was instantiated with "@ + decimal(
                        call.type_args.len(),
                    ) + ""@,
                ),
            ),
            Some(subst) => match bound_arguments(
                module,
                table,
                params,
                call.args,
                subst,
                0,
                BindingView::empty(),
            ) {
                Err(e) => Err(e),
                Ok(binding) => match alias_check(binding.plan.reachable, binding.observed) {
                    Err(e) => Err(e),
                    Ok(_) => if find_block(function.blocks@, BlockId(0), 0) is None {
                        Err(refusal("function has no entry block (bb0)"@))
                    } else {
                        Ok(
                            EntryView {
                                table: table.advanced(binding.plan.transitions, 0),
                                values: binding.values,
                                context: ContextView {
                                    evidence: call.evidence,
                                    subst,
                                    origins: load_origins(function.blocks@, 0, Map::empty()),
                                    slots: slot_types(function.blocks@, 0, Map::empty()),
                                    observing: observing_params(params, 0, Set::empty()),
                                },
                            },
                        )
                    },
                },
            },
        }
    }
}

// ---------------------------------------------------------------------
// Single steps.
// ---------------------------------------------------------------------

/// The refusal of a value that does not fit the type `slot` declares. A
/// slot that the frame does not allocate declares none.
pub open spec fn slot_check(
    module: Module,
    table: TableView,
    context: ContextView,
    slot: ValueId,
    incoming: ValueView,
) -> Result<(), ErrorView> {
    if context.slots.contains_key(slot.0) {
        argument_check(
            module,
            table,
            incoming,
            substituted(context.slots[slot.0], context.subst),
        )
    } else {
        Ok(())
    }
}

/// The refusal of capturing a value that does not fit the type declared
/// for the capture.
pub open spec fn capture_check(
    module: Module,
    table: TableView,
    values: Map<u32, ValueView>,
    source: ValueId,
    declared: TyView,
) -> Result<(), ErrorView> {
    match read_value(values, source) {
        Err(e) => Err(e),
        Ok(value) => argument_check(module, table, value, declared),
    }
}

/// Storing into a slot: the table and the values afterwards. The value
/// must fit the type the slot declares, the slot may not own a live
/// resource that the store does not take with it, and an observing store
/// leaves only a view in it. A refusal changes nothing.
pub open spec fn slot_stored(
    module: Module,
    table: TableView,
    values: Map<u32, ValueView>,
    context: ContextView,
    slot: ValueId,
    value: ValueId,
    mode: OwnershipMode,
) -> Result<(TableView, Map<u32, ValueView>), ErrorView> {
    match read_value(values, value) {
        Err(e) => Err(e),
        Ok(incoming) => match slot_check(module, table, context, slot, incoming) {
            Err(e) => Err(e),
            Ok(_) => match mode {
                OwnershipMode::Transfer => match owned_graph(module, table, incoming) {
                    Err(e) => Err(e),
                    Ok(_) => {
                        let (plan, r) = plan_transferring(
                            module,
                            table,
                            incoming,
                            PlanView::empty(),
                            0,
                        );
                        match r {
                            Err(e) => Err(e),
                            Ok(rebuilt) => match overwrite_check(
                                table,
                                values,
                                slot,
                                plan.reachable,
                                "a store would overwrite a slot (%"@,
                            ) {
                                Err(e) => Err(e),
                                Ok(_) => Ok(
                                    (
                                        table.advanced(plan.transitions, 0),
                                        values.insert(slot.0, rebuilt),
                                    ),
                                ),
                            },
                        }
                    },
                },
                OwnershipMode::Observe => match overwrite_check(
                    table,
                    values,
                    slot,
                    Set::empty(),
                    "a store would overwrite a slot (%"@,
                ) {
                    Err(e) => Err(e),
                    Ok(_) => match table.observing_view(incoming, None, 0) {
                        Err(e) => Err(e),
                        Ok(view) => Ok((table, values.insert(slot.0, view))),
                    },
                },
            },
        },
    }
}

/// The refusal of overwriting a slot that owns a live resource, apart
/// from those in `retired`.
pub open spec fn overwrite_check(
    table: TableView,
    values: Map<u32, ValueView>,
    slot: ValueId,
    retired: Set<u32>,
    attempt: Seq<char>,
) -> Result<(), ErrorView> {
    if values.contains_key(slot.0) && table.owns_live(
        values[slot.0],
        Set::empty(),
        0,
        retired,
    ).1 {
        Err(
            refusal(
                attempt + decimal(slot.0 as nat) + ") that still owns an undestroyed resource"@,
            ),
        )
    } else {
        Ok(())
    }
}

/// Destroying a value of a frame and forgetting it: the state and the
/// values afterwards. Only something that may own a resource can be
/// destroyed. A refusal changes nothing.
pub open spec fn value_dropped(
    module: Module,
    state: StateView,
    values: Map<u32, ValueView>,
    id: ValueId,
) -> Result<(StateView, Map<u32, ValueView>), ErrorView> {
    match read_value(values, id) {
        Err(e) => Err(e),
        Ok(value) => {
            let affine = match value {
                ValueView::Resource(_) => Ok(true),
                ValueView::Record { .. } => module.affine_value(value),
                ValueView::Variant { .. } => module.affine_value(value),
                _ => Ok(false),
            };
            match affine {
                Err(e) => Err(e),
                Ok(affine) => if !affine {
                    Err(not_affine(value))
                } else {
                    match dropping(module, state, value) {
                        Err(e) => Err(e),
                        Ok(state1) => Ok((state1, values.remove(id.0))),
                    }
                },
            }
        },
    }
}

/// The refusal of leaving a frame that still owns a live resource.
pub open spec fn leak_check(
    table: TableView,
    values: Map<u32, ValueView>,
    observing: Set<u32>,
    exiting: Set<u32>,
    attempt: Seq<char>,
) -> Result<(), ErrorView> {
    match table.leaked(values, observing, exiting) {
        None => Ok(()),
        Some(id) => Err(refusal(attempt + decimal(id.0 as nat) + ")"@)),
    }
}

/// Leaving a frame with a value, which moves to the caller: the table
/// afterwards and the value as the caller holds it. The frame may leave
/// no other live resource behind. A refusal moves nothing.
pub open spec fn leaving(
    module: Module,
    table: TableView,
    values: Map<u32, ValueView>,
    observing: Set<u32>,
    value: ValueView,
    attempt: Seq<char>,
) -> Result<(TableView, ValueView), ErrorView> {
    let (plan, r) = plan_transferring(module, table, value, PlanView::empty(), 0);
    match r {
        Err(e) => Err(e),
        Ok(moved) => match leak_check(table, values, observing, plan.reachable, attempt) {
            Err(e) => Err(e),
            Ok(_) => Ok((table.advanced(plan.transitions, 0), moved)),
        },
    }
}

/// Returning from a function: the table afterwards and the result, which
/// must fit the type the function declares.
pub open spec fn returned(
    module: Module,
    table: TableView,
    function: Function,
    values: Map<u32, ValueView>,
    context: ContextView,
    id: Option<ValueId>,
) -> Result<(TableView, ValueView), ErrorView> {
    match id {
        Some(id) => match read_value(values, id) {
            Err(e) => Err(e),
            Ok(value) => match argument_check(
                module,
                table,
                value,
                substituted(function.return_type@, context.subst),
            ) {
                Err(e) => Err(e),
                Ok(_) => leaving(
                    module,
                    table,
                    values,
                    context.observing,
                    value,
                    "function returned while still owning an undestroyed resource (%"@,
                ),
            },
        },
        None => match argument_check(
            module,
            table,
            ValueView::Unit,
            substituted(function.return_type@, context.subst),
        ) {
            Err(e) => Err(e),
            Ok(_) => match leak_check(
                table,
                values,
                context.observing,
                Set::empty(),
                "function returned while still owning an undestroyed resource (%"@,
            ) {
                Err(e) => Err(e),
                Ok(_) => Ok((table, ValueView::Unit)),
            },
        },
    }
}

/// Raising a failure: the table afterwards and the raised value.
pub open spec fn raised(
    module: Module,
    table: TableView,
    values: Map<u32, ValueView>,
    context: ContextView,
    id: ValueId,
) -> Result<(TableView, ValueView), ErrorView> {
    match read_value(values, id) {
        Err(e) => Err(e),
        Ok(value) => leaving(
            module,
            table,
            values,
            context.observing,
            value,
            "function raised while still owning an undestroyed resource (%"@,
        ),
    }
}

/// Where a two-way branch goes.
pub open spec fn branch_taken(
    values: Map<u32, ValueView>,
    condition: ValueId,
    then_block: BlockId,
    else_block: BlockId,
) -> Result<BlockId, ErrorView> {
    match read_value(values, condition) {
        Err(e) => Err(e),
        Ok(ValueView::Bool(b)) => Ok(
            if b {
                then_block
            } else {
                else_block
            },
        ),
        Ok(_) => Err(refusal("branch condition was not a bool"@)),
    }
}

/// Where a switch over a variant's cases goes.
pub open spec fn case_taken(
    values: Map<u32, ValueView>,
    scrutinee: ValueId,
    variant: ItemId,
    cases: Seq<BlockId>,
) -> Result<BlockId, ErrorView> {
    match read_value(values, scrutinee) {
        Err(e) => Err(e),
        Ok(ValueView::Variant { item, case, .. }) => if item != variant {
            Err(
                refusal(
                    "switch scrutinee's variant identity does not match the switch's declared variant"@,
                ),
            )
        } else if case < cases.len() {
            Ok(cases[case as int])
        } else {
            Err(refusal("switch scrutinee's case has no corresponding target"@))
        },
        Ok(_) => Err(refusal("switch scrutinee was not a variant value"@)),
    }
}

/// The check of an invocation's arguments from position `i` on, and the
/// plan of what its callee would take.
pub open spec fn invoke_plan(
    module: Module,
    table: TableView,
    params: Seq<Param>,
    args: Seq<ValueView>,
    subst: Option<Map<u32, TyView>>,
    i: nat,
    plan: PlanView,
) -> Result<PlanView, ErrorView>
    decreases params.len() - i,
{
    if i >= params.len() {
        Ok(plan)
    } else {
        let param = params[i as int];
        let check = match subst {
            Some(subst) => argument_check(
                module,
                table,
                args[i as int],
                substituted(param.ty@, subst),
            ),
            None => Ok(()),
        };
        match check {
            Err(e) => Err(e),
            Ok(_) => if param.take {
                let (plan1, r) = plan_transferring(module, table, args[i as int], plan, 0);
                match r {
                    Err(e) => Err(e),
                    Ok(_) => invoke_plan(module, table, params, args, subst, i + 1, plan1),
                }
            } else {
                invoke_plan(module, table, params, args, subst, i + 1, plan)
            },
        }
    }
}

/// The refusal of overwriting, from position `i` on, a slot that a
/// failure would be put into.
pub open spec fn failure_slots(
    table: TableView,
    values: Map<u32, ValueView>,
    targets: Seq<FailureTarget>,
    retired: Set<u32>,
    i: nat,
) -> Result<(), ErrorView>
    decreases targets.len() - i,
{
    if i >= targets.len() {
        Ok(())
    } else {
        match overwrite_check(
            table,
            values,
            targets[i as int].slot,
            retired,
            "an invoke would overwrite a slot (%"@,
        ) {
            Err(e) => Err(e),
            Ok(_) => failure_slots(table, values, targets, retired, i + 1),
        }
    }
}

/// The check an invocation makes before it runs its callee: no slot that
/// may receive an outcome owns a live resource the call does not take.
pub open spec fn invoke_check(
    module: Module,
    table: TableView,
    values: Map<u32, ValueView>,
    call: CallView,
    ok_slot: ValueId,
    targets: Seq<FailureTarget>,
) -> Result<(), ErrorView> {
    let callee = call.callee;
    if callee.params@.len() == call.args.len() && callee.requirements@.len()
        == call.evidence.len() {
        let subst = instantiation(param_ids(callee.type_params@), call.type_args);
        match invoke_plan(
            module,
            table,
            callee.params@,
            call.args,
            subst,
            0,
            PlanView::empty(),
        ) {
            Err(e) => Err(e),
            Ok(plan) => match overwrite_check(
                table,
                values,
                ok_slot,
                plan.reachable,
                "an invoke would overwrite a slot (%"@,
            ) {
                Err(e) => Err(e),
                Ok(_) => failure_slots(table, values, targets, plan.reachable, 0),
            },
        }
    } else {
        Ok(())
    }
}

/// The first failure target for `item`, from position `i` on.
pub open spec fn find_target(targets: Seq<FailureTarget>, item: ItemId, i: nat) -> Option<
    FailureTarget,
>
    decreases targets.len() - i,
{
    if i >= targets.len() {
        None
    } else if targets[i as int].variant == item {
        Some(targets[i as int])
    } else {
        find_target(targets, item, i + 1)
    }
}

/// Where an invocation continues after its callee: the value, the slot
/// it is put into, and the block.
pub open spec fn continuation(
    outcome: OutcomeView,
    ok_slot: ValueId,
    ok_target: BlockId,
    targets: Seq<FailureTarget>,
) -> Result<(ValueView, ValueId, BlockId), ErrorView> {
    match outcome {
        OutcomeView::Returned(value) => Ok((value, ok_slot, ok_target)),
        OutcomeView::Raised(value) => match value {
            ValueView::Variant { item, .. } => match find_target(targets, item, 0) {
                Some(target) => Ok((value, target.slot, target.target)),
                None => Err(refusal("invoke has no failure target for the raised variant"@)),
            },
            _ => Err(refusal("a raised value must be a variant value"@)),
        },
    }
}

// ---------------------------------------------------------------------
// Running.
// ---------------------------------------------------------------------

/// Calling a function from a frame at `depth`: the state afterwards, and
/// how the callee's frame ended.
pub open spec fn called(module: Module, state: StateView, call: CallView, depth: nat) -> (
    StateView,
    Result<OutcomeView, ErrorView>,
)
    decreases MAX_CALL_DEPTH - depth, 0nat, 0nat, 0nat, 0nat,
{
    if depth >= MAX_CALL_DEPTH {
        (state, Err(too_many_frames()))
    } else {
        run_frame(module, state, call, depth + 1)
    }
}

/// The refusal of a call beyond the supported number of frames.
pub open spec fn too_many_frames() -> ErrorView {
    refusal(
        "call depth exceeded "@ + decimal(MAX_CALL_DEPTH as nat)
            + " frames: a recursion this execution never unwound"@,
    )
}

/// Entering a frame and running it from its entry block. That the frame
/// was entered is recorded; a frame refused at its boundary is not.
pub open spec fn run_frame(module: Module, state: StateView, call: CallView, depth: nat) -> (
    StateView,
    Result<OutcomeView, ErrorView>,
)
    decreases MAX_CALL_DEPTH - depth, 4nat, 0nat, 0nat, 0nat,
{
    match entered(module, state.table, call) {
        Err(e) => (state, Err(e)),
        Ok(entry) => run_blocks(
            module,
            StateView { table: entry.table, events: state.events.push(Event::Call(call.callee.id)) },
            call.callee,
            BlockId(0),
            LocalsView { values: entry.values, leases: Seq::empty() },
            entry.context,
            MAX_BLOCKS as nat,
            depth,
        ),
    }
}

/// The refusal of a frame that runs more blocks than can be counted.
pub open spec fn too_many_blocks() -> ErrorView {
    refusal("a frame ran more blocks than this execution counts"@)
}

/// Running a frame from the block `id` on, for at most `budget` blocks.
pub open spec fn run_blocks(
    module: Module,
    state: StateView,
    function: Function,
    id: BlockId,
    locals: LocalsView,
    context: ContextView,
    budget: nat,
    depth: nat,
) -> (StateView, Result<OutcomeView, ErrorView>)
    decreases MAX_CALL_DEPTH - depth, 3nat, budget, 1nat, 0nat,
{
    if budget == 0 {
        (state, Err(too_many_blocks()))
    } else {
        match find_block(function.blocks@, id, 0) {
            None => (state, Err(refusal("branch to unknown block"@))),
            Some(block) => {
                let (state1, locals1, r) = run_instructions(
                    module,
                    state,
                    block.instructions@,
                    0,
                    locals,
                    context,
                    budget,
                    depth,
                );
                match r {
                    Err(e) => (state1, Err(e)),
                    Ok(_) => match block.terminator {
                        Terminator::Return(value) => match returned(
                            module,
                            state1.table,
                            function,
                            locals1.values,
                            context,
                            value,
                        ) {
                            Err(e) => (state1, Err(e)),
                            Ok((table, result)) => (
                                StateView { table, events: state1.events },
                                Ok(OutcomeView::Returned(result)),
                            ),
                        },
                        Terminator::Raise { value } => match raised(
                            module,
                            state1.table,
                            locals1.values,
                            context,
                            value,
                        ) {
                            Err(e) => (state1, Err(e)),
                            Ok((table, failure)) => (
                                StateView { table, events: state1.events },
                                Ok(OutcomeView::Raised(failure)),
                            ),
                        },
                        Terminator::Branch(target) => run_blocks(
                            module,
                            state1,
                            function,
                            target,
                            locals1,
                            context,
                            (budget - 1) as nat,
                            depth,
                        ),
                        Terminator::CondBranch { condition, then_block, else_block } => {
                            match branch_taken(locals1.values, condition, then_block, else_block) {
                                Err(e) => (state1, Err(e)),
                                Ok(target) => run_blocks(
                                    module,
                                    state1,
                                    function,
                                    target,
                                    locals1,
                                    context,
                                    (budget - 1) as nat,
                                    depth,
                                ),
                            }
                        },
                        Terminator::Switch { scrutinee, variant, cases } => {
                            match case_taken(locals1.values, scrutinee, variant, cases@) {
                                Err(e) => (state1, Err(e)),
                                Ok(target) => run_blocks(
                                    module,
                                    state1,
                                    function,
                                    target,
                                    locals1,
                                    context,
                                    (budget - 1) as nat,
                                    depth,
                                ),
                            }
                        },
                        Terminator::Invoke {
                            callee,
                            type_args,
                            args,
                            evidence,
                            ok_slot,
                            ok_target,
                            err_targets,
                        } => {
                            match call_target(
                                module,
                                locals1.values,
                                context.evidence,
                                context.subst,
                                callee,
                                ty_views(type_args@),
                                args@,
                                evidence_views(evidence@),
                                "invoke targets a function not present in this module"@,
                            ) {
                                Err(e) => (state1, Err(e)),
                                Ok(call) => match invoke_check(
                                    module,
                                    state1.table,
                                    locals1.values,
                                    call,
                                    ok_slot,
                                    err_targets@,
                                ) {
                                    Err(e) => (state1, Err(e)),
                                    Ok(_) => {
                                        let (state2, outcome) = called(
                                            module,
                                            state1,
                                            call,
                                            depth,
                                        );
                                        match outcome {
                                            Err(e) => (state2, Err(e)),
                                            Ok(outcome) => match continuation(
                                                outcome,
                                                ok_slot,
                                                ok_target,
                                                err_targets@,
                                            ) {
                                                Err(e) => (state2, Err(e)),
                                                Ok((value, slot, target)) => run_blocks(
                                                    module,
                                                    state2,
                                                    function,
                                                    target,
                                                    locals1.bind(slot, value),
                                                    context,
                                                    (budget - 1) as nat,
                                                    depth,
                                                ),
                                            },
                                        }
                                    },
                                },
                            }
                        },
                    },
                }
            },
        }
    }
}

/// Running the instructions of a block from position `i` on, until one
/// is refused.
pub open spec fn run_instructions(
    module: Module,
    state: StateView,
    instructions: Seq<Instruction>,
    i: nat,
    locals: LocalsView,
    context: ContextView,
    budget: nat,
    depth: nat,
) -> (StateView, LocalsView, Result<(), ErrorView>)
    decreases MAX_CALL_DEPTH - depth, 3nat, budget, 0nat, instructions.len() - i,
{
    if i >= instructions.len() {
        (state, locals, Ok(()))
    } else {
        let (state1, locals1, r) = executed(
            module,
            state,
            instructions[i as int],
            locals,
            context,
            depth,
        );
        match r {
            Err(e) => (state1, locals1, Err(e)),
            Ok(_) => run_instructions(
                module,
                state1,
                instructions,
                i + 1,
                locals1,
                context,
                budget,
                depth,
            ),
        }
    }
}

/// Executing one instruction: the state and the frame's locals
/// afterwards.
pub open spec fn executed(
    module: Module,
    state: StateView,
    instruction: Instruction,
    locals: LocalsView,
    context: ContextView,
    depth: nat,
) -> (StateView, LocalsView, Result<(), ErrorView>)
    decreases MAX_CALL_DEPTH - depth, 2nat, 0nat, 0nat, 0nat,
{
    match instruction {
        Instruction::Value { result, ty, kind } => match kind {
            ValueKind::PlaceRead { place, mode } => match place_access(
                state.table,
                locals.values,
                context.origins,
                place,
                mode,
            ) {
                Err(e) => (state, locals, Err(e)),
                Ok((table, values, value)) => (
                    StateView { table, events: state.events },
                    LocalsView { values, leases: locals.leases }.bind(result, value),
                    Ok(()),
                ),
            },
            ValueKind::ObservePlace { observation, place } => {
                let (table, leases, r) = observation_begun(
                    state.table,
                    locals.values,
                    context.origins,
                    locals.leases,
                    observation,
                    place,
                );
                let state1 = StateView { table, events: state.events };
                let locals1 = LocalsView { values: locals.values, leases };
                match r {
                    Err(e) => (state1, locals1, Err(e)),
                    Ok(view) => (state1, locals1.bind(result, view), Ok(())),
                }
            },
            ValueKind::DeferCapture { source } => match capture_check(
                module,
                state.table,
                locals.values,
                source,
                substituted(ty@, context.subst),
            ) {
                Err(e) => (state, locals, Err(e)),
                Ok(_) => {
                    let (state1, r) = evaluation(
                        module,
                        state,
                        kind,
                        locals.values,
                        context.evidence,
                        context.subst,
                        depth,
                    );
                    match r {
                        Err(e) => (state1, locals, Err(e)),
                        Ok(value) => (state1, locals.bind(result, value), Ok(())),
                    }
                },
            },
            _ => {
                let (state1, r) = evaluation(
                    module,
                    state,
                    kind,
                    locals.values,
                    context.evidence,
                    context.subst,
                    depth,
                );
                match r {
                    Err(e) => (state1, locals, Err(e)),
                    Ok(value) => (state1, locals.bind(result, value), Ok(())),
                }
            },
        },
        Instruction::EndObserve { observation } => match observation_ended(
            state.table,
            locals.leases,
            observation,
        ) {
            Err(e) => (state, locals, Err(e)),
            Ok((table, leases)) => (
                StateView { table, events: state.events },
                LocalsView { values: locals.values, leases },
                Ok(()),
            ),
        },
        Instruction::DecomposeVariant { value, variant, case, taken } => match decomposition(
            module,
            state.table,
            locals.values,
            context.origins,
            value,
            variant,
            case,
            taken@,
        ) {
            Err(e) => (state, locals, Err(e)),
            Ok(values) => (state, LocalsView { values, leases: locals.leases }, Ok(())),
        },
        Instruction::Store { slot, value, mode } => match slot_stored(
            module,
            state.table,
            locals.values,
            context,
            slot,
            value,
            mode,
        ) {
            Err(e) => (state, locals, Err(e)),
            Ok((table, values)) => (
                StateView { table, events: state.events },
                LocalsView { values, leases: locals.leases },
                Ok(()),
            ),
        },
        Instruction::Drop { value } => match value_dropped(module, state, locals.values, value) {
            Err(e) => (state, locals, Err(e)),
            Ok((state1, values)) => (
                state1,
                LocalsView { values, leases: locals.leases },
                Ok(()),
            ),
        },
        Instruction::StorePlace { place, value } => match place_store(
            module,
            state.table,
            locals.values,
            context.origins,
            place,
            value,
        ) {
            Err(e) => (state, locals, Err(e)),
            Ok((table, values)) => (
                StateView { table, events: state.events },
                LocalsView { values, leases: locals.leases },
                Ok(()),
            ),
        },
    }
}

/// Evaluating a value kind in a frame: the state afterwards, and the
/// value.
pub open spec fn evaluation(
    module: Module,
    state: StateView,
    kind: ValueKind,
    values: Map<u32, ValueView>,
    evidence: Seq<EvidenceView>,
    subst: Map<u32, TyView>,
    depth: nat,
) -> (StateView, Result<ValueView, ErrorView>)
    decreases MAX_CALL_DEPTH - depth, 1nat, 0nat, 0nat, 0nat,
{
    match kind {
        ValueKind::Call(item, type_args, args, call_evidence) => match call_target(
            module,
            values,
            evidence,
            subst,
            item,
            ty_views(type_args@),
            args@,
            evidence_views(call_evidence@),
            "call to a function not present in this module"@,
        ) {
            Err(e) => (state, Err(e)),
            Ok(call) => {
                let (state1, outcome) = called(module, state, call, depth);
                (
                    state1,
                    returned_value(
                        outcome,
                        "an ordinary call's callee raised a failure; only Invoke may call a fallible function"@,
                    ),
                )
            },
        },
        ValueKind::ProtocolCall { protocol, arguments, method, evidence: entry, args } => {
            match protocol_target(
                module,
                values,
                evidence,
                subst,
                ty_views(arguments@),
                method,
                entry@,
                args@,
            ) {
                Err(e) => (state, Err(e)),
                Ok(call) => {
                    let (state1, outcome) = called(module, state, call, depth);
                    (
                        state1,
                        returned_value(
                            outcome,
                            "a protocol call's implementing method raised a failure; protocol methods that raise are not yet supported"@,
                        ),
                    )
                },
            }
        },
        _ => match computed(module, state.table, kind, values, subst) {
            Err(e) => (state, Err(e)),
            Ok((table, value)) => (StateView { table, events: state.events }, Ok(value)),
        },
    }
}

/// The value a call returned; a failure it raised is refused.
pub open spec fn returned_value(
    outcome: Result<OutcomeView, ErrorView>,
    unexpected: Seq<char>,
) -> Result<ValueView, ErrorView> {
    match outcome {
        Err(e) => Err(e),
        Ok(OutcomeView::Returned(value)) => Ok(value),
        Ok(OutcomeView::Raised(_)) => Err(refusal(unexpected)),
    }
}

} // verus!
