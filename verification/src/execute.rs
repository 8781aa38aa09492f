use crate::eval::{CallView, PreparedCall};
use crate::frame::{
    alias_check, bound_argument, bound_arguments, branch_taken, called, capture_check, case_taken,
    concluded, continuation, entered, evaluation, executed, failure_slots, find_block, find_target,
    invoke_check, invoke_plan, leak_check, leaving, load_origins, loads_from, lowest_shared,
    observing_params, overwrite_check, raised, returned, run_blocks, run_frame, run_instructions,
    slot_check, slot_stored, slot_types, slot_views, slots_from, value_dropped, BindingView,
    Context, EntryView, Locals, Outcome,
};
use crate::idmap::{IdMap, IdSet};
use crate::ids::{BlockId, ItemId, ValueId};
use crate::interpreter::{Event, Interpreter, StateView};
use crate::layout::{declared_params, param_ids};
use crate::ownership::{PlanView, StorePlan};
use crate::program::{
    BasicBlock, FailureTarget, Function, Instruction, OwnershipMode, Param, Terminator, ValueKind,
    MAX_BLOCKS, MAX_CALL_DEPTH,
};
use crate::table::TableView;
use crate::text::{decimal_text, framed, numbered};
use crate::type_ops::{checked_substitution, copy_type, instantiation, substitute};
use crate::types::{evidence_views, ty_views, Evidence, Substitution, Ty};
use crate::value::{
    checked, evaluated, invalid, invalid_message, value_views, ErrorView, InterpreterError, Value,
    ValueView,
};
use crate::value_ops::{get, kind_name, Frame};
use vstd::prelude::*;
use vstd::string::StringExecFns;

verus! {

broadcast use {crate::types::group_type_views, crate::value::group_value_views};

/// Collects where each load of a function reads from.
pub fn collect_load_origins(blocks: &Vec<BasicBlock>) -> (r: IdMap<ValueId>)
    ensures
        r@ == load_origins(blocks@, 0, Map::empty()),
{
    let mut origins: IdMap<ValueId> = IdMap::new();
    let mut i: usize = 0;
    while i < blocks.len()
        invariant
            i <= blocks@.len(),
            load_origins(blocks@, 0, Map::empty()) == load_origins(blocks@, i as nat, origins@),
        decreases blocks@.len() - i,
    {
        let instructions = &blocks[i].instructions;
        let ghost before = origins@;
        let mut j: usize = 0;
        while j < instructions.len()
            invariant
                j <= instructions@.len(),
                loads_from(instructions@, 0, before) == loads_from(
                    instructions@,
                    j as nat,
                    origins@,
                ),
            decreases instructions@.len() - j,
        {
            match &instructions[j] {
                Instruction::Value { result, kind: ValueKind::Load(slot), .. } => {
                    origins.insert(result.0, *slot);
                },
                _ => {},
            }
            j = j + 1;
        }
        i = i + 1;
    }
    origins
}

/// Collects the type that each slot of a function declares.
pub fn collect_slot_types(blocks: &Vec<BasicBlock>) -> (r: IdMap<Ty>)
    ensures
        slot_views(r@) == slot_types(blocks@, 0, Map::empty()),
{
    let mut slots: IdMap<Ty> = IdMap::new();
    assert(slot_views(slots@) =~= Map::empty());
    let mut i: usize = 0;
    while i < blocks.len()
        invariant
            i <= blocks@.len(),
            slot_types(blocks@, 0, Map::empty()) == slot_types(
                blocks@,
                i as nat,
                slot_views(slots@),
            ),
        decreases blocks@.len() - i,
    {
        let instructions = &blocks[i].instructions;
        let ghost before = slot_views(slots@);
        let mut j: usize = 0;
        while j < instructions.len()
            invariant
                j <= instructions@.len(),
                slots_from(instructions@, 0, before) == slots_from(
                    instructions@,
                    j as nat,
                    slot_views(slots@),
                ),
            decreases instructions@.len() - j,
        {
            match &instructions[j] {
                Instruction::Value { result, ty, kind: ValueKind::Alloc } => {
                    let ghost known = slots@;
                    let declared = copy_type(ty);
                    slots.insert(result.0, declared);
                    assert(slot_views(slots@) =~= slot_views(known).insert(result.0, ty@));
                },
                _ => {},
            }
            j = j + 1;
        }
        i = i + 1;
    }
    slots
}

/// Collects the parameters that only observe.
pub fn collect_observing_params(params: &Vec<Param>) -> (r: IdSet)
    ensures
        r@ == observing_params(params@, 0, Set::empty()),
{
    let mut observing = IdSet::new();
    let mut i: usize = 0;
    while i < params.len()
        invariant
            i <= params@.len(),
            observing_params(params@, 0, Set::empty()) == observing_params(
                params@,
                i as nat,
                observing@,
            ),
        decreases params@.len() - i,
    {
        if !params[i].take {
            observing.insert(params[i].value.0);
        }
        i = i + 1;
    }
    observing
}

/// The first block with an id.
fn block_named<'f>(blocks: &'f Vec<BasicBlock>, id: BlockId) -> (r: Option<&'f BasicBlock>)
    ensures
        match r {
            Some(block) => find_block(blocks@, id, 0) == Some(*block),
            None => find_block(blocks@, id, 0) is None,
        },
{
    let mut i: usize = 0;
    while i < blocks.len()
        invariant
            i <= blocks@.len(),
            find_block(blocks@, id, 0) == find_block(blocks@, id, i as nat),
        decreases blocks@.len() - i,
    {
        if blocks[i].id == id {
            return Some(&blocks[i]);
        }
        i = i + 1;
    }
    None
}

/// The first failure target for a variant.
fn target_for<'f>(targets: &'f Vec<FailureTarget>, item: ItemId) -> (r: Option<&'f FailureTarget>)
    ensures
        match r {
            Some(target) => find_target(targets@, item, 0) == Some(*target),
            None => find_target(targets@, item, 0) is None,
        },
{
    let mut i: usize = 0;
    while i < targets.len()
        invariant
            i <= targets@.len(),
            find_target(targets@, item, 0) == find_target(targets@, item, i as nat),
        decreases targets@.len() - i,
    {
        if targets[i].variant == item {
            return Some(&targets[i]);
        }
        i = i + 1;
    }
    None
}

/// Refuses a call that takes a resource it also observes.
fn reject_aliases(taken: &IdSet, seen: &IdSet) -> (r: Result<(), InterpreterError>)
    ensures
        checked(r) == alias_check(taken@, seen@),
{
    let ids = taken.members();
    let mut i: usize = 0;
    while i < ids.len()
        invariant
            i <= ids@.len(),
            crate::idmap::ascending(ids@),
            forall|id: u32| taken@.contains(id) <==> ids@.contains(id),
            forall|j: int| 0 <= j < i ==> !seen@.contains(#[trigger] ids@[j]),
        decreases ids@.len() - i,
    {
        if seen.contains(ids[i]) {
            proof {
                let id = ids@[i as int];
                assert(ids@.contains(id));
                assert forall|other: u32|
                    taken@.contains(other) && #[trigger] seen@.contains(other) implies id
                    <= other by {
                    assert(ids@.contains(other));
                    let j = choose|j: int| 0 <= j < ids@.len() && ids@[j] == other;
                    assert(j >= i);
                }
                assert(lowest_shared(taken@, seen@, id));
                let found = choose|id: u32| lowest_shared(taken@, seen@, id);
                assert(lowest_shared(taken@, seen@, found));
                assert(found == id);
            }
            return Err(
                invalid_message(
                    numbered(
                        "one resource (#",
                        ids[i] as u64,
                        ") is passed to this call as both an observing argument and a `take` argument, so the callee could destroy it while the observation is still readable",
                    ),
                ),
            );
        }
        i = i + 1;
    }
    proof {
        assert forall|id: u32| !lowest_shared(taken@, seen@, id) by {
            if lowest_shared(taken@, seen@, id) {
                assert(ids@.contains(id));
                let j = choose|j: int| 0 <= j < ids@.len() && ids@[j] == id;
                assert(!seen@.contains(ids@[j]));
            }
        }
    }
    Ok(())
}

/// What binding a call's arguments came to.
pub struct Binding {
    pub plan: StorePlan,
    pub values: Frame,
    pub observed: IdSet,
}

impl View for Binding {
    type V = BindingView;

    open spec fn view(&self) -> BindingView {
        BindingView { plan: self.plan@, values: self.values@, observed: self.observed@ }
    }
}

/// Two numbers in a sentence.
fn counted(before: &str, n: usize, middle: &str, m: usize, after: &str) -> (r: String)
    ensures
        r@ == before@ + crate::text::decimal(n as nat) + middle@ + crate::text::decimal(m as nat)
            + after@,
{
    let mut r = numbered(before, n as u64, middle);
    let number = decimal_text(m as u64);
    r.append(number.as_str());
    r.append(after);
    r
}

impl<'a> Interpreter<'a> {
    /// Checks one argument and binds it.
    fn bind_argument(
        &self,
        param: &Param,
        arg: &Value,
        subst: &Substitution,
        binding: &mut Binding,
    ) -> (r: Result<(), InterpreterError>)
        requires
            old(binding)@.plan.within(self@.table),
        ensures
            match r {
                Ok(_) => bound_argument(
                    *self.module,
                    self@.table,
                    *param,
                    arg@,
                    subst@,
                    old(binding)@,
                ) == Ok::<BindingView, ErrorView>(final(binding)@),
                Err(e) => bound_argument(
                    *self.module,
                    self@.table,
                    *param,
                    arg@,
                    subst@,
                    old(binding)@,
                ) == Err::<BindingView, ErrorView>(e@),
            },
            final(binding)@.plan.within(self@.table),
    {
        let declared = substitute(&param.ty, subst);
        match self.validate_argument(arg, &declared) {
            Err(e) => {
                return Err(e);
            },
            Ok(_) => {},
        }
        if param.take {
            match self.plan_transfer(arg, &mut binding.plan, 0) {
                Err(e) => Err(e),
                Ok(moved) => {
                    binding.values.insert(param.value, moved);
                    Ok(())
                },
            }
        } else {
            let mut reached = IdSet::new();
            match self.collect_owned_identities(arg, &mut reached, 0) {
                Err(e) => {
                    return Err(e);
                },
                Ok(_) => {},
            }
            match self.to_observing_view(arg, 0) {
                Err(e) => Err(e),
                Ok(view) => {
                    binding.observed.extend(&reached);
                    binding.values.insert(param.value, view);
                    Ok(())
                },
            }
        }
    }

    /// Checks every argument of a call and plans what binding them
    /// moves. Changes nothing.
    fn bind_arguments(&self, params: &Vec<Param>, args: &Vec<Value>, subst: &Substitution) -> (r:
        Result<Binding, InterpreterError>)
        requires
            params@.len() == args@.len(),
        ensures
            match r {
                Ok(binding) => bound_arguments(
                    *self.module,
                    self@.table,
                    params@,
                    value_views(args@),
                    subst@,
                    0,
                    BindingView::empty(),
                ) == Ok::<BindingView, ErrorView>(binding@) && binding@.plan.within(self@.table),
                Err(e) => bound_arguments(
                    *self.module,
                    self@.table,
                    params@,
                    value_views(args@),
                    subst@,
                    0,
                    BindingView::empty(),
                ) == Err::<BindingView, ErrorView>(e@),
            },
    {
        let mut binding = Binding {
            plan: StorePlan::new(),
            values: Frame::new(),
            observed: IdSet::new(),
        };
        let mut i: usize = 0;
        assert(value_views(args@).len() == args@.len());
        while i < params.len()
            invariant
                i <= params@.len(),
                params@.len() == args@.len(),
                value_views(args@).len() == args@.len(),
                binding@.plan.within(self@.table),
                bound_arguments(
                    *self.module,
                    self@.table,
                    params@,
                    value_views(args@),
                    subst@,
                    0,
                    BindingView::empty(),
                ) == bound_arguments(
                    *self.module,
                    self@.table,
                    params@,
                    value_views(args@),
                    subst@,
                    i as nat,
                    binding@,
                ),
            decreases params@.len() - i,
        {
            match self.bind_argument(&params[i], &args[i], subst, &mut binding) {
                Err(e) => {
                    return Err(e);
                },
                Ok(_) => {},
            }
            i = i + 1;
        }
        Ok(binding)
    }

    /// Enters a call's frame: every boundary check, then the moves of
    /// what the parameters take, then the record that the frame was
    /// entered. A refusal changes nothing.
    fn enter(
        &mut self,
        function: &Function,
        type_args: &Vec<Ty>,
        args: &Vec<Value>,
        evidence: Vec<Evidence>,
    ) -> (r: Result<(Frame, Context), InterpreterError>)
        ensures
            match r {
                Ok((values, context)) => {
                    &&& entered(
                        *old(self).module,
                        old(self)@.table,
                        CallView {
                            callee: *function,
                            type_args: ty_views(type_args@),
                            args: value_views(args@),
                            evidence: evidence_views(evidence@),
                        },
                    ) == Ok::<EntryView, ErrorView>(
                        EntryView {
                            table: final(self)@.table,
                            values: values@,
                            context: context@,
                        },
                    )
                    &&& final(self)@.events == old(self)@.events.push(Event::Call(function.id))
                },
                Err(e) => {
                    &&& entered(
                        *old(self).module,
                        old(self)@.table,
                        CallView {
                            callee: *function,
                            type_args: ty_views(type_args@),
                            args: value_views(args@),
                            evidence: evidence_views(evidence@),
                        },
                    ) == Err::<EntryView, ErrorView>(e@)
                    &&& final(self)@ == old(self)@
                },
            },
            final(self).module == old(self).module,
            final(self).call_depth == old(self).call_depth,
    {
        assert(value_views(args@).len() == args@.len());
        assert(evidence_views(evidence@).len() == evidence@.len());
        assert(ty_views(type_args@).len() == type_args@.len());
        if function.params.len() != args.len() {
            return Err(
                invalid_message(
                    counted(
                        "function expects ",
                        function.params.len(),
                        " argument(s), found ",
                        args.len(),
                        "",
                    ),
                ),
            );
        }
        if function.requirements.len() != evidence.len() {
            return Err(
                invalid_message(
                    counted(
                        "function declares ",
                        function.requirements.len(),
                        " capability requirement(s) but was given ",
                        evidence.len(),
                        " evidence entries",
                    ),
                ),
            );
        }
        let type_params = declared_params(&function.type_params);
        let subst = match checked_substitution(&type_params, type_args) {
            None => {
                return Err(
                    invalid_message(
                        counted(
                            "function declares ",
                            type_params.len(),
                            " type parameter(s) but was instantiated with ",
                            type_args.len(),
                            "",
                        ),
                    ),
                );
            },
            Some(subst) => subst,
        };
        let binding = match self.bind_arguments(&function.params, args, &subst) {
            Err(e) => {
                return Err(e);
            },
            Ok(binding) => binding,
        };
        match reject_aliases(&binding.plan.reachable, &binding.observed) {
            Err(e) => {
                return Err(e);
            },
            Ok(_) => {},
        }
        if block_named(&function.blocks, BlockId(0)).is_none() {
            return Err(invalid("function has no entry block (bb0)"));
        }
        let origins = collect_load_origins(&function.blocks);
        let slots = collect_slot_types(&function.blocks);
        let observing = collect_observing_params(&function.params);
        self.commit_transfer(&binding.plan);
        self.events.push(Event::Call(function.id));
        Ok((binding.values, Context { evidence, subst, origins, slots, observing }))
    }

    /// Refuses to overwrite a slot that owns a live resource, apart
    /// from those in `retired`.
    fn reject_overwrite(&self, values: &Frame, slot: ValueId, retired: &IdSet, attempt: &str) -> (r:
        Result<(), InterpreterError>)
        ensures
            checked(r) == overwrite_check(self@.table, values@, slot, retired@, attempt@),
    {
        match values.get(&slot) {
            None => Ok(()),
            Some(existing) => {
                let mut seen = IdSet::new();
                if self.owns_a_live_resource(existing, &mut seen, 0, retired) {
                    Err(
                        invalid_message(
                            numbered(
                                attempt,
                                slot.0 as u64,
                                ") that still owns an undestroyed resource",
                            ),
                        ),
                    )
                } else {
                    Ok(())
                }
            },
        }
    }

    /// Refuses a value that does not fit the type a slot declares.
    fn reject_misfit(&self, context: &Context, slot: ValueId, incoming: &Value) -> (r: Result<
        (),
        InterpreterError,
    >)
        ensures
            checked(r) == slot_check(*self.module, self@.table, context@, slot, incoming@),
    {
        match context.slots.get(slot.0) {
            None => Ok(()),
            Some(declared) => {
                assert(context@.slots[slot.0] == declared@);
                let declared = substitute(declared, &context.subst);
                self.validate_argument(incoming, &declared)
            },
        }
    }

    /// Refuses to capture a value that does not fit the type declared
    /// for the capture.
    fn reject_capture(&self, values: &Frame, source: &ValueId, declared: &Ty) -> (r: Result<
        (),
        InterpreterError,
    >)
        ensures
            checked(r) == capture_check(*self.module, self@.table, values@, *source, declared@),
    {
        match get(values, source) {
            Err(e) => Err(e),
            Ok(value) => self.validate_argument(&value, declared),
        }
    }

    /// Stores a value into a slot. A refusal changes nothing.
    fn store_slot(
        &mut self,
        values: &mut Frame,
        context: &Context,
        slot: ValueId,
        value: ValueId,
        mode: OwnershipMode,
    ) -> (r: Result<(), InterpreterError>)
        ensures
            match r {
                Ok(_) => slot_stored(
                    *old(self).module,
                    old(self)@.table,
                    old(values)@,
                    context@,
                    slot,
                    value,
                    mode,
                ) == Ok::<(TableView, Map<u32, ValueView>), ErrorView>(
                    (final(self)@.table, final(values)@),
                ),
                Err(e) => {
                    &&& slot_stored(
                        *old(self).module,
                        old(self)@.table,
                        old(values)@,
                        context@,
                        slot,
                        value,
                        mode,
                    ) == Err::<(TableView, Map<u32, ValueView>), ErrorView>(e@)
                    &&& final(self)@.table == old(self)@.table
                    &&& final(values)@ == old(values)@
                },
            },
            final(self)@.events == old(self)@.events,
            final(self).module == old(self).module,
            final(self).call_depth == old(self).call_depth,
    {
        let incoming = match get(values, &value) {
            Err(e) => {
                return Err(e);
            },
            Ok(incoming) => incoming,
        };
        match self.reject_misfit(context, slot, &incoming) {
            Err(e) => {
                return Err(e);
            },
            Ok(_) => {},
        }
        match mode {
            OwnershipMode::Transfer => {
                match self.validate_owned_graph(&incoming) {
                    Err(e) => {
                        return Err(e);
                    },
                    Ok(_) => {},
                }
                let mut plan = StorePlan::new();
                let rebuilt = match self.plan_transfer(&incoming, &mut plan, 0) {
                    Err(e) => {
                        return Err(e);
                    },
                    Ok(rebuilt) => rebuilt,
                };
                match self.reject_overwrite(
                    values,
                    slot,
                    &plan.reachable,
                    "a store would overwrite a slot (%",
                ) {
                    Err(e) => {
                        return Err(e);
                    },
                    Ok(_) => {},
                }
                self.commit_transfer(&plan);
                values.insert(slot, rebuilt);
                Ok(())
            },
            OwnershipMode::Observe => {
                let retired = IdSet::new();
                match self.reject_overwrite(
                    values,
                    slot,
                    &retired,
                    "a store would overwrite a slot (%",
                ) {
                    Err(e) => {
                        return Err(e);
                    },
                    Ok(_) => {},
                }
                match self.to_observer_if_resource(&incoming) {
                    Err(e) => Err(e),
                    Ok(view) => {
                        values.insert(slot, view);
                        Ok(())
                    },
                }
            },
        }
    }

    /// Destroys a value of a frame and forgets it. A refusal changes
    /// nothing.
    fn drop_slot(&mut self, values: &mut Frame, id: ValueId) -> (r: Result<(), InterpreterError>)
        ensures
            match r {
                Ok(_) => value_dropped(*old(self).module, old(self)@, old(values)@, id) == Ok::<
                    (StateView, Map<u32, ValueView>),
                    ErrorView,
                >((final(self)@, final(values)@)),
                Err(e) => {
                    &&& value_dropped(*old(self).module, old(self)@, old(values)@, id) == Err::<
                        (StateView, Map<u32, ValueView>),
                        ErrorView,
                    >(e@)
                    &&& final(self)@ == old(self)@
                    &&& final(values)@ == old(values)@
                },
            },
            final(self).module == old(self).module,
            final(self).call_depth == old(self).call_depth,
    {
        let value = match get(values, &id) {
            Err(e) => {
                return Err(e);
            },
            Ok(value) => value,
        };
        let affine = match &value {
            Value::Resource(_) => true,
            Value::Record { .. } | Value::Variant { .. } => match self.is_affine_value(&value) {
                Err(e) => {
                    return Err(e);
                },
                Ok(affine) => affine,
            },
            _ => false,
        };
        if !affine {
            return Err(
                invalid_message(framed("drop of a non-affine value (", kind_name(&value), ")")),
            );
        }
        match self.drop_value(&value) {
            Err(e) => Err(e),
            Ok(_) => {
                values.remove(&id);
                Ok(())
            },
        }
    }

    /// Refuses to leave a frame that still owns a live resource.
    fn reject_leak(&self, values: &Frame, observing: &IdSet, exiting: &IdSet, attempt: &str) -> (r:
        Result<(), InterpreterError>)
        ensures
            checked(r) == leak_check(self@.table, values@, observing@, exiting@, attempt@),
    {
        match self.leaked_resource(values, observing, exiting) {
            None => Ok(()),
            Some(id) => Err(invalid_message(numbered(attempt, id.0 as u64, ")"))),
        }
    }

    /// Moves a value out of a frame to its caller. A refusal changes
    /// nothing.
    fn leave(&mut self, values: &Frame, observing: &IdSet, value: &Value, attempt: &str) -> (r:
        Result<Value, InterpreterError>)
        ensures
            match r {
                Ok(moved) => leaving(
                    *old(self).module,
                    old(self)@.table,
                    values@,
                    observing@,
                    value@,
                    attempt@,
                ) == Ok::<(TableView, ValueView), ErrorView>((final(self)@.table, moved@)),
                Err(e) => {
                    &&& leaving(
                        *old(self).module,
                        old(self)@.table,
                        values@,
                        observing@,
                        value@,
                        attempt@,
                    ) == Err::<(TableView, ValueView), ErrorView>(e@)
                    &&& final(self)@.table == old(self)@.table
                },
            },
            final(self)@.events == old(self)@.events,
            final(self).module == old(self).module,
            final(self).call_depth == old(self).call_depth,
    {
        let mut plan = StorePlan::new();
        let moved = match self.plan_transfer(value, &mut plan, 0) {
            Err(e) => {
                return Err(e);
            },
            Ok(moved) => moved,
        };
        match self.reject_leak(values, observing, &plan.reachable, attempt) {
            Err(e) => {
                return Err(e);
            },
            Ok(_) => {},
        }
        self.commit_transfer(&plan);
        Ok(moved)
    }

    /// Returns from a function. A refusal changes nothing.
    fn return_from(
        &mut self,
        function: &Function,
        values: &Frame,
        context: &Context,
        id: &Option<ValueId>,
    ) -> (r: Result<Value, InterpreterError>)
        ensures
            match r {
                Ok(result) => returned(
                    *old(self).module,
                    old(self)@.table,
                    *function,
                    values@,
                    context@,
                    *id,
                ) == Ok::<(TableView, ValueView), ErrorView>((final(self)@.table, result@)),
                Err(e) => {
                    &&& returned(
                        *old(self).module,
                        old(self)@.table,
                        *function,
                        values@,
                        context@,
                        *id,
                    ) == Err::<(TableView, ValueView), ErrorView>(e@)
                    &&& final(self)@.table == old(self)@.table
                },
            },
            final(self)@.events == old(self)@.events,
            final(self).module == old(self).module,
            final(self).call_depth == old(self).call_depth,
    {
        match id {
            Some(id) => {
                let value = match get(values, id) {
                    Err(e) => {
                        return Err(e);
                    },
                    Ok(value) => value,
                };
                let declared = substitute(&function.return_type, &context.subst);
                match self.validate_argument(&value, &declared) {
                    Err(e) => {
                        return Err(e);
                    },
                    Ok(_) => {},
                }
                self.leave(
                    values,
                    &context.observing,
                    &value,
                    "function returned while still owning an undestroyed resource (%",
                )
            },
            None => {
                let declared = substitute(&function.return_type, &context.subst);
                match self.validate_argument(&Value::Unit, &declared) {
                    Err(e) => {
                        return Err(e);
                    },
                    Ok(_) => {},
                }
                let exiting = IdSet::new();
                match self.reject_leak(
                    values,
                    &context.observing,
                    &exiting,
                    "function returned while still owning an undestroyed resource (%",
                ) {
                    Err(e) => Err(e),
                    Ok(_) => Ok(Value::Unit),
                }
            },
        }
    }

    /// Raises a failure. A refusal changes nothing.
    fn raise_from(&mut self, values: &Frame, context: &Context, id: ValueId) -> (r: Result<
        Value,
        InterpreterError,
    >)
        ensures
            match r {
                Ok(failure) => raised(
                    *old(self).module,
                    old(self)@.table,
                    values@,
                    context@,
                    id,
                ) == Ok::<(TableView, ValueView), ErrorView>((final(self)@.table, failure@)),
                Err(e) => {
                    &&& raised(*old(self).module, old(self)@.table, values@, context@, id)
                        == Err::<(TableView, ValueView), ErrorView>(e@)
                    &&& final(self)@.table == old(self)@.table
                },
            },
            final(self)@.events == old(self)@.events,
            final(self).module == old(self).module,
            final(self).call_depth == old(self).call_depth,
    {
        let value = match get(values, &id) {
            Err(e) => {
                return Err(e);
            },
            Ok(value) => value,
        };
        self.leave(
            values,
            &context.observing,
            &value,
            "function raised while still owning an undestroyed resource (%",
        )
    }

    /// Checks that no slot an invocation may put its outcome into owns a
    /// live resource that the call does not take.
    fn check_invoke(
        &self,
        values: &Frame,
        call: &PreparedCall<'_>,
        ok_slot: ValueId,
        err_targets: &Vec<FailureTarget>,
    ) -> (r: Result<(), InterpreterError>)
        ensures
            checked(r) == invoke_check(
                *self.module,
                self@.table,
                values@,
                call@,
                ok_slot,
                err_targets@,
            ),
    {
        let params = &call.callee.params;
        let args = &call.args;
        assert(value_views(args@).len() == args@.len());
        assert(evidence_views(call.evidence@).len() == call.evidence@.len());
        if params.len() != args.len() || call.callee.requirements.len() != call.evidence.len() {
            return Ok(());
        }
        let type_params = declared_params(&call.callee.type_params);
        let subst = checked_substitution(&type_params, &call.type_args);
        let ghost subst_view = instantiation(type_params@, ty_views(call.type_args@));
        let mut plan = StorePlan::new();
        let mut i: usize = 0;
        while i < params.len()
            invariant
                i <= params@.len(),
                params@.len() == args@.len(),
                value_views(args@).len() == args@.len(),
                subst matches Some(s) ==> subst_view == Some(s@),
                subst is None ==> subst_view is None,
                params == call.callee.params,
                args == call.args,
                subst_view == instantiation(
                    param_ids(call.callee.type_params@),
                    ty_views(call.type_args@),
                ),
                params@.len() == args@.len() && call.callee.requirements@.len()
                    == call.evidence@.len(),
                evidence_views(call.evidence@).len() == call.evidence@.len(),
                invoke_plan(
                    *self.module,
                    self@.table,
                    params@,
                    value_views(args@),
                    subst_view,
                    0,
                    PlanView::empty(),
                ) == invoke_plan(
                    *self.module,
                    self@.table,
                    params@,
                    value_views(args@),
                    subst_view,
                    i as nat,
                    plan@,
                ),
            decreases params@.len() - i,
        {
            match &subst {
                Some(subst) => {
                    let declared = substitute(&params[i].ty, subst);
                    match self.validate_argument(&args[i], &declared) {
                        Err(e) => {
                            return Err(e);
                        },
                        Ok(_) => {},
                    }
                },
                None => {},
            }
            if params[i].take {
                match self.plan_transfer(&args[i], &mut plan, 0) {
                    Err(e) => {
                        return Err(e);
                    },
                    Ok(_) => {},
                }
            }
            i = i + 1;
        }
        match self.reject_overwrite(
            values,
            ok_slot,
            &plan.reachable,
            "an invoke would overwrite a slot (%",
        ) {
            Err(e) => {
                return Err(e);
            },
            Ok(_) => {},
        }
        let mut j: usize = 0;
        while j < err_targets.len()
            invariant
                j <= err_targets@.len(),
                invoke_check(*self.module, self@.table, values@, call@, ok_slot, err_targets@)
                    == failure_slots(
                    self@.table,
                    values@,
                    err_targets@,
                    plan@.reachable,
                    j as nat,
                ),
            decreases err_targets@.len() - j,
        {
            match self.reject_overwrite(
                values,
                err_targets[j].slot,
                &plan.reachable,
                "an invoke would overwrite a slot (%",
            ) {
                Err(e) => {
                    return Err(e);
                },
                Ok(_) => {},
            }
            j = j + 1;
        }
        Ok(())
    }
}

/// Where a two-way branch goes.
fn branch(values: &Frame, condition: ValueId, then_block: BlockId, else_block: BlockId) -> (r:
    Result<BlockId, InterpreterError>)
    ensures
        match r {
            Ok(target) => branch_taken(values@, condition, then_block, else_block) == Ok::<
                BlockId,
                ErrorView,
            >(target),
            Err(e) => branch_taken(values@, condition, then_block, else_block) == Err::<
                BlockId,
                ErrorView,
            >(e@),
        },
{
    match get(values, &condition) {
        Err(e) => Err(e),
        Ok(Value::Bool(true)) => Ok(then_block),
        Ok(Value::Bool(false)) => Ok(else_block),
        Ok(_) => Err(invalid("branch condition was not a bool")),
    }
}

/// Where a switch over a variant's cases goes.
fn switch(values: &Frame, scrutinee: ValueId, variant: ItemId, cases: &Vec<BlockId>) -> (r: Result<
    BlockId,
    InterpreterError,
>)
    ensures
        match r {
            Ok(target) => case_taken(values@, scrutinee, variant, cases@) == Ok::<
                BlockId,
                ErrorView,
            >(target),
            Err(e) => case_taken(values@, scrutinee, variant, cases@) == Err::<
                BlockId,
                ErrorView,
            >(e@),
        },
{
    match get(values, &scrutinee) {
        Err(e) => Err(e),
        Ok(Value::Variant { item, case, .. }) => {
            if item != variant {
                Err(
                    invalid(
                        "switch scrutinee's variant identity does not match the switch's declared variant",
                    ),
                )
            } else if case < cases.len() {
                Ok(cases[case])
            } else {
                Err(invalid("switch scrutinee's case has no corresponding target"))
            }
        },
        Ok(_) => Err(invalid("switch scrutinee was not a variant value")),
    }
}

/// Where an invocation continues: the value, the slot it is put into,
/// and the block.
fn continue_with(
    outcome: Outcome,
    ok_slot: ValueId,
    ok_target: BlockId,
    err_targets: &Vec<FailureTarget>,
) -> (r: Result<(Value, ValueId, BlockId), InterpreterError>)
    ensures
        match r {
            Ok((value, slot, target)) => continuation(
                outcome@,
                ok_slot,
                ok_target,
                err_targets@,
            ) == Ok::<(ValueView, ValueId, BlockId), ErrorView>((value@, slot, target)),
            Err(e) => continuation(outcome@, ok_slot, ok_target, err_targets@) == Err::<
                (ValueView, ValueId, BlockId),
                ErrorView,
            >(e@),
        },
{
    match outcome {
        Outcome::Returned(value) => Ok((value, ok_slot, ok_target)),
        Outcome::Raised(value) => {
            let item = match &value {
                Value::Variant { item, .. } => *item,
                _ => {
                    return Err(invalid("a raised value must be a variant value"));
                },
            };
            match target_for(err_targets, item) {
                Some(target) => Ok((value, target.slot, target.target)),
                None => Err(invalid("invoke has no failure target for the raised variant")),
            }
        },
    }
}

impl<'a> Interpreter<'a> {
    /// Calls a function: enters a frame for it, within the supported
    /// number of frames, and runs it to its end.
    pub fn call_function(
        &mut self,
        function: &Function,
        type_args: &Vec<Ty>,
        args: Vec<Value>,
        evidence: Vec<Evidence>,
    ) -> (r: Result<Outcome, InterpreterError>)
        ensures
            (final(self)@, concluded(r)) == called(
                *old(self).module,
                old(self)@,
                CallView {
                    callee: *function,
                    type_args: ty_views(type_args@),
                    args: value_views(args@),
                    evidence: evidence_views(evidence@),
                },
                old(self).call_depth as nat,
            ),
            final(self).module == old(self).module,
            final(self).call_depth == old(self).call_depth,
        decreases MAX_CALL_DEPTH - old(self).call_depth, 0nat,
    {
        if self.call_depth >= MAX_CALL_DEPTH {
            return Err(
                invalid_message(
                    numbered(
                        "call depth exceeded ",
                        MAX_CALL_DEPTH as u64,
                        " frames: a recursion this execution never unwound",
                    ),
                ),
            );
        }
        self.call_depth = self.call_depth + 1;
        let outcome = self.call_function_in_frame(function, type_args, args, evidence);
        self.call_depth = self.call_depth - 1;
        outcome
    }

    /// One frame, from its boundary to its end, however many are active.
    pub fn call_function_in_frame(
        &mut self,
        function: &Function,
        type_args: &Vec<Ty>,
        args: Vec<Value>,
        evidence: Vec<Evidence>,
    ) -> (r: Result<Outcome, InterpreterError>)
        ensures
            (final(self)@, concluded(r)) == run_frame(
                *old(self).module,
                old(self)@,
                CallView {
                    callee: *function,
                    type_args: ty_views(type_args@),
                    args: value_views(args@),
                    evidence: evidence_views(evidence@),
                },
                old(self).call_depth as nat,
            ),
            final(self).module == old(self).module,
            final(self).call_depth == old(self).call_depth,
        decreases MAX_CALL_DEPTH - old(self).call_depth, 5nat,
    {
        match self.enter(function, type_args, &args, evidence) {
            Err(e) => Err(e),
            Ok((values, context)) => {
                let locals = Locals { values, leases: Vec::new() };
                self.run_from(function, locals, &context)
            },
        }
    }

    /// Runs a frame from its entry block to its end.
    fn run_from(&mut self, function: &Function, start: Locals, context: &Context) -> (r: Result<
        Outcome,
        InterpreterError,
    >)
        ensures
            (final(self)@, concluded(r)) == run_blocks(
                *old(self).module,
                old(self)@,
                *function,
                BlockId(0),
                start@,
                context@,
                MAX_BLOCKS as nat,
                old(self).call_depth as nat,
            ),
            final(self).module == old(self).module,
            final(self).call_depth == old(self).call_depth,
        decreases MAX_CALL_DEPTH - old(self).call_depth, 4nat,
    {
        let mut locals = start;
        let mut block_id = BlockId(0);
        let mut budget: u64 = MAX_BLOCKS;
        while budget > 0
            invariant
                self.module == old(self).module,
                self.call_depth == old(self).call_depth,
                run_blocks(
                    *old(self).module,
                    old(self)@,
                    *function,
                    BlockId(0),
                    start@,
                    context@,
                    MAX_BLOCKS as nat,
                    old(self).call_depth as nat,
                ) == run_blocks(
                    *self.module,
                    self@,
                    *function,
                    block_id,
                    locals@,
                    context@,
                    budget as nat,
                    self.call_depth as nat,
                ),
            decreases budget,
        {
            let block = match block_named(&function.blocks, block_id) {
                None => {
                    return Err(invalid("branch to unknown block"));
                },
                Some(block) => block,
            };
            match self.run_instructions(&block.instructions, &mut locals, context, budget) {
                Err(e) => {
                    return Err(e);
                },
                Ok(_) => {},
            }
            match &block.terminator {
                Terminator::Return(id) => {
                    return match self.return_from(function, &locals.values, context, id) {
                        Err(e) => Err(e),
                        Ok(result) => Ok(Outcome::Returned(result)),
                    };
                },
                Terminator::Raise { value } => {
                    return match self.raise_from(&locals.values, context, *value) {
                        Err(e) => Err(e),
                        Ok(failure) => Ok(Outcome::Raised(failure)),
                    };
                },
                Terminator::Branch(target) => {
                    block_id = *target;
                },
                Terminator::CondBranch { condition, then_block, else_block } => {
                    match branch(&locals.values, *condition, *then_block, *else_block) {
                        Err(e) => {
                            return Err(e);
                        },
                        Ok(target) => {
                            block_id = target;
                        },
                    }
                },
                Terminator::Switch { scrutinee, variant, cases } => {
                    match switch(&locals.values, *scrutinee, *variant, cases) {
                        Err(e) => {
                            return Err(e);
                        },
                        Ok(target) => {
                            block_id = target;
                        },
                    }
                },
                Terminator::Invoke {
                    callee,
                    type_args,
                    args,
                    evidence,
                    ok_slot,
                    ok_target,
                    err_targets,
                } => {
                    let call = match self.prepare_call(
                        &locals.values,
                        &context.evidence,
                        &context.subst,
                        *callee,
                        type_args,
                        args,
                        evidence,
                        "invoke targets a function not present in this module",
                    ) {
                        Err(e) => {
                            return Err(e);
                        },
                        Ok(call) => call,
                    };
                    match self.check_invoke(&locals.values, &call, *ok_slot, err_targets) {
                        Err(e) => {
                            return Err(e);
                        },
                        Ok(_) => {},
                    }
                    let outcome = match self.call_function(
                        call.callee,
                        &call.type_args,
                        call.args,
                        call.evidence,
                    ) {
                        Err(e) => {
                            return Err(e);
                        },
                        Ok(outcome) => outcome,
                    };
                    match continue_with(outcome, *ok_slot, *ok_target, err_targets) {
                        Err(e) => {
                            return Err(e);
                        },
                        Ok((value, slot, target)) => {
                            locals.values.insert(slot, value);
                            block_id = target;
                        },
                    }
                },
            }
            budget = budget - 1;
        }
        Err(invalid("a frame ran more blocks than this execution counts"))
    }

    /// Runs the instructions of a block, until one is refused.
    fn run_instructions(
        &mut self,
        instructions: &Vec<Instruction>,
        locals: &mut Locals,
        context: &Context,
        budget: u64,
    ) -> (r: Result<(), InterpreterError>)
        ensures
            (final(self)@, final(locals)@, checked(r)) == run_instructions(
                *old(self).module,
                old(self)@,
                instructions@,
                0,
                old(locals)@,
                context@,
                budget as nat,
                old(self).call_depth as nat,
            ),
            final(self).module == old(self).module,
            final(self).call_depth == old(self).call_depth,
        decreases MAX_CALL_DEPTH - old(self).call_depth, 3nat,
    {
        let mut i: usize = 0;
        while i < instructions.len()
            invariant
                i <= instructions@.len(),
                self.module == old(self).module,
                self.call_depth == old(self).call_depth,
                run_instructions(
                    *old(self).module,
                    old(self)@,
                    instructions@,
                    0,
                    old(locals)@,
                    context@,
                    budget as nat,
                    old(self).call_depth as nat,
                ) == run_instructions(
                    *self.module,
                    self@,
                    instructions@,
                    i as nat,
                    locals@,
                    context@,
                    budget as nat,
                    self.call_depth as nat,
                ),
            decreases instructions@.len() - i,
        {
            match self.execute(&instructions[i], locals, context) {
                Err(e) => {
                    return Err(e);
                },
                Ok(_) => {},
            }
            i = i + 1;
        }
        Ok(())
    }

    /// Executes one instruction.
    fn execute(&mut self, instruction: &Instruction, locals: &mut Locals, context: &Context) -> (r:
        Result<(), InterpreterError>)
        ensures
            (final(self)@, final(locals)@, checked(r)) == executed(
                *old(self).module,
                old(self)@,
                *instruction,
                old(locals)@,
                context@,
                old(self).call_depth as nat,
            ),
            final(self).module == old(self).module,
            final(self).call_depth == old(self).call_depth,
        decreases MAX_CALL_DEPTH - old(self).call_depth, 2nat,
    {
        match instruction {
            Instruction::Value { result, ty, kind } => {
                let value = match kind {
                    ValueKind::PlaceRead { place, mode } => self.access_place(
                        &mut locals.values,
                        &context.origins,
                        place,
                        *mode,
                    ),
                    ValueKind::ObservePlace { observation, place } => self.begin_observe(
                        &locals.values,
                        &context.origins,
                        &mut locals.leases,
                        *observation,
                        place,
                    ),
                    ValueKind::DeferCapture { source } => {
                        let declared = substitute(ty, &context.subst);
                        match self.reject_capture(&locals.values, source, &declared) {
                            Err(e) => Err(e),
                            Ok(_) => self.eval(
                                kind,
                                &locals.values,
                                &context.evidence,
                                &context.subst,
                            ),
                        }
                    },
                    _ => self.eval(kind, &locals.values, &context.evidence, &context.subst),
                };
                match value {
                    Err(e) => Err(e),
                    Ok(value) => {
                        locals.values.insert(*result, value);
                        Ok(())
                    },
                }
            },
            Instruction::EndObserve { observation } => self.end_observe(
                &mut locals.leases,
                *observation,
            ),
            Instruction::DecomposeVariant { value, variant, case, taken } => self.decompose_variant(
                &mut locals.values,
                &context.origins,
                *value,
                *variant,
                *case,
                taken,
            ),
            Instruction::Store { slot, value, mode } => self.store_slot(
                &mut locals.values,
                context,
                *slot,
                *value,
                *mode,
            ),
            Instruction::Drop { value } => self.drop_slot(&mut locals.values, *value),
            Instruction::StorePlace { place, value } => self.store_place_transfer(
                &mut locals.values,
                &context.origins,
                place,
                *value,
            ),
        }
    }

    /// Evaluates a value kind in a frame.
    pub fn eval(
        &mut self,
        kind: &ValueKind,
        values: &Frame,
        current_evidence: &Vec<Evidence>,
        frame_subst: &Substitution,
    ) -> (r: Result<Value, InterpreterError>)
        ensures
            (final(self)@, evaluated(r)) == evaluation(
                *old(self).module,
                old(self)@,
                *kind,
                values@,
                evidence_views(current_evidence@),
                frame_subst@,
                old(self).call_depth as nat,
            ),
            final(self).module == old(self).module,
            final(self).call_depth == old(self).call_depth,
        decreases MAX_CALL_DEPTH - old(self).call_depth, 1nat,
    {
        match kind {
            ValueKind::Call(item, type_args, args, call_evidence) => {
                let call = match self.prepare_call(
                    values,
                    current_evidence,
                    frame_subst,
                    *item,
                    type_args,
                    args,
                    call_evidence,
                    "call to a function not present in this module",
                ) {
                    Err(e) => {
                        return Err(e);
                    },
                    Ok(call) => call,
                };
                match self.call_function(call.callee, &call.type_args, call.args, call.evidence) {
                    Err(e) => Err(e),
                    Ok(Outcome::Returned(value)) => Ok(value),
                    Ok(Outcome::Raised(_)) => Err(
                        invalid(
                            "an ordinary call's callee raised a failure; only Invoke may call a fallible function",
                        ),
                    ),
                }
            },
            ValueKind::ProtocolCall { protocol, arguments, method, evidence, args } => {
                let call = match self.prepare_protocol_call(
                    values,
                    current_evidence,
                    frame_subst,
                    arguments,
                    *method,
                    evidence,
                    args,
                ) {
                    Err(e) => {
                        return Err(e);
                    },
                    Ok(call) => call,
                };
                match self.call_function(call.callee, &call.type_args, call.args, call.evidence) {
                    Err(e) => Err(e),
                    Ok(Outcome::Returned(value)) => Ok(value),
                    Ok(Outcome::Raised(_)) => Err(
                        invalid(
                            "a protocol call's implementing method raised a failure; protocol methods that raise are not yet supported",
                        ),
                    ),
                }
            },
            _ => self.compute(kind, values, frame_subst),
        }
    }
}

} // verus!
