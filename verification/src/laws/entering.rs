use crate::eval::CallView;
use crate::frame::{
    bound_argument, bound_arguments, entered, executed, find_block, load_origins, loads_from,
    observing_params, slot_types, slots_from, BindingView, EntryView, LocalsView,
};
use crate::ids::{BlockId, ValueId};
use crate::interpreter::StateView;
use crate::laws::boundary::{planned_value_stands_for_it, stands_for};
use crate::laws::call::entering_moves_what_is_taken;
use crate::laws::place::{found, straight};
use crate::laws::reading::{
    loaded_from, observing_view_shows_it, shows, taking_empties_the_storage,
};
use crate::laws::transfer::has_handle;
use crate::ownership::{plan_inner, PlanView};
use crate::program::{
    BasicBlock, Instruction, Module, OwnershipMode, Param, Place, ValueKind,
};
use crate::table::TableView;
use crate::types::{Ty, TyView};
use crate::value::{ErrorView, ResourceHandle, ValueView};
use vstd::prelude::*;

verus! {

broadcast use crate::types::group_type_views;

// ---------------------------------------------------------------------
// What a frame knows of its instructions.
// ---------------------------------------------------------------------

/// Whether an instruction loads a slot into `id`.
pub open spec fn loads_into(instruction: Instruction, id: u32) -> bool {
    instruction matches Instruction::Value { result, kind: ValueKind::Load(_), .. } && result.0
        == id
}

/// The slot that a load reads.
pub open spec fn slot_loaded(instruction: Instruction) -> ValueId {
    match instruction {
        Instruction::Value { kind: ValueKind::Load(slot), .. } => slot,
        _ => ValueId(0),
    }
}

/// Whether an instruction allocates the slot `id`.
pub open spec fn allocates(instruction: Instruction, id: u32) -> bool {
    instruction matches Instruction::Value { result, kind: ValueKind::Alloc, .. } && result.0 == id
}

/// The type that an allocation declares.
pub open spec fn type_declared(instruction: Instruction) -> TyView {
    match instruction {
        Instruction::Value { ty, .. } => ty@,
        _ => TyView::Error,
    }
}

/// Whether some load of the blocks gives `id`.
pub open spec fn is_loaded(blocks: Seq<BasicBlock>, id: u32) -> bool {
    exists|b: int, i: int|
        0 <= b < blocks.len() && 0 <= i < blocks[b].instructions@.len()
            && #[trigger] loads_into(blocks[b].instructions@[i], id)
}

/// Whether some instruction of the blocks allocates `id`.
pub open spec fn is_allocated(blocks: Seq<BasicBlock>, id: u32) -> bool {
    exists|b: int, i: int|
        0 <= b < blocks.len() && 0 <= i < blocks[b].instructions@.len()
            && #[trigger] allocates(blocks[b].instructions@[i], id)
}

proof fn loads_of_a_block(
    instructions: Seq<Instruction>,
    i: nat,
    known: Map<u32, ValueId>,
    id: u32,
    value: ValueId,
)
    requires
        forall|j: int|
            i <= j < instructions.len() && #[trigger] loads_into(instructions[j], id)
                ==> slot_loaded(instructions[j]) == value,
    ensures
        ({
            let after = loads_from(instructions, i, known);
            let occurs = exists|j: int|
                i <= j < instructions.len() && #[trigger] loads_into(instructions[j], id);
            &&& occurs ==> after.contains_key(id) && after[id] == value
            &&& !occurs ==> after.contains_key(id) == known.contains_key(id) && after[id]
                == known[id]
        }),
    decreases instructions.len() - i,
{
    if i < instructions.len() {
        let next = match instructions[i as int] {
            Instruction::Value { result, kind: ValueKind::Load(_), .. } => known.insert(
                result.0,
                slot_loaded(instructions[i as int]),
            ),
            _ => known,
        };
        loads_of_a_block(instructions, i + 1, next, id, value);
        assert(loads_from(instructions, i, known) == loads_from(instructions, i + 1, next));
        if !loads_into(instructions[i as int], id) {
            assert(next.contains_key(id) == known.contains_key(id) && next[id] == known[id]);
        }
        if exists|j: int|
            i <= j < instructions.len() && #[trigger] loads_into(instructions[j], id) {
            let j = choose|j: int|
                i <= j < instructions.len() && #[trigger] loads_into(instructions[j], id);
            if j == i {
                assert(next.contains_key(id) && next[id] == value);
            }
        }
    }
}

proof fn loads_of_the_blocks(
    blocks: Seq<BasicBlock>,
    b: nat,
    known: Map<u32, ValueId>,
    id: u32,
    value: ValueId,
)
    requires
        forall|c: int, j: int|
            b <= c < blocks.len() && 0 <= j < blocks[c].instructions@.len()
                && #[trigger] loads_into(blocks[c].instructions@[j], id)
                ==> slot_loaded(blocks[c].instructions@[j]) == value,
    ensures
        ({
            let after = load_origins(blocks, b, known);
            let occurs = exists|c: int, j: int|
                b <= c < blocks.len() && 0 <= j < blocks[c].instructions@.len()
                    && #[trigger] loads_into(blocks[c].instructions@[j], id);
            &&& occurs ==> after.contains_key(id) && after[id] == value
            &&& !occurs ==> after.contains_key(id) == known.contains_key(id) && after[id]
                == known[id]
        }),
    decreases blocks.len() - b,
{
    if b < blocks.len() {
        let instructions = blocks[b as int].instructions@;
        let next = loads_from(instructions, 0, known);
        assert forall|j: int|
            0 <= j < instructions.len() && #[trigger] loads_into(instructions[j], id)
                implies slot_loaded(instructions[j]) == value by {
            assert(loads_into(blocks[b as int].instructions@[j], id));
        }
        loads_of_a_block(instructions, 0, known, id, value);
        loads_of_the_blocks(blocks, b + 1, next, id, value);
        let here = exists|j: int|
            0 <= j < instructions.len() && #[trigger] loads_into(instructions[j], id);
        if exists|c: int, j: int|
            b <= c < blocks.len() && 0 <= j < blocks[c].instructions@.len()
                && #[trigger] loads_into(blocks[c].instructions@[j], id) {
            let (c, j) = choose|c: int, j: int|
                b <= c < blocks.len() && 0 <= j < blocks[c].instructions@.len()
                    && #[trigger] loads_into(blocks[c].instructions@[j], id);
            if c == b {
                assert(loads_into(instructions[j], id));
                assert(here);
            }
        } else if here {
            let j = choose|j: int|
                0 <= j < instructions.len() && #[trigger] loads_into(instructions[j], id);
            assert(loads_into(blocks[b as int].instructions@[j], id));
        }
    }
}

proof fn slots_of_a_block(
    instructions: Seq<Instruction>,
    i: nat,
    known: Map<u32, TyView>,
    id: u32,
    value: TyView,
)
    requires
        forall|j: int|
            i <= j < instructions.len() && #[trigger] allocates(instructions[j], id)
                ==> type_declared(instructions[j]) == value,
    ensures
        ({
            let after = slots_from(instructions, i, known);
            let occurs = exists|j: int|
                i <= j < instructions.len() && #[trigger] allocates(instructions[j], id);
            &&& occurs ==> after.contains_key(id) && after[id] == value
            &&& !occurs ==> after.contains_key(id) == known.contains_key(id) && after[id]
                == known[id]
        }),
    decreases instructions.len() - i,
{
    if i < instructions.len() {
        let next = match instructions[i as int] {
            Instruction::Value { result, kind: ValueKind::Alloc, .. } => known.insert(
                result.0,
                type_declared(instructions[i as int]),
            ),
            _ => known,
        };
        slots_of_a_block(instructions, i + 1, next, id, value);
        assert(slots_from(instructions, i, known) == slots_from(instructions, i + 1, next));
        if !allocates(instructions[i as int], id) {
            assert(next.contains_key(id) == known.contains_key(id) && next[id] == known[id]);
        }
        if exists|j: int|
            i <= j < instructions.len() && #[trigger] allocates(instructions[j], id) {
            let j = choose|j: int|
                i <= j < instructions.len() && #[trigger] allocates(instructions[j], id);
            if j == i {
                assert(next.contains_key(id) && next[id] == value);
            }
        }
    }
}

proof fn slots_of_the_blocks(
    blocks: Seq<BasicBlock>,
    b: nat,
    known: Map<u32, TyView>,
    id: u32,
    value: TyView,
)
    requires
        forall|c: int, j: int|
            b <= c < blocks.len() && 0 <= j < blocks[c].instructions@.len()
                && #[trigger] allocates(blocks[c].instructions@[j], id)
                ==> type_declared(blocks[c].instructions@[j]) == value,
    ensures
        ({
            let after = slot_types(blocks, b, known);
            let occurs = exists|c: int, j: int|
                b <= c < blocks.len() && 0 <= j < blocks[c].instructions@.len()
                    && #[trigger] allocates(blocks[c].instructions@[j], id);
            &&& occurs ==> after.contains_key(id) && after[id] == value
            &&& !occurs ==> after.contains_key(id) == known.contains_key(id) && after[id]
                == known[id]
        }),
    decreases blocks.len() - b,
{
    if b < blocks.len() {
        let instructions = blocks[b as int].instructions@;
        let next = slots_from(instructions, 0, known);
        assert forall|j: int|
            0 <= j < instructions.len() && #[trigger] allocates(instructions[j], id)
                implies type_declared(instructions[j]) == value by {
            assert(allocates(blocks[b as int].instructions@[j], id));
        }
        slots_of_a_block(instructions, 0, known, id, value);
        slots_of_the_blocks(blocks, b + 1, next, id, value);
        let here = exists|j: int|
            0 <= j < instructions.len() && #[trigger] allocates(instructions[j], id);
        if exists|c: int, j: int|
            b <= c < blocks.len() && 0 <= j < blocks[c].instructions@.len()
                && #[trigger] allocates(blocks[c].instructions@[j], id) {
            let (c, j) = choose|c: int, j: int|
                b <= c < blocks.len() && 0 <= j < blocks[c].instructions@.len()
                    && #[trigger] allocates(blocks[c].instructions@[j], id);
            if c == b {
                assert(allocates(instructions[j], id));
                assert(here);
            }
        } else if here {
            let j = choose|j: int|
                0 <= j < instructions.len() && #[trigger] allocates(instructions[j], id);
            assert(allocates(blocks[b as int].instructions@[j], id));
        }
    }
}

/// A frame knows of each load of its function the slot it reads, where
/// the loads of one result agree on it; and of no other value does it know
/// one. A result read from a slot that is no load's result leads back to
/// that slot.
pub proof fn frame_knows_its_loads(
    module: Module,
    table: TableView,
    call: CallView,
    entry: EntryView,
    b: int,
    i: int,
    result: ValueId,
    ty: Ty,
    slot: ValueId,
)
    requires
        entered(module, table, call) == Ok::<EntryView, ErrorView>(entry),
        0 <= b < call.callee.blocks@.len(),
        0 <= i < call.callee.blocks@[b].instructions@.len(),
        call.callee.blocks@[b].instructions@[i] == (Instruction::Value {
            result,
            ty,
            kind: ValueKind::Load(slot),
        }),
        forall|c: int, j: int|
            0 <= c < call.callee.blocks@.len() && 0 <= j
                < call.callee.blocks@[c].instructions@.len()
                    && #[trigger] loads_into(call.callee.blocks@[c].instructions@[j], result.0)
                ==> slot_loaded(call.callee.blocks@[c].instructions@[j]) == slot,
    ensures
        entry.context.origins.contains_key(result.0),
        entry.context.origins[result.0] == slot,
        !is_loaded(call.callee.blocks@, slot.0) ==> loaded_from(
            entry.context.origins,
            result,
            slot,
            1,
        ),
{
    let blocks = call.callee.blocks@;
    assert(loads_into(blocks[b].instructions@[i], result.0));
    loads_of_the_blocks(blocks, 0, Map::empty(), result.0, slot);
    if !is_loaded(blocks, slot.0) {
        loads_of_the_blocks(blocks, 0, Map::empty(), slot.0, slot);
        if result.0 == slot.0 {
            assert(is_loaded(blocks, slot.0));
        }
        assert(loaded_from(entry.context.origins, slot, slot, 0));
    }
}

/// A value that no load of its function gives is known to a frame as
/// storage of its own.
pub proof fn frame_knows_no_other_loads(
    module: Module,
    table: TableView,
    call: CallView,
    entry: EntryView,
    id: ValueId,
)
    requires
        entered(module, table, call) == Ok::<EntryView, ErrorView>(entry),
        !is_loaded(call.callee.blocks@, id.0),
    ensures
        !entry.context.origins.contains_key(id.0),
        loaded_from(entry.context.origins, id, id, 0),
{
    loads_of_the_blocks(call.callee.blocks@, 0, Map::empty(), id.0, id);
}

/// What is moved out through a load is gone from the slot that was
/// loaded: in a frame that was entered, taking a value out of a place
/// whose root is a load's result leaves that place of the slot empty.
pub proof fn taken_through_a_load_is_gone_from_its_slot(
    module: Module,
    table: TableView,
    call: CallView,
    entry: EntryView,
    b: int,
    i: int,
    loaded: ValueId,
    loaded_ty: Ty,
    slot: ValueId,
    state: StateView,
    locals: LocalsView,
    result: ValueId,
    ty: Ty,
    place: Place,
    depth: nat,
)
    requires
        entered(module, table, call) == Ok::<EntryView, ErrorView>(entry),
        0 <= b < call.callee.blocks@.len(),
        0 <= i < call.callee.blocks@[b].instructions@.len(),
        call.callee.blocks@[b].instructions@[i] == (Instruction::Value {
            result: loaded,
            ty: loaded_ty,
            kind: ValueKind::Load(slot),
        }),
        forall|c: int, j: int|
            0 <= c < call.callee.blocks@.len() && 0 <= j
                < call.callee.blocks@[c].instructions@.len()
                    && #[trigger] loads_into(call.callee.blocks@[c].instructions@[j], loaded.0)
                ==> slot_loaded(call.callee.blocks@[c].instructions@[j]) == slot,
        !is_loaded(call.callee.blocks@, slot.0),
        place.root == loaded,
        place.projections@.len() > 0,
        result.0 != slot.0,
        straight(state.table, locals.values[slot.0], place.projections@, 0),
    ensures
        ({
            let (state1, locals1, r) = executed(
                module,
                state,
                Instruction::Value {
                    result,
                    ty,
                    kind: ValueKind::PlaceRead { place, mode: OwnershipMode::Transfer },
                },
                locals,
                entry.context,
                depth,
            );
            r is Ok ==> {
                &&& found(state1.table, locals1.values[slot.0], place.projections@, 0) is Moved
                &&& locals1.values[result.0] == found(
                    state.table,
                    locals.values[slot.0],
                    place.projections@,
                    0,
                )
                &&& !(locals1.values[result.0] is Moved)
            }
        }),
{
    frame_knows_its_loads(module, table, call, entry, b, i, loaded, loaded_ty, slot);
    taking_empties_the_storage(
        module,
        state,
        locals,
        entry.context,
        result,
        ty,
        place,
        depth,
        slot,
        1,
    );
}

/// A frame knows of each slot its function allocates the type declared
/// for it, where the allocations of one slot agree on it; and of no other
/// value does it know one.
pub proof fn frame_knows_its_slots(
    module: Module,
    table: TableView,
    call: CallView,
    entry: EntryView,
    slot: ValueId,
    declared: TyView,
)
    requires
        entered(module, table, call) == Ok::<EntryView, ErrorView>(entry),
        forall|c: int, j: int|
            0 <= c < call.callee.blocks@.len() && 0 <= j
                < call.callee.blocks@[c].instructions@.len()
                    && #[trigger] allocates(call.callee.blocks@[c].instructions@[j], slot.0)
                ==> type_declared(call.callee.blocks@[c].instructions@[j]) == declared,
    ensures
        entry.context.slots.contains_key(slot.0) <==> is_allocated(call.callee.blocks@, slot.0),
        is_allocated(call.callee.blocks@, slot.0) ==> entry.context.slots[slot.0] == declared,
{
    slots_of_the_blocks(call.callee.blocks@, 0, Map::empty(), slot.0, declared);
}

proof fn observing_ones(params: Seq<Param>, i: nat, observing: Set<u32>, id: u32)
    ensures
        observing_params(params, i, observing).contains(id) <==> observing.contains(id) || exists|
            k: int,
        |
            i <= k < params.len() && !(#[trigger] params[k]).take && params[k].value.0 == id,
    decreases params.len() - i,
{
    if i < params.len() {
        let param = params[i as int];
        let next = if param.take {
            observing
        } else {
            observing.insert(param.value.0)
        };
        observing_ones(params, i + 1, next, id);
        if exists|k: int|
            i <= k < params.len() && !(#[trigger] params[k]).take && params[k].value.0 == id {
            let k = choose|k: int|
                i <= k < params.len() && !(#[trigger] params[k]).take && params[k].value.0 == id;
            if k == i {
                assert(next.contains(id));
            }
        }
    }
}

/// A frame knows which of its parameters only observe, and computes with
/// the evidence it was given: one entry for each requirement.
pub proof fn frame_knows_its_call(module: Module, table: TableView, call: CallView, entry: EntryView)
    requires
        entered(module, table, call) == Ok::<EntryView, ErrorView>(entry),
    ensures
        forall|id: u32| #[trigger]
            entry.context.observing.contains(id) <==> exists|k: int|
                0 <= k < call.callee.params@.len() && !(#[trigger] call.callee.params@[k]).take
                    && call.callee.params@[k].value.0 == id,
        entry.context.evidence == call.evidence,
        call.evidence.len() == call.callee.requirements@.len(),
        call.type_args.len() == call.callee.type_params@.len(),
        call.args.len() == call.callee.params@.len(),
        exists|k: int|
            0 <= k < call.callee.blocks@.len() && (#[trigger] call.callee.blocks@[k]).id == BlockId(
                0,
            ),
{
    let params = call.callee.params@;
    assert forall|id: u32| #[trigger]
        entry.context.observing.contains(id) <==> exists|k: int|
            0 <= k < params.len() && !(#[trigger] params[k]).take && params[k].value.0 == id by {
        observing_ones(params, 0, Set::empty(), id);
    }
    block_is_the_first_of_its_number(call.callee.blocks@, BlockId(0), 0);
}

/// The block of a number is the first that has it, and there is none only
/// where none has it.
pub proof fn block_is_the_first_of_its_number(blocks: Seq<BasicBlock>, id: BlockId, i: nat)
    ensures
        match find_block(blocks, id, i) {
            Some(block) => exists|k: int|
                i <= k < blocks.len() && #[trigger] blocks[k] == block && block.id == id && forall|
                    j: int,
                |
                    i <= j < k ==> (#[trigger] blocks[j]).id != id,
            None => forall|k: int| i <= k < blocks.len() ==> (#[trigger] blocks[k]).id != id,
        },
    decreases blocks.len() - i,
{
    if i < blocks.len() && blocks[i as int].id != id {
        block_is_the_first_of_its_number(blocks, id, i + 1);
    }
}

// ---------------------------------------------------------------------
// What a frame's parameters are bound to.
// ---------------------------------------------------------------------

/// Whether `value` is what a parameter is bound to: the argument as a plan
/// rebuilt it, or a view of the argument.
spec fn bound_to(
    module: Module,
    table: TableView,
    param: Param,
    arg: ValueView,
    value: ValueView,
) -> bool {
    if param.take {
        exists|plan: PlanView|
            (#[trigger] plan_inner(module, table, arg, plan, 0)).1 == Ok::<ValueView, ErrorView>(
                value,
            )
    } else {
        table.observing_view(arg, None, 0) == Ok::<ValueView, ErrorView>(value)
    }
}

proof fn parameters_are_bound(
    module: Module,
    table: TableView,
    params: Seq<Param>,
    args: Seq<ValueView>,
    subst: Map<u32, TyView>,
    i: nat,
    binding: BindingView,
    last: BindingView,
)
    requires
        bound_arguments(module, table, params, args, subst, i, binding) == Ok::<
            BindingView,
            ErrorView,
        >(last),
        i <= params.len(),
        forall|k: int, l: int|
            0 <= k < l < params.len() ==> (#[trigger] params[k]).value != (
            #[trigger] params[l]).value,
        forall|k: int|
            0 <= k < i ==> bound_to(
                module,
                table,
                #[trigger] params[k],
                args[k],
                binding.values[params[k].value.0],
            ),
        forall|id: u32| #[trigger]
            binding.values.contains_key(id) ==> exists|k: int|
                0 <= k < i && (#[trigger] params[k]).value.0 == id,
    ensures
        forall|k: int|
            0 <= k < params.len() ==> bound_to(
                module,
                table,
                #[trigger] params[k],
                args[k],
                last.values[params[k].value.0],
            ),
        forall|id: u32| #[trigger]
            last.values.contains_key(id) ==> exists|k: int|
                0 <= k < params.len() && (#[trigger] params[k]).value.0 == id,
    decreases params.len() - i,
{
    if i < params.len() {
        let param = params[i as int];
        let arg = args[i as int];
        let next = bound_argument(module, table, param, arg, subst, binding)->Ok_0;
        let value = next.values[param.value.0];
        assert(next.values == binding.values.insert(param.value.0, value));
        if param.take {
            assert(plan_inner(module, table, arg, binding.plan, 0).1 == Ok::<ValueView, ErrorView>(
                value,
            ));
        }
        assert(bound_to(module, table, param, arg, value));
        assert forall|id: u32| #[trigger] next.values.contains_key(id) implies exists|k: int|
            0 <= k < i + 1 && (#[trigger] params[k]).value.0 == id by {
            if id == param.value.0 {
                assert(params[i as int].value.0 == id);
            } else {
                let k = choose|k: int| 0 <= k < i && (#[trigger] params[k]).value.0 == id;
                assert(params[k].value.0 == id);
            }
        }
        parameters_are_bound(module, table, params, args, subst, i + 1, next, last);
    }
}

/// In a frame that was entered, each parameter holds its own argument: as
/// its new owner holds it where it is taken, and a view that shows it
/// where it is only observed. The frame holds nothing else.
pub proof fn parameter_holds_its_argument(
    module: Module,
    table: TableView,
    call: CallView,
    entry: EntryView,
)
    requires
        entered(module, table, call) == Ok::<EntryView, ErrorView>(entry),
        forall|k: int, l: int|
            0 <= k < l < call.callee.params@.len() ==> (#[trigger] call.callee.params@[k]).value
                != (#[trigger] call.callee.params@[l]).value,
    ensures
        forall|k: int|
            0 <= k < call.callee.params@.len() && (#[trigger] call.callee.params@[k]).take
                ==> stands_for(
                entry.table,
                call.args[k],
                entry.values[call.callee.params@[k].value.0],
            ),
        forall|k: int|
            0 <= k < call.callee.params@.len() && !(#[trigger] call.callee.params@[k]).take
                ==> shows(call.args[k], entry.values[call.callee.params@[k].value.0]),
        forall|id: u32| #[trigger]
            entry.values.contains_key(id) ==> exists|k: int|
                0 <= k < call.callee.params@.len() && (#[trigger] call.callee.params@[k]).value.0
                    == id,
{
    let params = call.callee.params@;
    entering_moves_what_is_taken(module, table, call, entry);
    let binding = bound_arguments(
        module,
        table,
        params,
        call.args,
        entry.context.subst,
        0,
        BindingView::empty(),
    )->Ok_0;
    parameters_are_bound(
        module,
        table,
        params,
        call.args,
        entry.context.subst,
        0,
        BindingView::empty(),
        binding,
    );
    assert forall|k: int| 0 <= k < params.len() && (#[trigger] params[k]).take implies stands_for(
        entry.table,
        call.args[k],
        entry.values[params[k].value.0],
    ) by {
        let value = entry.values[params[k].value.0];
        assert(bound_to(module, table, params[k], call.args[k], value));
        let plan = choose|plan: PlanView|
            (#[trigger] plan_inner(module, table, call.args[k], plan, 0)).1 == Ok::<
                ValueView,
                ErrorView,
            >(value);
        assert forall|handle: ResourceHandle| #[trigger]
            has_handle(value, handle) implies entry.table.record(handle) is Ok by {
            assert(entry.table.observe(handle) is Ok);
        }
        planned_value_stands_for_it(module, table, entry.table, call.args[k], plan, 0, value);
    }
    assert forall|k: int| 0 <= k < params.len() && !(#[trigger] params[k]).take implies shows(
        call.args[k],
        entry.values[params[k].value.0],
    ) by {
        let value = entry.values[params[k].value.0];
        assert(bound_to(module, table, params[k], call.args[k], value));
        observing_view_shows_it(table, call.args[k], None, 0, value);
    }
}

} // verus!
