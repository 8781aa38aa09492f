use crate::destroy::dropping;
use crate::entry::{call_by_item, call_by_name};
use crate::eval::{call_target, computed, filled, plan_values, protocol_target, CallView};
use crate::frame::{
    bound_argument, bound_arguments, branch_taken, called, case_taken, continuation, entered,
    evaluation, executed, find_block, invoke_check, leaving, raised, returned, run_blocks,
    run_frame, run_instructions, slot_stored, BindingView, ContextView, LocalsView,
};
use crate::ids::{BlockId, ItemId, ResourceId, ValueId};
use crate::interpreter::{Event, StateView};
use crate::laws::affinity::holds_resources;
use crate::laws::destruction::{destruction_destroys_each_once, scheduled};
use crate::laws::lease::{
    all_leased, beginning_keeps_the_order, ending_keeps_the_order, leases_in_order,
};
use crate::laws::transfer::{planning_moves_what_is_carried, sound_plan};
use crate::ownership::{plan_transferring, transferred, PlanView};
use crate::place::{lemma_stored_keeps_shape, lemma_taken_keeps_shape, same_shape, storing};
use crate::program::{
    BasicBlock, Function, Instruction, Module, Param, Place, Terminator, ValueKind, MAX_BLOCKS,
    MAX_CALL_DEPTH,
};
use crate::structural::{observation_begun, observation_ended, origin, place_access, place_store};
use crate::table::TableView;
use crate::types::{evidence_views, ty_views, EvidenceView, TyView};
use crate::value::ValueView;
use crate::value_ops::read_value;
use vstd::prelude::*;

verus! {

/// Whether `after` can follow `before` in one execution: nothing that
/// was recorded is lost, no resource and no lease disappears, none is
/// another than it was, and what was destroyed or ended stays so.
pub open spec fn follows(before: StateView, after: StateView) -> bool {
    &&& before.events.len() <= after.events.len()
    &&& forall|k: int|
        0 <= k < before.events.len() ==> #[trigger] after.events[k] == before.events[k]
    &&& before.table.records.len() <= after.table.records.len()
    &&& forall|i: int|
        0 <= i < before.table.records.len() ==> {
            &&& (#[trigger] after.table.records[i]).item == before.table.records[i].item
            &&& before.table.records[i].status is Dropped ==> after.table.records[i].status
                is Dropped
        }
    &&& before.table.leases.len() <= after.table.leases.len()
    &&& forall|i: int|
        0 <= i < before.table.leases.len() ==> {
            &&& (#[trigger] after.table.leases[i]).id == before.table.leases[i].id
            &&& after.table.leases[i].observed == before.table.leases[i].observed
            &&& after.table.leases[i].parent == before.table.leases[i].parent
            &&& before.table.leases[i].status is Ended ==> after.table.leases[i].status is Ended
        }
}

/// Whether `events` records the destruction of the resource numbered
/// `id`.
pub open spec fn drop_recorded(events: Seq<Event>, id: int) -> bool {
    exists|k: int|
        0 <= k < events.len() && (#[trigger] events[k] matches Event::Drop(dropped) && dropped.0
            == id)
}

/// Whether the record of events and the table tell the same: the
/// destroyed resources are exactly those whose destruction is recorded,
/// and none is recorded twice.
pub open spec fn recorded_truly(state: StateView) -> bool {
    &&& forall|k: int|
        0 <= k < state.events.len() ==> (#[trigger] state.events[k] matches Event::Drop(id) ==> id.0
            < state.table.records.len() && state.table.records[id.0 as int].status is Dropped)
    &&& forall|i: int|
        0 <= i < state.table.records.len() ==> ((#[trigger] state.table.records[i]).status
            is Dropped ==> drop_recorded(state.events, i))
    &&& forall|k: int, l: int|
        0 <= k < l < state.events.len() ==> (#[trigger] state.events[k] matches Event::Drop(id) ==> (
        #[trigger] state.events[l] != Event::Drop(id)))
}

/// Whether a state can arise: its table holds declared resources, its
/// record of events is true of them, and its leases are in order.
pub open spec fn sound_state(module: Module, state: StateView) -> bool {
    &&& holds_resources(module, state.table)
    &&& recorded_truly(state)
    &&& leases_in_order(state.table)
}

/// Whether going from `before` to `after` is a step of an execution.
pub open spec fn lawful(module: Module, before: StateView, after: StateView) -> bool {
    sound_state(module, before) ==> follows(before, after) && sound_state(module, after)
}

/// An execution of which nothing has run is in a sound state.
pub proof fn beginning_is_sound(module: Module, state: StateView)
    requires
        state.table.records.len() == 0,
        state.table.leases.len() == 0,
        state.events.len() == 0,
    ensures
        sound_state(module, state),
{
}

/// Whether two tables differ at most in generations and fields.
pub open spec fn rearranged(table: TableView, table1: TableView) -> bool {
    &&& table1.leases == table.leases
    &&& table1.records.len() == table.records.len()
    &&& forall|i: int|
        0 <= i < table.records.len() ==> (#[trigger] table1.records[i]).item
            == table.records[i].item && table1.records[i].status == table.records[i].status
}

proof fn rearranging_is_lawful(module: Module, state: StateView, state1: StateView)
    requires
        rearranged(state.table, state1.table),
        state1.events == state.events,
    ensures
        lawful(module, state, state1),
{
    if sound_state(module, state) {
        assert forall|i: int| 0 <= i < state1.table.records.len() implies module.resource(
            (#[trigger] state1.table.records[i]).item,
        ) by {
            assert(module.resource(state.table.records[i].item));
        }
        assert forall|i: int| 0 <= i < state1.table.records.len() && (
        #[trigger] state1.table.records[i]).status is Dropped implies drop_recorded(
            state1.events,
            i,
        ) by {
            assert(state.table.records[i].status is Dropped);
        }
    }
}

proof fn lawful_steps_join(module: Module, a: StateView, b: StateView, c: StateView)
    requires
        lawful(module, a, b),
        lawful(module, b, c),
    ensures
        lawful(module, a, c),
{
    if sound_state(module, a) {
        assert forall|k: int| 0 <= k < a.events.len() implies #[trigger] c.events[k]
            == a.events[k] by {
            assert(b.events[k] == a.events[k]);
        }
        assert forall|i: int| 0 <= i < a.table.records.len() implies (
        #[trigger] c.table.records[i]).item == a.table.records[i].item && (
        a.table.records[i].status is Dropped ==> c.table.records[i].status is Dropped) by {
            assert(b.table.records[i].item == a.table.records[i].item);
        }
        assert forall|i: int| 0 <= i < a.table.leases.len() implies (
        #[trigger] c.table.leases[i]).id == a.table.leases[i].id && c.table.leases[i].observed
            == a.table.leases[i].observed && c.table.leases[i].parent == a.table.leases[i].parent
            && (a.table.leases[i].status is Ended ==> c.table.leases[i].status is Ended) by {
            assert(b.table.leases[i].id == a.table.leases[i].id);
        }
    }
}

proof fn advancing_rearranges(table: TableView, transitions: Seq<(ResourceId, u64)>, i: nat)
    requires
        forall|k: int|
            0 <= k < transitions.len() ==> (#[trigger] transitions[k]).0.0 < table.records.len(),
    ensures
        rearranged(table, table.advanced(transitions, i)),
    decreases transitions.len() - i,
{
    if i < transitions.len() {
        let (id, generation) = transitions[i as int];
        let next = table.with_record(
            id,
            crate::table::RecordView { generation, ..table.records[id.0 as int] },
        );
        advancing_rearranges(next, transitions, i + 1);
        assert forall|k: int| 0 <= k < table.records.len() implies (
        #[trigger] table.advanced(transitions, i).records[k]).item == table.records[k].item
            && table.advanced(transitions, i).records[k].status == table.records[k].status by {
            assert(next.records[k].item == table.records[k].item);
        }
    }
}

proof fn carrying_out_rearranges(table: TableView, plan: PlanView)
    requires
        sound_plan(table, plan),
    ensures
        rearranged(table, table.advanced(plan.transitions, 0)),
{
    advancing_rearranges(table, plan.transitions, 0);
}

proof fn planning_stays_sound(
    module: Module,
    table: TableView,
    value: ValueView,
    plan: PlanView,
    depth: nat,
)
    requires
        sound_plan(table, plan),
    ensures
        sound_plan(table, plan_transferring(module, table, value, plan, depth).0),
{
    planning_moves_what_is_carried(module, table, value, plan, depth);
}

proof fn planning_all_stays_sound(
    module: Module,
    table: TableView,
    values: Seq<ValueView>,
    i: nat,
    done: Seq<ValueView>,
    plan: PlanView,
)
    requires
        sound_plan(table, plan),
    ensures
        sound_plan(table, plan_values(module, table, values, i, done, plan).0),
    decreases values.len() - i,
{
    if i < values.len() {
        planning_stays_sound(module, table, values[i as int], plan, 0);
        let (plan1, r) = plan_transferring(module, table, values[i as int], plan, 0);
        if r is Ok {
            planning_all_stays_sound(module, table, values, i + 1, done.push(r->Ok_0), plan1);
        }
    }
}

proof fn nothing_is_a_sound_plan(table: TableView)
    ensures
        sound_plan(table, PlanView::empty()),
{
}

proof fn transferring_is_lawful(module: Module, state: StateView, value: ValueView)
    ensures
        transferred(module, state.table, value) matches Ok((table, _)) ==> lawful(
            module,
            state,
            (StateView { table, events: state.events }),
        ),
{
    nothing_is_a_sound_plan(state.table);
    planning_stays_sound(module, state.table, value, PlanView::empty(), 0);
    if transferred(module, state.table, value) is Ok {
        let (table, _) = transferred(module, state.table, value)->Ok_0;
        let plan = plan_transferring(module, state.table, value, PlanView::empty(), 0).0;
        carrying_out_rearranges(state.table, plan);
        rearranging_is_lawful(module, state, StateView { table, events: state.events });
    }
}

proof fn filling_rearranges(
    module: Module,
    table: TableView,
    frame: Map<u32, ValueView>,
    declared: Seq<TyView>,
    ids: Seq<ValueId>,
    miscounted: Seq<char>,
)
    ensures
        filled(module, table, frame, declared, ids, miscounted) matches Ok((table1, _))
            ==> rearranged(table, table1),
{
    if filled(module, table, frame, declared, ids, miscounted) is Ok {
        let supplied = crate::eval::read_values(frame, ids)->Ok_0;
        nothing_is_a_sound_plan(table);
        planning_all_stays_sound(module, table, supplied, 0, Seq::empty(), PlanView::empty());
        let plan = plan_values(
            module,
            table,
            supplied,
            0,
            Seq::empty(),
            PlanView::empty(),
        ).0;
        carrying_out_rearranges(table, plan);
    }
}

proof fn constructing_is_lawful(
    module: Module,
    state: StateView,
    item: ItemId,
    fields: Seq<ValueView>,
)
    requires
        module.resource(item),
    ensures
        lawful(
            module,
            state,
            (StateView { table: state.table.with_resource(item, fields), events: state.events }),
        ),
{
    let table1 = state.table.with_resource(item, fields);
    let n = state.table.records.len();
    if sound_state(module, state) {
        assert forall|i: int| 0 <= i < table1.records.len() implies module.resource(
            (#[trigger] table1.records[i]).item,
        ) by {
            if i < n {
                assert(table1.records[i] == state.table.records[i]);
            }
        }
        assert forall|i: int| 0 <= i < table1.records.len() && (
        #[trigger] table1.records[i]).status is Dropped implies drop_recorded(
            state.events,
            i,
        ) by {
            assert(table1.records[i] == state.table.records[i]);
        }
    }
}

proof fn computing_is_lawful(
    module: Module,
    state: StateView,
    kind: ValueKind,
    frame: Map<u32, ValueView>,
    subst: Map<u32, TyView>,
)
    ensures
        computed(module, state.table, kind, frame, subst) matches Ok((table, _)) ==> lawful(
            module,
            state,
            (StateView { table, events: state.events }),
        ),
{
    if computed(module, state.table, kind, frame, subst) is Ok {
        let (table, _) = computed(module, state.table, kind, frame, subst)->Ok_0;
        let state1 = StateView { table, events: state.events };
        match kind {
            ValueKind::Move { source } => {
                transferring_is_lawful(module, state, read_value(frame, source)->Ok_0);
            },
            ValueKind::DeferCapture { source } => {
                transferring_is_lawful(module, state, read_value(frame, source)->Ok_0);
            },
            ValueKind::RecordCreate(item, type_args, field_ids) => {
                let args = crate::eval::type_args_in(ty_views(type_args@), subst)->Ok_0;
                let declared = module.record_field_types(item, args)->Ok_0;
                let miscounted =
                    "a runtime construction supplies a field count its declaration does not declare"@;
                filling_rearranges(module, state.table, frame, declared, field_ids@, miscounted);
                let (between, fields) = filled(
                    module,
                    state.table,
                    frame,
                    declared,
                    field_ids@,
                    miscounted,
                )->Ok_0;
                let middle = StateView { table: between, events: state.events };
                rearranging_is_lawful(module, state, middle);
                if module.resource(item) {
                    constructing_is_lawful(module, middle, item, fields);
                    lawful_steps_join(module, state, middle, state1);
                }
            },
            ValueKind::VariantCreate { variant, case, type_args, payload } => {
                let args = crate::eval::type_args_in(ty_views(type_args@), subst)->Ok_0;
                let declared = module.case_payload_types(variant, args, case)->Ok_0;
                filling_rearranges(
                    module,
                    state.table,
                    frame,
                    declared,
                    payload@,
                    "a runtime construction supplies a payload count its active case does not declare"@,
                );
                rearranging_is_lawful(module, state, state1);
            },
            _ => {
                rearranging_is_lawful(module, state, state1);
            },
        }
    }
}

proof fn dropping_is_lawful(module: Module, state: StateView, value: ValueView)
    ensures
        dropping(module, state, value) matches Ok(state1) ==> lawful(module, state, state1),
{
    if dropping(module, state, value) is Ok && sound_state(module, state) {
        let state1 = dropping(module, state, value)->Ok_0;
        let plan = destruction_destroys_each_once(module, state, value, state1);
        assert(plan.skip(0) =~= plan);
        let n = state.events.len() as int;
        assert forall|i: int| 0 <= i < state1.table.records.len() implies module.resource(
            (#[trigger] state1.table.records[i]).item,
        ) by {
            assert(module.resource(state.table.records[i].item));
        }
        assert forall|k: int| 0 <= k < state1.events.len() implies (
        #[trigger] state1.events[k] matches Event::Drop(id) ==> id.0 < state1.table.records.len()
            && state1.table.records[id.0 as int].status is Dropped) by {
            if k < n {
                assert(state1.events[k] == state.events[k]);
            } else {
                let handle = plan[k - n];
                assert(state1.events[k] == Event::Drop(handle.id));
                assert(state.table.observe(handle) is Ok);
                assert(plan.skip(0)[k - n].id.0 == handle.id.0);
                assert(scheduled(plan.skip(0), handle.id.0 as int));
            }
        }
        assert forall|i: int| 0 <= i < state1.table.records.len() && (
        #[trigger] state1.table.records[i]).status is Dropped implies drop_recorded(
            state1.events,
            i,
        ) by {
            if scheduled(plan.skip(0), i) {
                let k = choose|k: int| 0 <= k < plan.len() && (#[trigger] plan[k]).id.0 == i;
                assert(state1.events[n + k] == Event::Drop(plan[k].id));
            } else {
                assert(state.table.records[i].status is Dropped);
                let k = choose|k: int|
                    0 <= k < state.events.len() && (#[trigger] state.events[k] matches Event::Drop(
                        dropped,
                    ) && dropped.0 == i);
                assert(state1.events[k] == state.events[k]);
            }
        }
        assert forall|k: int, l: int| 0 <= k < l < state1.events.len() implies (
        #[trigger] state1.events[k] matches Event::Drop(id) ==> (#[trigger] state1.events[l]
            != Event::Drop(id))) by {
            if let Event::Drop(id) = state1.events[k] {
                if l < n {
                    assert(state1.events[k] == state.events[k]);
                    assert(state1.events[l] == state.events[l]);
                } else if k < n {
                    assert(state1.events[k] == state.events[k]);
                    assert(state1.events[l] == Event::Drop(plan[l - n].id));
                    assert(state.table.observe(plan[l - n]) is Ok);
                    assert(state.table.records[id.0 as int].status is Dropped);
                } else {
                    assert(state1.events[k] == Event::Drop(plan[k - n].id));
                    assert(state1.events[l] == Event::Drop(plan[l - n].id));
                    assert(plan[k - n].id != plan[l - n].id);
                }
            }
        }
    }
}

proof fn leasing_is_lawful(module: Module, state: StateView, state1: StateView)
    requires
        state1.events == state.events,
        state1.table.records == state.table.records,
        state.table.leases.len() <= state1.table.leases.len(),
        forall|i: int|
            0 <= i < state.table.leases.len() ==> {
                &&& (#[trigger] state1.table.leases[i]).id == state.table.leases[i].id
                &&& state1.table.leases[i].observed == state.table.leases[i].observed
                &&& state1.table.leases[i].parent == state.table.leases[i].parent
                &&& state.table.leases[i].status is Ended ==> state1.table.leases[i].status
                    is Ended
            },
        leases_in_order(state1.table),
    ensures
        lawful(module, state, state1),
{
}

proof fn binding_stays_sound(
    module: Module,
    table: TableView,
    params: Seq<Param>,
    args: Seq<ValueView>,
    subst: Map<u32, TyView>,
    i: nat,
    binding: BindingView,
)
    requires
        sound_plan(table, binding.plan),
    ensures
        bound_arguments(module, table, params, args, subst, i, binding) matches Ok(bound)
            ==> sound_plan(table, bound.plan),
    decreases params.len() - i,
{
    if i < params.len() {
        planning_stays_sound(module, table, args[i as int], binding.plan, 0);
        match bound_argument(module, table, params[i as int], args[i as int], subst, binding) {
            Ok(next) => binding_stays_sound(module, table, params, args, subst, i + 1, next),
            Err(_) => {},
        }
    }
}

/// Entering a call is lawful.
pub proof fn entering_is_lawful(module: Module, state: StateView, call: CallView)
    ensures
        entered(module, state.table, call) matches Ok(entry) ==> lawful(
            module,
            state,
            (StateView {
                table: entry.table,
                events: state.events.push(Event::Call(call.callee.id)),
            }),
        ),
{
    if entered(module, state.table, call) is Ok {
        let entry = entered(module, state.table, call)->Ok_0;
        let binding = bound_arguments(
            module,
            state.table,
            call.callee.params@,
            call.args,
            entry.context.subst,
            0,
            BindingView::empty(),
        )->Ok_0;
        nothing_is_a_sound_plan(state.table);
        binding_stays_sound(
            module,
            state.table,
            call.callee.params@,
            call.args,
            entry.context.subst,
            0,
            BindingView::empty(),
        );
        carrying_out_rearranges(state.table, binding.plan);
        let middle = StateView { table: entry.table, events: state.events };
        let state1 = StateView {
            table: entry.table,
            events: state.events.push(Event::Call(call.callee.id)),
        };
        rearranging_is_lawful(module, state, middle);
        assert(lawful(module, middle, state1)) by {
            if sound_state(module, middle) {
                assert forall|i: int| 0 <= i < state1.table.records.len() && (
                #[trigger] state1.table.records[i]).status is Dropped implies drop_recorded(
                    state1.events,
                    i,
                ) by {
                    let k = choose|k: int|
                        0 <= k < middle.events.len() && (
                        #[trigger] middle.events[k] matches Event::Drop(dropped) && dropped.0 == i);
                    assert(state1.events[k] == middle.events[k]);
                }
            }
        }
        lawful_steps_join(module, state, middle, state1);
    }
}

proof fn leaving_is_lawful(
    module: Module,
    state: StateView,
    values: Map<u32, ValueView>,
    observing: Set<u32>,
    value: ValueView,
    attempt: Seq<char>,
)
    ensures
        leaving(module, state.table, values, observing, value, attempt) matches Ok((table, _))
            ==> lawful(module, state, (StateView { table, events: state.events })),
{
    if leaving(module, state.table, values, observing, value, attempt) is Ok {
        nothing_is_a_sound_plan(state.table);
        planning_stays_sound(module, state.table, value, PlanView::empty(), 0);
        let plan = plan_transferring(module, state.table, value, PlanView::empty(), 0).0;
        carrying_out_rearranges(state.table, plan);
        let (table, _) = leaving(module, state.table, values, observing, value, attempt)->Ok_0;
        rearranging_is_lawful(module, state, StateView { table, events: state.events });
    }
}

proof fn storing_in_place_is_lawful(
    module: Module,
    state: StateView,
    frame: Map<u32, ValueView>,
    origins: Map<u32, ValueId>,
    place: Place,
    source: ValueId,
)
    ensures
        place_store(module, state.table, frame, origins, place, source) matches Ok((table, _))
            ==> lawful(module, state, (StateView { table, events: state.events })),
{
    if place_store(module, state.table, frame, origins, place, source) is Ok {
        let (table, _) = place_store(module, state.table, frame, origins, place, source)->Ok_0;
        let steps = place.projections@;
        let root = read_value(frame, origin(origins, place.root))->Ok_0;
        let incoming = read_value(frame, source)->Ok_0;
        nothing_is_a_sound_plan(state.table);
        planning_stays_sound(module, state.table, incoming, PlanView::empty(), 0);
        let (plan, r) = plan_transferring(module, state.table, incoming, PlanView::empty(), 0);
        let rebuilt = r->Ok_0;
        lemma_stored_keeps_shape(state.table, root, steps, 0, rebuilt);
        let (between, _) = storing(state.table, root, steps, rebuilt)->Ok_0;
        assert(same_shape(state.table, between));
        assert forall|i: int| 0 <= i < state.table.records.len() implies (
        #[trigger] between.records[i]).item == state.table.records[i].item
            && between.records[i].status == state.table.records[i].status by {
            assert(state.table.records[i].item == between.records[i].item);
        }
        let middle = StateView { table: between, events: state.events };
        rearranging_is_lawful(module, state, middle);
        advancing_rearranges(between, plan.transitions, 0);
        let state1 = StateView { table, events: state.events };
        rearranging_is_lawful(module, middle, state1);
        lawful_steps_join(module, state, middle, state1);
    }
}

proof fn accessing_is_lawful(
    module: Module,
    state: StateView,
    frame: Map<u32, ValueView>,
    origins: Map<u32, ValueId>,
    place: Place,
    mode: crate::program::OwnershipMode,
)
    ensures
        place_access(state.table, frame, origins, place, mode) matches Ok((table, _, _))
            ==> lawful(module, state, (StateView { table, events: state.events })),
{
    if place_access(state.table, frame, origins, place, mode) is Ok {
        let (table, _, _) = place_access(state.table, frame, origins, place, mode)->Ok_0;
        let root = read_value(frame, origin(origins, place.root))->Ok_0;
        lemma_taken_keeps_shape(state.table, root, place.projections@, 0);
        assert(same_shape(state.table, table));
        assert forall|i: int| 0 <= i < state.table.records.len() implies (
        #[trigger] table.records[i]).item == state.table.records[i].item
            && table.records[i].status == state.table.records[i].status by {
            assert(state.table.records[i].item == table.records[i].item);
        }
        rearranging_is_lawful(module, state, StateView { table, events: state.events });
    }
}

proof fn slot_storing_is_lawful(
    module: Module,
    state: StateView,
    values: Map<u32, ValueView>,
    context: ContextView,
    slot: ValueId,
    value: ValueId,
    mode: crate::program::OwnershipMode,
)
    ensures
        slot_stored(module, state.table, values, context, slot, value, mode) matches Ok((table, _))
            ==> lawful(module, state, (StateView { table, events: state.events })),
{
    if slot_stored(module, state.table, values, context, slot, value, mode) is Ok {
        let (table, _) = slot_stored(module, state.table, values, context, slot, value, mode)->Ok_0;
        let incoming = read_value(values, value)->Ok_0;
        nothing_is_a_sound_plan(state.table);
        planning_stays_sound(module, state.table, incoming, PlanView::empty(), 0);
        let plan = plan_transferring(module, state.table, incoming, PlanView::empty(), 0).0;
        carrying_out_rearranges(state.table, plan);
        rearranging_is_lawful(module, state, StateView { table, events: state.events });
    }
}

/// Calling a function is lawful, whatever comes of it: what an execution
/// recorded stays recorded, what it destroyed stays destroyed, and its
/// record of events stays true.
pub proof fn calling_is_lawful(module: Module, state: StateView, call: CallView, depth: nat)
    ensures
        lawful(module, state, called(module, state, call, depth).0),
    decreases MAX_CALL_DEPTH - depth, 0nat, 0nat, 0nat, 0nat,
{
    if depth < MAX_CALL_DEPTH {
        running_a_frame_is_lawful(module, state, call, depth + 1);
    } else {
        rearranging_is_lawful(module, state, state);
    }
}

proof fn running_a_frame_is_lawful(module: Module, state: StateView, call: CallView, depth: nat)
    ensures
        lawful(module, state, run_frame(module, state, call, depth).0),
    decreases MAX_CALL_DEPTH - depth, 4nat, 0nat, 0nat, 0nat,
{
    match entered(module, state.table, call) {
        Err(_) => rearranging_is_lawful(module, state, state),
        Ok(entry) => {
            let state1 = StateView {
                table: entry.table,
                events: state.events.push(Event::Call(call.callee.id)),
            };
            let locals = LocalsView { values: entry.values, leases: Seq::empty() };
            entering_is_lawful(module, state, call);
            running_blocks_is_lawful(
                module,
                state1,
                call.callee,
                BlockId(0),
                locals,
                entry.context,
                MAX_BLOCKS as nat,
                depth,
            );
            lawful_steps_join(module, state, state1, run_frame(module, state, call, depth).0);
        },
    }
}

/// Running a frame is lawful.
pub proof fn running_blocks_is_lawful(
    module: Module,
    state: StateView,
    function: Function,
    id: BlockId,
    locals: LocalsView,
    context: ContextView,
    budget: nat,
    depth: nat,
)
    requires
        all_leased(state.table, locals.leases),
    ensures
        lawful(
            module,
            state,
            run_blocks(module, state, function, id, locals, context, budget, depth).0,
        ),
    decreases MAX_CALL_DEPTH - depth, 3nat, budget, 1nat, 0nat,
{
    let end = run_blocks(module, state, function, id, locals, context, budget, depth).0;
    if budget == 0 || find_block(function.blocks@, id, 0) is None {
        rearranging_is_lawful(module, state, state);
    } else {
        let block = find_block(function.blocks@, id, 0)->0;
        let (state1, locals1, r) = run_instructions(
            module,
            state,
            block.instructions@,
            0,
            locals,
            context,
            budget,
            depth,
        );
        running_instructions_is_lawful(
            module,
            state,
            block.instructions@,
            0,
            locals,
            context,
            budget,
            depth,
        );
        if r is Ok && sound_state(module, state) {
            assert(lawful(module, state1, end)) by {
                terminating_is_lawful(
                    module,
                    state1,
                    function,
                    id,
                    block,
                    state,
                    locals,
                    locals1,
                    context,
                    budget,
                    depth,
                );
            }
            lawful_steps_join(module, state, state1, end);
        }
    }
}

proof fn terminating_is_lawful(
    module: Module,
    state1: StateView,
    function: Function,
    id: BlockId,
    block: BasicBlock,
    state: StateView,
    locals: LocalsView,
    locals1: LocalsView,
    context: ContextView,
    budget: nat,
    depth: nat,
)
    requires
        budget > 0,
        find_block(function.blocks@, id, 0) == Some(block),
        ({
            let ran = run_instructions(
                module,
                state,
                block.instructions@,
                0,
                locals,
                context,
                budget,
                depth,
            );
            ran.0 == state1 && ran.1 == locals1 && ran.2 is Ok
        }),
        all_leased(state1.table, locals1.leases),
    ensures
        lawful(
            module,
            state1,
            run_blocks(module, state, function, id, locals, context, budget, depth).0,
        ),
    decreases MAX_CALL_DEPTH - depth, 3nat, budget, 0nat, 0nat,
{
    let end = run_blocks(module, state, function, id, locals, context, budget, depth).0;
    rearranging_is_lawful(module, state1, state1);
    let left = (budget - 1) as nat;
    match block.terminator {
        Terminator::Return(value) => {
            if let Some(value) = value {
                if read_value(locals1.values, value) is Ok {
                    leaving_is_lawful(
                        module,
                        state1,
                        locals1.values,
                        context.observing,
                        read_value(locals1.values, value)->Ok_0,
                        "function returned while still owning an undestroyed resource (%"@,
                    );
                }
            }
        },
        Terminator::Raise { value } => {
            if read_value(locals1.values, value) is Ok {
                leaving_is_lawful(
                    module,
                    state1,
                    locals1.values,
                    context.observing,
                    read_value(locals1.values, value)->Ok_0,
                    "function raised while still owning an undestroyed resource (%"@,
                );
            }
        },
        Terminator::Branch(target) => {
            running_blocks_is_lawful(
                module,
                state1,
                function,
                target,
                locals1,
                context,
                left,
                depth,
            );
        },
        Terminator::CondBranch { condition, then_block, else_block } => {
            match branch_taken(locals1.values, condition, then_block, else_block) {
                Ok(target) => running_blocks_is_lawful(
                    module,
                    state1,
                    function,
                    target,
                    locals1,
                    context,
                    left,
                    depth,
                ),
                Err(_) => {},
            }
        },
        Terminator::Switch { scrutinee, variant, cases } => {
            match case_taken(locals1.values, scrutinee, variant, cases@) {
                Ok(target) => running_blocks_is_lawful(
                    module,
                    state1,
                    function,
                    target,
                    locals1,
                    context,
                    left,
                    depth,
                ),
                Err(_) => {},
            }
        },
        Terminator::Invoke {
            callee,
            type_args,
            args,
            evidence,
            ok_slot,
            ok_target,
            err_targets,
        } => {
            let target = call_target(
                module,
                locals1.values,
                context.evidence,
                context.subst,
                callee,
                ty_views(type_args@),
                args@,
                evidence_views(evidence@),
                "invoke targets a function not present in this module"@,
            );
            if target is Ok {
                let call = target->Ok_0;
                if invoke_check(
                    module,
                    state1.table,
                    locals1.values,
                    call,
                    ok_slot,
                    err_targets@,
                ) is Ok {
                    calling_is_lawful(module, state1, call, depth);
                    let (state2, outcome) = called(module, state1, call, depth);
                    if outcome is Ok && sound_state(module, state1) {
                        match continuation(outcome->Ok_0, ok_slot, ok_target, err_targets@) {
                            Ok((value, slot, next)) => {
                                running_blocks_is_lawful(
                                    module,
                                    state2,
                                    function,
                                    next,
                                    locals1.bind(slot, value),
                                    context,
                                    left,
                                    depth,
                                );
                                lawful_steps_join(module, state1, state2, end);
                            },
                            Err(_) => {},
                        }
                    }
                }
            }
        },
    }
}

proof fn running_instructions_is_lawful(
    module: Module,
    state: StateView,
    instructions: Seq<Instruction>,
    i: nat,
    locals: LocalsView,
    context: ContextView,
    budget: nat,
    depth: nat,
)
    requires
        all_leased(state.table, locals.leases),
    ensures
        lawful(
            module,
            state,
            run_instructions(module, state, instructions, i, locals, context, budget, depth).0,
        ),
        sound_state(module, state) ==> all_leased(
            run_instructions(
                module,
                state,
                instructions,
                i,
                locals,
                context,
                budget,
                depth,
            ).0.table,
            run_instructions(
                module,
                state,
                instructions,
                i,
                locals,
                context,
                budget,
                depth,
            ).1.leases,
        ),
    decreases MAX_CALL_DEPTH - depth, 3nat, budget, 0nat, instructions.len() - i,
{
    if i < instructions.len() {
        let (state1, locals1, r) = executed(
            module,
            state,
            instructions[i as int],
            locals,
            context,
            depth,
        );
        executing_is_lawful(module, state, instructions[i as int], locals, context, depth);
        if r is Ok && sound_state(module, state) {
            running_instructions_is_lawful(
                module,
                state1,
                instructions,
                i + 1,
                locals1,
                context,
                budget,
                depth,
            );
            lawful_steps_join(
                module,
                state,
                state1,
                run_instructions(
                    module,
                    state,
                    instructions,
                    i,
                    locals,
                    context,
                    budget,
                    depth,
                ).0,
            );
        }
    } else {
        rearranging_is_lawful(module, state, state);
    }
}

proof fn executing_is_lawful(
    module: Module,
    state: StateView,
    instruction: Instruction,
    locals: LocalsView,
    context: ContextView,
    depth: nat,
)
    requires
        all_leased(state.table, locals.leases),
    ensures
        lawful(module, state, executed(module, state, instruction, locals, context, depth).0),
        sound_state(module, state) ==> all_leased(
            executed(module, state, instruction, locals, context, depth).0.table,
            executed(module, state, instruction, locals, context, depth).1.leases,
        ),
    decreases MAX_CALL_DEPTH - depth, 2nat, 0nat, 0nat, 0nat,
{
    rearranging_is_lawful(module, state, state);
    match instruction {
        Instruction::Value { result, kind, .. } => match kind {
            ValueKind::PlaceRead { place, mode } => accessing_is_lawful(
                module,
                state,
                locals.values,
                context.origins,
                place,
                mode,
            ),
            ValueKind::ObservePlace { observation, place } => {
                let (table, _, _) = observation_begun(
                    state.table,
                    locals.values,
                    context.origins,
                    locals.leases,
                    observation,
                    place,
                );
                if leases_in_order(state.table) {
                    beginning_keeps_the_order(
                        state.table,
                        locals.values,
                        context.origins,
                        locals.leases,
                        observation,
                        place,
                    );
                    leasing_is_lawful(module, state, StateView { table, events: state.events });
                }
            },
            _ => {
                evaluating_is_lawful(
                    module,
                    state,
                    kind,
                    locals.values,
                    context.evidence,
                    context.subst,
                    depth,
                );
            },
        },
        Instruction::EndObserve { observation } => {
            match observation_ended(state.table, locals.leases, observation) {
                Ok((table, leases)) => {
                    if leases_in_order(state.table) {
                        ending_keeps_the_order(
                            state.table,
                            locals.leases,
                            observation,
                            table,
                            leases,
                        );
                        leasing_is_lawful(
                            module,
                            state,
                            StateView { table, events: state.events },
                        );
                    }
                },
                Err(_) => {},
            }
        },
        Instruction::DecomposeVariant { .. } => {},
        Instruction::Store { slot, value, mode } => slot_storing_is_lawful(
            module,
            state,
            locals.values,
            context,
            slot,
            value,
            mode,
        ),
        Instruction::Drop { value } => {
            if read_value(locals.values, value) is Ok {
                dropping_is_lawful(module, state, read_value(locals.values, value)->Ok_0);
            }
        },
        Instruction::StorePlace { place, value } => storing_in_place_is_lawful(
            module,
            state,
            locals.values,
            context.origins,
            place,
            value,
        ),
    }
}

proof fn evaluating_is_lawful(
    module: Module,
    state: StateView,
    kind: ValueKind,
    values: Map<u32, ValueView>,
    evidence: Seq<EvidenceView>,
    subst: Map<u32, TyView>,
    depth: nat,
)
    ensures
        lawful(module, state, evaluation(module, state, kind, values, evidence, subst, depth).0),
    decreases MAX_CALL_DEPTH - depth, 1nat, 0nat, 0nat, 0nat,
{
    rearranging_is_lawful(module, state, state);
    match kind {
        ValueKind::Call(item, type_args, args, call_evidence) => {
            match call_target(
                module,
                values,
                evidence,
                subst,
                item,
                ty_views(type_args@),
                args@,
                evidence_views(call_evidence@),
                "call to a function not present in this module"@,
            ) {
                Ok(call) => calling_is_lawful(module, state, call, depth),
                Err(_) => {},
            }
        },
        ValueKind::ProtocolCall { protocol, arguments, method, evidence: entry, args } => {
            match protocol_target(
                module,
                values,
                evidence,
                subst,
                ty_views(arguments@),
                method,
                entry@,
                args@,
            ) {
                Ok(call) => calling_is_lawful(module, state, call, depth),
                Err(_) => {},
            }
        },
        _ => {
            computing_is_lawful(module, state, kind, values, subst);
        },
    }
}

/// Calling a function from outside is lawful, by name and by
/// declaration.
pub proof fn running_is_lawful(
    module: Module,
    state: StateView,
    names: Seq<Seq<char>>,
    name: Seq<char>,
    item: ItemId,
    args: Seq<ValueView>,
    depth: nat,
)
    ensures
        lawful(module, state, call_by_name(module, state, names, name, args, depth).0),
        lawful(module, state, call_by_item(module, state, item, args, depth).0),
{
    rearranging_is_lawful(module, state, state);
    if let Some(function) = crate::entry::function_called(module.functions@, names, name, 0) {
        calling_is_lawful(
            module,
            state,
            CallView {
                callee: function,
                type_args: Seq::<TyView>::empty(),
                args,
                evidence: Seq::<EvidenceView>::empty(),
            },
            depth,
        );
    }
    if let Some(function) = crate::eval::find_function(module.functions@, item, 0) {
        calling_is_lawful(
            module,
            state,
            CallView {
                callee: function,
                type_args: Seq::<TyView>::empty(),
                args,
                evidence: Seq::<EvidenceView>::empty(),
            },
            depth,
        );
    }
}

} // verus!
