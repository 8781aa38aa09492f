use crate::ids::ResourceId;
use crate::ownership::{plan_inner, plan_inner_from, plan_resource, transferred, PlanView};
use crate::program::{Module, MAX_GENERIC_DEPTH};
use crate::table::{next_generation, RecordView, TableView};
use crate::value::{ErrorView, ResourceHandle, ValueView};
use vstd::prelude::*;

verus! {

/// Whether a value carries `handle` inline, at any depth.
pub open spec fn has_handle(value: ValueView, handle: ResourceHandle) -> bool
    decreases value,
{
    match value {
        ValueView::Resource(found) => found == handle,
        ValueView::Record { fields, .. } => exists|i: int|
            0 <= i < fields.len() && has_handle(#[trigger] fields[i], handle),
        ValueView::Variant { payload, .. } => exists|i: int|
            0 <= i < payload.len() && has_handle(#[trigger] payload[i], handle),
        _ => false,
    }
}

/// Whether a value carries a handle of the resource numbered `id`
/// inline, at any depth.
pub open spec fn carries(value: ValueView, id: u32) -> bool
    decreases value,
{
    match value {
        ValueView::Resource(handle) => handle.id.0 == id,
        ValueView::Record { fields, .. } => exists|i: int|
            0 <= i < fields.len() && carries(#[trigger] fields[i], id),
        ValueView::Variant { payload, .. } => exists|i: int|
            0 <= i < payload.len() && carries(#[trigger] payload[i], id),
        _ => false,
    }
}

/// A value that carries a handle carries that handle's resource.
pub proof fn handle_is_carried(value: ValueView, handle: ResourceHandle)
    requires
        has_handle(value, handle),
    ensures
        carries(value, handle.id.0),
    decreases value,
{
    match value {
        ValueView::Record { fields, .. } => {
            let i = choose|i: int|
                0 <= i < fields.len() && has_handle(#[trigger] fields[i], handle);
            handle_is_carried(fields[i], handle);
        },
        ValueView::Variant { payload, .. } => {
            let i = choose|i: int|
                0 <= i < payload.len() && has_handle(#[trigger] payload[i], handle);
            handle_is_carried(payload[i], handle);
        },
        _ => {},
    }
}

/// Whether a transition of `plan` moves the resource numbered `id`.
pub open spec fn moves(plan: PlanView, id: u32) -> bool {
    exists|k: int| 0 <= k < plan.transitions.len() && (#[trigger] plan.transitions[k]).0.0 == id
}

/// Whether a plan moves resources of `table` only, each at most once and
/// to its next generation, and knows all it moves as reached.
pub open spec fn sound_plan(table: TableView, plan: PlanView) -> bool {
    &&& forall|k: int|
        0 <= k < plan.transitions.len() ==> {
            let (id, generation) = #[trigger] plan.transitions[k];
            &&& id.0 < table.records.len()
            &&& generation == next_generation(table.records[id.0 as int].generation)
            &&& plan.reachable.contains(id.0)
        }
    &&& forall|k: int, l: int|
        0 <= k < l < plan.transitions.len() ==> (#[trigger] plan.transitions[k]).0
            != (#[trigger] plan.transitions[l]).0
}

/// Whether `handle` is what the owner of a resource of `table` holds once
/// it was moved.
pub open spec fn moved_handle(table: TableView, handle: ResourceHandle) -> bool {
    &&& handle.role is Owner
    &&& handle.lease is None
    &&& handle.id.0 < table.records.len()
    &&& table.records[handle.id.0 as int].status is Alive
    &&& handle.generation == next_generation(table.records[handle.id.0 as int].generation)
}

/// What planning a value's move did to a plan: the plan stays sound, and
/// grew by exactly what the value carries, none of which it had reached.
pub open spec fn planned(
    table: TableView,
    value: ValueView,
    plan: PlanView,
    plan1: PlanView,
    moved: ValueView,
) -> bool {
    &&& sound_plan(table, plan1)
    &&& plan.reachable.subset_of(plan1.reachable)
    &&& forall|id: u32| #[trigger]
        carries(value, id) ==> !plan.reachable.contains(id) && plan1.reachable.contains(id)
    &&& forall|id: u32| #[trigger] moves(plan1, id) <==> moves(plan, id) || carries(value, id)
    &&& forall|handle: ResourceHandle| #[trigger]
        has_handle(value, handle) ==> handle.role is Owner && table.observe(handle) is Ok
    &&& forall|handle: ResourceHandle| #[trigger]
        has_handle(moved, handle) ==> moved_handle(table, handle) && carries(
            value,
            handle.id.0,
        )
    &&& forall|id: u32| #[trigger] carries(moved, id) <==> carries(value, id)
}

/// Collecting what is owned forgets nothing.
pub proof fn owning_grows(table: TableView, value: ValueView, owned: Set<u32>, depth: nat)
    ensures
        owned.subset_of(table.own(value, owned, depth).0),
    decreases MAX_GENERIC_DEPTH - depth, 0nat,
{
    if depth < MAX_GENERIC_DEPTH {
        match value {
            ValueView::Resource(handle) => {
                if !owned.contains(handle.id.0) && table.record(handle) is Ok {
                    let record = table.record(handle)->Ok_0;
                    owning_all_grows(
                        table,
                        record.fields,
                        0,
                        owned.insert(handle.id.0),
                        depth + 1,
                    );
                }
            },
            ValueView::Record { fields, .. } => owning_all_grows(
                table,
                fields,
                0,
                owned,
                depth + 1,
            ),
            ValueView::Variant { payload, .. } => owning_all_grows(
                table,
                payload,
                0,
                owned,
                depth + 1,
            ),
            _ => {},
        }
    }
}

/// Collecting what is owned forgets nothing.
pub proof fn owning_all_grows(
    table: TableView,
    values: Seq<ValueView>,
    i: nat,
    owned: Set<u32>,
    depth: nat,
)
    ensures
        owned.subset_of(table.own_from(values, i, owned, depth).0),
    decreases MAX_GENERIC_DEPTH - depth, 1 + values.len() - i,
{
    if i < values.len() {
        let (owned1, r) = table.own(values[i as int], owned, depth);
        if depth < MAX_GENERIC_DEPTH {
            owning_grows(table, values[i as int], owned, depth);
        }
        if r is Ok {
            owning_all_grows(table, values, i + 1, owned1, depth);
        }
    }
}

/// Collecting what moves along with a resource forgets nothing.
proof fn claiming_grows(table: TableView, value: ValueView, owned: Set<u32>, depth: nat)
    ensures
        owned.subset_of(table.own_alive(value, owned, depth).0),
    decreases MAX_GENERIC_DEPTH - depth, 0nat,
{
    if depth < MAX_GENERIC_DEPTH {
        match value {
            ValueView::Resource(handle) => {
                if !owned.contains(handle.id.0) && table.record(handle) is Ok {
                    let record = table.record(handle)->Ok_0;
                    claiming_all_grows(
                        table,
                        record.fields,
                        0,
                        owned.insert(handle.id.0),
                        depth + 1,
                    );
                }
            },
            ValueView::Record { fields, .. } => claiming_all_grows(
                table,
                fields,
                0,
                owned,
                depth + 1,
            ),
            ValueView::Variant { payload, .. } => claiming_all_grows(
                table,
                payload,
                0,
                owned,
                depth + 1,
            ),
            _ => {},
        }
    }
}

/// Collecting what moves along with a resource forgets nothing.
proof fn claiming_all_grows(
    table: TableView,
    values: Seq<ValueView>,
    i: nat,
    owned: Set<u32>,
    depth: nat,
)
    ensures
        owned.subset_of(table.own_alive_from(values, i, owned, depth).0),
    decreases MAX_GENERIC_DEPTH - depth, 1 + values.len() - i,
{
    if i < values.len() {
        let (owned1, r) = table.own_alive(values[i as int], owned, depth);
        if depth < MAX_GENERIC_DEPTH {
            claiming_grows(table, values[i as int], owned, depth);
        }
        if r is Ok {
            claiming_all_grows(table, values, i + 1, owned1, depth);
        }
    }
}

proof fn planning_a_resource(table: TableView, handle: ResourceHandle, plan: PlanView)
    requires
        sound_plan(table, plan),
    ensures
        sound_plan(table, plan_resource(table, handle, plan).0),
        plan_resource(table, handle, plan).1 matches Ok(moved) ==> planned(
            table,
            ValueView::Resource(handle),
            plan,
            plan_resource(table, handle, plan).0,
            moved,
        ),
{
    let (plan1, r) = plan_resource(table, handle, plan);
    if plan1 != plan {
        let record = table.record(handle)->Ok_0;
        let reached = plan.reachable.insert(handle.id.0);
        claiming_all_grows(table, record.fields, 0, reached, 1);
        assert(plan1.reachable.contains(handle.id.0)) by {
            assert(reached.contains(handle.id.0));
        }
        let n = plan.transitions.len();
        assert(forall|k: int| 0 <= k < n ==> plan1.transitions[k] == plan.transitions[k]);
        assert(plan1.transitions[n as int].0 == handle.id);
        if r is Ok {
            let value = ValueView::Resource(handle);
            assert forall|id: u32| #[trigger]
                moves(plan1, id) <==> moves(plan, id) || carries(value, id) by {
                if moves(plan, id) {
                    let k = choose|k: int|
                        0 <= k < plan.transitions.len() && (#[trigger] plan.transitions[k]).0.0
                            == id;
                    assert(plan1.transitions[k].0.0 == id);
                }
                if moves(plan1, id) {
                    let k = choose|k: int|
                        0 <= k < plan1.transitions.len() && (#[trigger] plan1.transitions[k]).0.0
                            == id;
                    if k < n {
                        assert(plan.transitions[k].0.0 == id);
                    }
                }
            }
        }
    }
}

/// Planning the move of a value leaves the plan sound; where it
/// succeeds, the plan grew by exactly what the value carries inline, all
/// of which was owned and live, and none of which the plan had reached.
pub proof fn planning_moves_what_is_carried(
    module: Module,
    table: TableView,
    value: ValueView,
    plan: PlanView,
    depth: nat,
)
    requires
        sound_plan(table, plan),
    ensures
        sound_plan(table, plan_inner(module, table, value, plan, depth).0),
        plan_inner(module, table, value, plan, depth).1 matches Ok(moved) ==> planned(
            table,
            value,
            plan,
            plan_inner(module, table, value, plan, depth).0,
            moved,
        ),
    decreases MAX_GENERIC_DEPTH - depth, 0nat,
{
    if depth < MAX_GENERIC_DEPTH {
        match value {
            ValueView::Resource(handle) => planning_a_resource(table, handle, plan),
            ValueView::Record { fields, .. } => {
                planning_moves_all_carried(
                    module,
                    table,
                    fields,
                    0,
                    Seq::empty(),
                    plan,
                    plan,
                    depth + 1,
                );
                let (plan1, r) = plan_inner(module, table, value, plan, depth);
                if r is Ok {
                    planned_as_a_whole(table, value, fields, plan, plan1, r->Ok_0);
                }
            },
            ValueView::Variant { payload, .. } => {
                planning_moves_all_carried(
                    module,
                    table,
                    payload,
                    0,
                    Seq::empty(),
                    plan,
                    plan,
                    depth + 1,
                );
                let (plan1, r) = plan_inner(module, table, value, plan, depth);
                if r is Ok {
                    planned_as_a_whole(table, value, payload, plan, plan1, r->Ok_0);
                }
            },
            _ => {},
        }
    }
}

/// The values an aggregate holds.
pub open spec fn children(value: ValueView) -> Seq<ValueView> {
    match value {
        ValueView::Record { fields, .. } => fields,
        ValueView::Variant { payload, .. } => payload,
        _ => Seq::empty(),
    }
}

proof fn planned_as_a_whole(
    table: TableView,
    value: ValueView,
    values: Seq<ValueView>,
    plan: PlanView,
    plan1: PlanView,
    moved: ValueView,
)
    requires
        value is Record || value is Variant,
        moved is Record || moved is Variant,
        children(value) == values,
        planned_before(table, values, values.len(), plan, plan1, children(moved)),
    ensures
        planned(table, value, plan, plan1, moved),
{
    let rebuilt = children(moved);
    assert forall|id: u32| #[trigger] carries(value, id) <==> exists|j: int|
        0 <= j < values.len() && #[trigger] carries(values[j], id) by {
        if carries(value, id) {
            let j = choose|j: int| 0 <= j < values.len() && carries(#[trigger] values[j], id);
            assert(carries(values[j], id));
        }
        if exists|j: int| 0 <= j < values.len() && #[trigger] carries(values[j], id) {
            let j = choose|j: int| 0 <= j < values.len() && #[trigger] carries(values[j], id);
            assert(carries(values[j], id));
        }
    }
    assert forall|id: u32| #[trigger] carries(moved, id) <==> carries(value, id) by {
        if carries(moved, id) {
            let j = choose|j: int| 0 <= j < rebuilt.len() && carries(#[trigger] rebuilt[j], id);
            assert(carries(rebuilt[j], id));
            assert(carries(values[j], id));
        }
        if carries(value, id) {
            let j = choose|j: int| 0 <= j < values.len() && #[trigger] carries(values[j], id);
            assert(carries(rebuilt[j], id));
        }
    }
    assert forall|handle: ResourceHandle| #[trigger]
        has_handle(value, handle) implies handle.role is Owner && table.observe(
        handle,
    ) is Ok by {
        let j = choose|j: int| 0 <= j < values.len() && has_handle(#[trigger] values[j], handle);
        assert(has_handle(values[j], handle));
    }
    assert forall|handle: ResourceHandle| #[trigger]
        has_handle(moved, handle) implies moved_handle(table, handle) && carries(
        value,
        handle.id.0,
    ) by {
        let j = choose|j: int| 0 <= j < rebuilt.len() && has_handle(#[trigger] rebuilt[j], handle);
        assert(has_handle(rebuilt[j], handle));
        assert(carries(values[j], handle.id.0));
    }
}

/// Whether planning the values before position `i` took `plan` to
/// `plan1` and gave `done`.
pub open spec fn planned_before(
    table: TableView,
    values: Seq<ValueView>,
    i: nat,
    plan: PlanView,
    plan1: PlanView,
    done: Seq<ValueView>,
) -> bool {
    &&& i <= values.len()
    &&& done.len() == i
    &&& sound_plan(table, plan1)
    &&& plan.reachable.subset_of(plan1.reachable)
    &&& forall|j: int, id: u32|
        0 <= j < i && #[trigger] carries(values[j], id) ==> !plan.reachable.contains(id)
            && plan1.reachable.contains(id)
    &&& forall|id: u32| #[trigger]
        moves(plan1, id) <==> moves(plan, id) || exists|j: int|
            0 <= j < i && #[trigger] carries(values[j], id)
    &&& forall|j: int, handle: ResourceHandle|
        0 <= j < i && #[trigger] has_handle(values[j], handle) ==> handle.role is Owner
            && table.observe(handle) is Ok
    &&& forall|j: int, handle: ResourceHandle|
        0 <= j < i && #[trigger] has_handle(done[j], handle) ==> moved_handle(table, handle)
            && carries(values[j], handle.id.0)
    &&& forall|j: int, id: u32|
        0 <= j < i ==> (#[trigger] carries(done[j], id) <==> carries(values[j], id))
}

proof fn planning_one_more(
    table: TableView,
    values: Seq<ValueView>,
    i: nat,
    done: Seq<ValueView>,
    first: PlanView,
    plan: PlanView,
    plan1: PlanView,
    moved: ValueView,
)
    requires
        i < values.len(),
        planned_before(table, values, i, first, plan, done),
        planned(table, values[i as int], plan, plan1, moved),
    ensures
        planned_before(table, values, i + 1, first, plan1, done.push(moved)),
{
    let value = values[i as int];
    let done1 = done.push(moved);
    assert forall|j: int, id: u32|
        0 <= j < i + 1 && #[trigger] carries(values[j], id) implies !first.reachable.contains(
    id) && plan1.reachable.contains(id) by {
        if j == i {
            assert(carries(value, id));
        }
    }
    assert forall|id: u32| #[trigger]
        moves(plan1, id) <==> moves(first, id) || exists|j: int|
            0 <= j < i + 1 && #[trigger] carries(values[j], id) by {
        assert(moves(plan1, id) <==> moves(plan, id) || carries(value, id));
        if carries(value, id) {
            assert(carries(values[i as int], id));
        }
    }
    assert forall|j: int, handle: ResourceHandle|
        0 <= j < i + 1 && #[trigger] has_handle(done1[j], handle) implies moved_handle(
        table,
        handle,
    ) && carries(values[j], handle.id.0) by {
        if j < i {
            assert(done1[j] == done[j]);
        }
    }
    assert forall|j: int, id: u32| 0 <= j < i + 1 implies (#[trigger] carries(
        done1[j],
        id,
    ) <==> carries(values[j], id)) by {
        if j < i {
            assert(done1[j] == done[j]);
        }
    }
}

proof fn planning_moves_all_carried(
    module: Module,
    table: TableView,
    values: Seq<ValueView>,
    i: nat,
    done: Seq<ValueView>,
    first: PlanView,
    plan: PlanView,
    depth: nat,
)
    requires
        planned_before(table, values, i, first, plan, done),
    ensures
        sound_plan(table, plan_inner_from(module, table, values, i, done, plan, depth).0),
        plan_inner_from(module, table, values, i, done, plan, depth).1 matches Ok(moved) ==> planned_before(
            table,
            values,
            values.len(),
            first,
            plan_inner_from(module, table, values, i, done, plan, depth).0,
            moved,
        ),
    decreases MAX_GENERIC_DEPTH - depth, 1 + values.len() - i,
{
    if i < values.len() {
        let value = values[i as int];
        let (plan1, r) = plan_inner(module, table, value, plan, depth);
        if depth < MAX_GENERIC_DEPTH {
            planning_moves_what_is_carried(module, table, value, plan, depth);
        }
        if r is Ok {
            let moved = r->Ok_0;
            let done1 = done.push(moved);
            planning_one_more(table, values, i, done, first, plan, plan1, moved);
            planning_moves_all_carried(
                module,
                table,
                values,
                i + 1,
                done1,
                first,
                plan1,
                depth,
            );
        }
    }
}

/// What applying the transitions from position `i` on does to a table:
/// each named resource moves to its generation, and nothing else
/// changes.
proof fn advancing(table: TableView, transitions: Seq<(ResourceId, u64)>, i: nat)
    requires
        forall|k: int|
            0 <= k < transitions.len() ==> (#[trigger] transitions[k]).0.0 < table.records.len(),
        forall|k: int, l: int|
            0 <= k < l < transitions.len() ==> (#[trigger] transitions[k]).0
                != (#[trigger] transitions[l]).0,
    ensures
        table.advanced(transitions, i).leases == table.leases,
        table.advanced(transitions, i).records.len() == table.records.len(),
        forall|k: int|
            i <= k < transitions.len() ==> {
                let (id, generation) = #[trigger] transitions[k];
                table.advanced(transitions, i).records[id.0 as int] == (RecordView {
                    generation,
                    ..table.records[id.0 as int]
                })
            },
        forall|id: int|
            0 <= id < table.records.len() && (forall|k: int|
                i <= k < transitions.len() ==> (#[trigger] transitions[k]).0.0 != id)
                ==> #[trigger] table.advanced(transitions, i).records[id] == table.records[id],
    decreases transitions.len() - i,
{
    if i < transitions.len() {
        let (id, generation) = transitions[i as int];
        let record = RecordView { generation, ..table.records[id.0 as int] };
        let table1 = table.with_record(id, record);
        advancing(table1, transitions, i + 1);
        assert forall|k: int| i <= k < transitions.len() implies {
            let (other, g) = #[trigger] transitions[k];
            table.advanced(transitions, i).records[other.0 as int] == (RecordView {
                generation: g,
                ..table.records[other.0 as int]
            })
        } by {
            if k == i {
                assert forall|l: int| i + 1 <= l < transitions.len() implies (
                #[trigger] transitions[l]).0.0 != id.0 by {
                    assert(transitions[i as int].0 != transitions[l].0);
                }
            } else {
                assert(transitions[i as int].0 != transitions[k].0);
            }
        }
        assert forall|other: int|
            0 <= other < table.records.len() && (forall|k: int|
                i <= k < transitions.len() ==> (#[trigger] transitions[k]).0.0
                    != other) implies #[trigger] table.advanced(transitions, i).records[other]
            == table.records[other] by {
            assert(transitions[i as int].0.0 != other);
        }
    }
}

/// What a sound plan does to the table once it is carried out: the
/// generation of each resource it moves rises by one, once, and nothing
/// else changes. In particular, what a moved resource owns in turn keeps
/// its generation.
pub proof fn carrying_out_a_sound_plan(table: TableView, plan: PlanView)
    requires
        sound_plan(table, plan),
    ensures
        table.advanced(plan.transitions, 0).leases == table.leases,
        table.advanced(plan.transitions, 0).records.len() == table.records.len(),
        forall|id: u32|
            (id as int) < table.records.len() ==> #[trigger] table.advanced(
                plan.transitions,
                0,
            ).records[id as int] == if moves(plan, id) {
                RecordView {
                    generation: next_generation(table.records[id as int].generation),
                    ..table.records[id as int]
                }
            } else {
                table.records[id as int]
            },
{
    advancing(table, plan.transitions, 0);
    let table1 = table.advanced(plan.transitions, 0);
    assert forall|id: u32|
        (id as int) < table.records.len() implies #[trigger] table1.records[id as int]
        == if moves(plan, id) {
        RecordView {
            generation: next_generation(table.records[id as int].generation),
            ..table.records[id as int]
        }
    } else {
        table.records[id as int]
    } by {
        if moves(plan, id) {
            let k = choose|k: int|
                0 <= k < plan.transitions.len() && (#[trigger] plan.transitions[k]).0.0 == id;
            assert(plan.transitions[k].0.0 == id);
        }
    }
}

/// Moving a value raises the generation of exactly the resources it
/// carries inline, by one, and changes nothing else. Every handle the
/// value carried was its owner's and is stale afterwards; every handle of
/// the moved value owns and works. The moved value carries the same
/// resources.
pub proof fn transfer_moves_exactly_what_is_carried(
    module: Module,
    table: TableView,
    value: ValueView,
    table1: TableView,
    moved: ValueView,
)
    requires
        transferred(module, table, value) == Ok::<(TableView, ValueView), ErrorView>(
            (table1, moved),
        ),
    ensures
        table1.leases == table.leases,
        table1.records.len() == table.records.len(),
        forall|id: u32|
            (id as int) < table.records.len() ==> #[trigger] table1.records[id as int]
                == if carries(value, id) {
                RecordView {
                    generation: next_generation(table.records[id as int].generation),
                    ..table.records[id as int]
                }
            } else {
                table.records[id as int]
            },
        forall|handle: ResourceHandle| #[trigger]
            has_handle(value, handle) ==> handle.role is Owner && table.observe(handle) is Ok
                && table1.record(handle) is Err,
        forall|handle: ResourceHandle| #[trigger]
            has_handle(moved, handle) ==> handle.role is Owner && table1.observe(handle) is Ok,
        forall|id: u32| #[trigger] carries(moved, id) <==> carries(value, id),
{
    let (plan, r) = plan_inner(module, table, value, PlanView::empty(), 0);
    assert(sound_plan(table, PlanView::empty()));
    planning_moves_what_is_carried(module, table, value, PlanView::empty(), 0);
    carrying_out_a_sound_plan(table, plan);
    assert forall|id: u32| moves(plan, id) <==> #[trigger] carries(value, id) by {
        assert(!moves(PlanView::empty(), id));
    }
    assert forall|id: u32|
        (id as int) < table.records.len() implies #[trigger] table1.records[id as int]
        == if carries(value, id) {
        RecordView {
            generation: next_generation(table.records[id as int].generation),
            ..table.records[id as int]
        }
    } else {
        table.records[id as int]
    } by {
        assert(moves(plan, id) <==> carries(value, id));
    }
    assert forall|handle: ResourceHandle| #[trigger] has_handle(value, handle) implies table1.record(
        handle,
    ) is Err by {
        handle_is_carried(value, handle);
        assert(table.observe(handle) is Ok);
        assert(table1.records[handle.id.0 as int].generation != handle.generation);
    }
    assert forall|handle: ResourceHandle| #[trigger] has_handle(moved, handle) implies table1.observe(
        handle,
    ) is Ok by {
        assert(moved_handle(table, handle));
        assert(carries(value, handle.id.0));
        assert(table1.records[handle.id.0 as int].generation == handle.generation);
    }
}

/// No resource moves twice in one operation: once a plan moves a value
/// that carries a resource, moving another value that carries it is
/// refused.
pub proof fn no_resource_moves_twice(
    module: Module,
    table: TableView,
    first: ValueView,
    second: ValueView,
    plan: PlanView,
    depth: nat,
    id: u32,
)
    requires
        sound_plan(table, plan),
        plan_inner(module, table, first, plan, depth).1 is Ok,
        carries(first, id),
        carries(second, id),
    ensures
        plan_inner(
            module,
            table,
            second,
            plan_inner(module, table, first, plan, depth).0,
            depth,
        ).1 is Err,
{
    let plan1 = plan_inner(module, table, first, plan, depth).0;
    planning_moves_what_is_carried(module, table, first, plan, depth);
    planning_moves_what_is_carried(module, table, second, plan1, depth);
    assert(plan1.reachable.contains(id));
}

/// A value that carries one resource in two places cannot be moved.
pub proof fn duplicated_resource_is_refused(
    module: Module,
    table: TableView,
    value: ValueView,
    i: int,
    j: int,
    id: u32,
)
    requires
        value is Record || value is Variant,
        0 <= i < j < children(value).len(),
        carries(children(value)[i], id),
        carries(children(value)[j], id),
    ensures
        transferred(module, table, value) is Err,
{
    let (plan, r) = plan_inner(module, table, value, PlanView::empty(), 0);
    if r is Ok {
        let values = children(value);
        let start = PlanView::empty();
        assert(sound_plan(table, start));
        assert(planned_before(table, values, 0, start, start, Seq::empty()));
        repeated_child_is_refused(module, table, values, 0, Seq::empty(), start, start, 1, i, j, id);
    }
}

proof fn repeated_child_is_refused(
    module: Module,
    table: TableView,
    values: Seq<ValueView>,
    n: nat,
    done: Seq<ValueView>,
    first: PlanView,
    plan: PlanView,
    depth: nat,
    i: int,
    j: int,
    id: u32,
)
    requires
        planned_before(table, values, n, first, plan, done),
        0 <= i < j < values.len(),
        n <= j,
        carries(values[i], id),
        carries(values[j], id),
    ensures
        plan_inner_from(module, table, values, n, done, plan, depth).1 is Err,
    decreases values.len() - n,
{
    let value = values[n as int];
    let (plan1, r) = plan_inner(module, table, value, plan, depth);
    planning_moves_what_is_carried(module, table, value, plan, depth);
    if r is Ok {
        if n == j {
            assert(plan.reachable.contains(id));
            assert(carries(value, id));
        } else {
            planning_one_more(table, values, n, done, first, plan, plan1, r->Ok_0);
            repeated_child_is_refused(
                module,
                table,
                values,
                n + 1,
                done.push(r->Ok_0),
                first,
                plan1,
                depth,
                i,
                j,
                id,
            );
        }
    }
}

// ---------------------------------------------------------------------
// What a plan reaches.
// ---------------------------------------------------------------------

/// Whether every handle that `value` reaches within `hops` steps from a
/// resource into its own fields is its current owner's, and its resource
/// alive.
pub open spec fn live_throughout(table: TableView, value: ValueView, hops: nat) -> bool
    decreases hops,
{
    forall|handle: ResourceHandle| #[trigger]
        has_handle(value, handle) ==> {
            &&& handle.role is Owner
            &&& table.observe(handle) is Ok
            &&& hops > 0 ==> forall|k: int|
                0 <= k < table.records[handle.id.0 as int].fields.len() ==> live_throughout(
                    table,
                    #[trigger] table.records[handle.id.0 as int].fields[k],
                    (hops - 1) as nat,
                )
        }
}

/// Whether every resource in `reached` but not in `before` is alive.
pub open spec fn live_beyond(table: TableView, before: Set<u32>, reached: Set<u32>) -> bool {
    forall|id: u32| #[trigger]
        reached.contains(id) && !before.contains(id) ==> id < table.records.len()
            && table.records[id as int].status is Alive
}

proof fn live_as_a_whole(table: TableView, value: ValueView, hops: nat)
    requires
        value is Record || value is Variant,
        forall|k: int|
            0 <= k < children(value).len() ==> live_throughout(
                table,
                #[trigger] children(value)[k],
                hops,
            ),
    ensures
        live_throughout(table, value, hops),
{
    let values = children(value);
    assert forall|handle: ResourceHandle| #[trigger] has_handle(value, handle) implies {
        &&& handle.role is Owner
        &&& table.observe(handle) is Ok
        &&& hops > 0 ==> forall|k: int|
            0 <= k < table.records[handle.id.0 as int].fields.len() ==> live_throughout(
                table,
                #[trigger] table.records[handle.id.0 as int].fields[k],
                (hops - 1) as nat,
            )
    } by {
        let j = choose|j: int| 0 <= j < values.len() && has_handle(#[trigger] values[j], handle);
        assert(live_throughout(table, values[j], hops));
    }
}

proof fn claiming_finds_all_alive(
    table: TableView,
    value: ValueView,
    owned: Set<u32>,
    depth: nat,
    hops: nat,
)
    requires
        table.own_alive(value, owned, depth).1 is Ok,
    ensures
        live_throughout(table, value, hops),
        live_beyond(table, owned, table.own_alive(value, owned, depth).0),
    decreases MAX_GENERIC_DEPTH - depth, 0nat,
{
    match value {
        ValueView::Resource(handle) => {
            let record = table.record(handle)->Ok_0;
            let more = owned.insert(handle.id.0);
            let nearer = if hops > 0 {
                (hops - 1) as nat
            } else {
                0
            };
            claiming_finds_each_alive(table, record.fields, 0, more, depth + 1, nearer);
        },
        ValueView::Record { fields, .. } => {
            claiming_finds_each_alive(table, fields, 0, owned, depth + 1, hops);
            live_as_a_whole(table, value, hops);
        },
        ValueView::Variant { payload, .. } => {
            claiming_finds_each_alive(table, payload, 0, owned, depth + 1, hops);
            live_as_a_whole(table, value, hops);
        },
        _ => {},
    }
}

proof fn claiming_finds_each_alive(
    table: TableView,
    values: Seq<ValueView>,
    i: nat,
    owned: Set<u32>,
    depth: nat,
    hops: nat,
)
    requires
        table.own_alive_from(values, i, owned, depth).1 is Ok,
    ensures
        forall|k: int|
            i <= k < values.len() ==> live_throughout(table, #[trigger] values[k], hops),
        live_beyond(table, owned, table.own_alive_from(values, i, owned, depth).0),
    decreases MAX_GENERIC_DEPTH - depth, 1 + values.len() - i,
{
    if i < values.len() {
        let (owned1, _) = table.own_alive(values[i as int], owned, depth);
        claiming_finds_all_alive(table, values[i as int], owned, depth, hops);
        claiming_finds_each_alive(table, values, i + 1, owned1, depth, hops);
    }
}

/// A plan that succeeds reaches only what is there to be moved: every
/// handle of the value, and every handle that lies in a resource the
/// value owns, however deeply, is the current owner's of a live resource;
/// and every resource the plan came to know is alive.
pub proof fn planned_graph_is_alive(
    module: Module,
    table: TableView,
    value: ValueView,
    plan: PlanView,
    depth: nat,
    hops: nat,
)
    requires
        plan_inner(module, table, value, plan, depth).1 is Ok,
    ensures
        live_throughout(table, value, hops),
        live_beyond(
            table,
            plan.reachable,
            plan_inner(module, table, value, plan, depth).0.reachable,
        ),
    decreases MAX_GENERIC_DEPTH - depth, 0nat,
{
    match value {
        ValueView::Resource(handle) => {
            let record = table.record(handle)->Ok_0;
            let more = plan.reachable.insert(handle.id.0);
            let nearer = if hops > 0 {
                (hops - 1) as nat
            } else {
                0
            };
            claiming_finds_each_alive(table, record.fields, 0, more, 1, nearer);
        },
        ValueView::Record { fields, .. } => {
            planned_graphs_are_alive(
                module,
                table,
                fields,
                0,
                Seq::empty(),
                plan,
                depth + 1,
                hops,
            );
            live_as_a_whole(table, value, hops);
        },
        ValueView::Variant { payload, .. } => {
            planned_graphs_are_alive(
                module,
                table,
                payload,
                0,
                Seq::empty(),
                plan,
                depth + 1,
                hops,
            );
            live_as_a_whole(table, value, hops);
        },
        _ => {},
    }
}

proof fn planned_graphs_are_alive(
    module: Module,
    table: TableView,
    values: Seq<ValueView>,
    i: nat,
    done: Seq<ValueView>,
    plan: PlanView,
    depth: nat,
    hops: nat,
)
    requires
        plan_inner_from(module, table, values, i, done, plan, depth).1 is Ok,
    ensures
        forall|k: int|
            i <= k < values.len() ==> live_throughout(table, #[trigger] values[k], hops),
        live_beyond(
            table,
            plan.reachable,
            plan_inner_from(module, table, values, i, done, plan, depth).0.reachable,
        ),
    decreases MAX_GENERIC_DEPTH - depth, 1 + values.len() - i,
{
    if i < values.len() {
        let (plan1, r) = plan_inner(module, table, values[i as int], plan, depth);
        planned_graph_is_alive(module, table, values[i as int], plan, depth, hops);
        planned_graphs_are_alive(
            module,
            table,
            values,
            i + 1,
            done.push(r->Ok_0),
            plan1,
            depth,
            hops,
        );
    }
}

/// A value from which a dropped resource or a merely observing handle is
/// reached, however deeply, cannot be moved.
pub proof fn dead_graph_is_refused(
    module: Module,
    table: TableView,
    value: ValueView,
    plan: PlanView,
    depth: nat,
    hops: nat,
)
    requires
        !live_throughout(table, value, hops),
    ensures
        plan_inner(module, table, value, plan, depth).1 is Err,
        transferred(module, table, value) is Err,
{
    if plan_inner(module, table, value, plan, depth).1 is Ok {
        planned_graph_is_alive(module, table, value, plan, depth, hops);
    }
    if transferred(module, table, value) is Ok {
        planned_graph_is_alive(module, table, value, PlanView::empty(), 0, hops);
    }
}

} // verus!
