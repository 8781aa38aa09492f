use crate::eval::{filled, plan_values, read_values, record_created, type_args_in};
use crate::ids::{ItemId, ValueId};
use crate::laws::transfer::{
    carries, carrying_out_a_sound_plan, handle_is_carried, has_handle, moved_handle, moves, planned,
    planning_moves_what_is_carried, sound_plan,
};
use crate::ownership::{plan_transferring, PlanView};
use crate::program::Module;
use crate::table::{next_generation, RecordView, TableView};
use crate::types::TyView;
use crate::value::{ErrorView, ResourceHandle, ValueView};
use vstd::prelude::*;

verus! {

/// Whether one of the first `n` values carries the resource numbered
/// `id`.
pub open spec fn carried_in(values: Seq<ValueView>, n: int, id: u32) -> bool {
    exists|k: int| 0 <= k < n && carries(#[trigger] values[k], id)
}

/// Whether `plan` moves exactly what the first `n` values carry, and
/// `done` are those values as their new owner will hold them.
pub open spec fn moving_so_far(
    table: TableView,
    values: Seq<ValueView>,
    n: int,
    plan: PlanView,
    done: Seq<ValueView>,
) -> bool {
    &&& done.len() == n
    &&& sound_plan(table, plan)
    &&& forall|id: u32| #[trigger] moves(plan, id) <==> carried_in(values, n, id)
    &&& forall|id: u32| #[trigger] carried_in(values, n, id) ==> plan.reachable.contains(id)
    &&& forall|k: int, handle: ResourceHandle|
        0 <= k < n && #[trigger] has_handle(values[k], handle) ==> handle.role is Owner
            && table.observe(handle) is Ok
    &&& forall|k: int, handle: ResourceHandle|
        0 <= k < n && #[trigger] has_handle(done[k], handle) ==> moved_handle(table, handle)
            && carries(values[k], handle.id.0)
    &&& forall|k: int, id: u32|
        0 <= k < n ==> (#[trigger] carries(done[k], id) <==> carries(values[k], id))
}

proof fn carried_in_one_more(values: Seq<ValueView>, n: int, id: u32)
    requires
        0 <= n < values.len(),
    ensures
        carried_in(values, n + 1, id) <==> carried_in(values, n, id) || carries(values[n], id),
{
    if carried_in(values, n, id) {
        let k = choose|k: int| 0 <= k < n && carries(#[trigger] values[k], id);
        assert(carries(values[k], id));
    }
    if carried_in(values, n + 1, id) {
        let k = choose|k: int| 0 <= k < n + 1 && carries(#[trigger] values[k], id);
        if k < n {
            assert(carries(values[k], id));
        }
    }
}

proof fn moving_one_more(
    table: TableView,
    values: Seq<ValueView>,
    n: int,
    plan: PlanView,
    done: Seq<ValueView>,
    plan1: PlanView,
    moved: ValueView,
)
    requires
        0 <= n < values.len(),
        moving_so_far(table, values, n, plan, done),
        planned(table, values[n], plan, plan1, moved),
    ensures
        moving_so_far(table, values, n + 1, plan1, done.push(moved)),
{
    let next = done.push(moved);
    assert forall|id: u32| #[trigger] moves(plan1, id) <==> carried_in(values, n + 1, id) by {
        assert(moves(plan1, id) <==> moves(plan, id) || carries(values[n], id));
        carried_in_one_more(values, n, id);
    }
    assert forall|id: u32| #[trigger] carried_in(
        values,
        n + 1,
        id,
    ) implies plan1.reachable.contains(id) by {
        carried_in_one_more(values, n, id);
    }
    assert forall|k: int, handle: ResourceHandle|
        0 <= k < n + 1 && #[trigger] has_handle(next[k], handle) implies moved_handle(
        table,
        handle,
    ) && carries(values[k], handle.id.0) by {
        if k < n {
            assert(next[k] == done[k]);
            assert(has_handle(done[k], handle));
        }
    }
    assert forall|k: int, id: u32| 0 <= k < n + 1 implies (#[trigger] carries(next[k], id)
        <==> carries(values[k], id)) by {
        if k < n {
            assert(next[k] == done[k]);
            assert(carries(done[k], id) <==> carries(values[k], id));
        } else {
            assert(next[k] == moved);
            assert(carries(moved, id) <==> carries(values[n], id));
        }
    }
}

proof fn moving_the_rest(
    module: Module,
    table: TableView,
    values: Seq<ValueView>,
    i: nat,
    done: Seq<ValueView>,
    plan: PlanView,
)
    requires
        i <= values.len(),
        moving_so_far(table, values, i as int, plan, done),
    ensures
        plan_values(module, table, values, i, done, plan).1 matches Ok(fields) ==> moving_so_far(
            table,
            values,
            values.len() as int,
            plan_values(module, table, values, i, done, plan).0,
            fields,
        ),
    decreases values.len() - i,
{
    if i < values.len() {
        let (plan1, r) = plan_transferring(module, table, values[i as int], plan, 0);
        planning_moves_what_is_carried(module, table, values[i as int], plan, 0);
        if r is Ok {
            moving_one_more(table, values, i as int, plan, done, plan1, r->Ok_0);
            moving_the_rest(module, table, values, i + 1, done.push(r->Ok_0), plan1);
        }
    }
}

/// Filling the fields of a new aggregate moves exactly what the supplied
/// values carry: the generation of each such resource rises by one, so
/// every handle of the supplied values is stale, and nothing else
/// changes. Each field carries what its value carried, through handles
/// that own and work.
pub proof fn filling_moves_what_is_supplied(
    module: Module,
    table: TableView,
    frame: Map<u32, ValueView>,
    declared: Seq<TyView>,
    ids: Seq<ValueId>,
    miscounted: Seq<char>,
    table1: TableView,
    fields: Seq<ValueView>,
) -> (supplied: Seq<ValueView>)
    requires
        filled(module, table, frame, declared, ids, miscounted) == Ok::<
            (TableView, Seq<ValueView>),
            ErrorView,
        >((table1, fields)),
    ensures
        read_values(frame, ids) == Ok::<Seq<ValueView>, ErrorView>(supplied),
        fields.len() == supplied.len(),
        table1.leases == table.leases,
        table1.records.len() == table.records.len(),
        forall|id: u32|
            (id as int) < table.records.len() ==> #[trigger] table1.records[id as int]
                == if carried_in(supplied, supplied.len() as int, id) {
                RecordView {
                    generation: next_generation(table.records[id as int].generation),
                    ..table.records[id as int]
                }
            } else {
                table.records[id as int]
            },
        forall|k: int, handle: ResourceHandle|
            0 <= k < supplied.len() && #[trigger] has_handle(supplied[k], handle)
                ==> table1.record(handle) is Err,
        forall|k: int, handle: ResourceHandle|
            0 <= k < fields.len() && #[trigger] has_handle(fields[k], handle) ==> handle.role
                is Owner && table1.observe(handle) is Ok,
        forall|k: int, id: u32|
            0 <= k < fields.len() ==> (#[trigger] carries(fields[k], id) <==> carries(
                supplied[k],
                id,
            )),
{
    let supplied = read_values(frame, ids)->Ok_0;
    let n = supplied.len() as int;
    let start = PlanView::empty();
    assert(moving_so_far(table, supplied, 0, start, Seq::empty()));
    moving_the_rest(module, table, supplied, 0, Seq::empty(), start);
    let (plan, _) = plan_values(module, table, supplied, 0, Seq::empty(), start);
    carrying_out_a_sound_plan(table, plan);
    assert forall|id: u32|
        (id as int) < table.records.len() implies #[trigger] table1.records[id as int]
        == if carried_in(supplied, n, id) {
        RecordView {
            generation: next_generation(table.records[id as int].generation),
            ..table.records[id as int]
        }
    } else {
        table.records[id as int]
    } by {
        assert(moves(plan, id) <==> carried_in(supplied, n, id));
    }
    assert forall|k: int, handle: ResourceHandle|
        0 <= k < n && #[trigger] has_handle(supplied[k], handle) implies table1.record(handle)
        is Err by {
        handle_is_carried(supplied[k], handle);
        assert(carried_in(supplied, n, handle.id.0));
        assert(table.observe(handle) is Ok);
        assert(table1.records[handle.id.0 as int].generation != handle.generation);
    }
    assert forall|k: int, handle: ResourceHandle|
        0 <= k < n && #[trigger] has_handle(fields[k], handle) implies handle.role is Owner
        && table1.observe(handle) is Ok by {
        assert(moved_handle(table, handle));
        assert(carries(supplied[k], handle.id.0));
        assert(carried_in(supplied, n, handle.id.0));
        assert(table1.records[handle.id.0 as int].generation == handle.generation);
    }
    supplied
}

/// A constructed resource is new: no handle that worked before names it.
/// Its own handle owns it, and it is alive.
pub proof fn constructed_resource_is_new(
    module: Module,
    table: TableView,
    frame: Map<u32, ValueView>,
    subst: Map<u32, TyView>,
    item: ItemId,
    type_args: Seq<TyView>,
    field_ids: Seq<ValueId>,
    table1: TableView,
    handle: ResourceHandle,
    other: ResourceHandle,
)
    requires
        table.records.len() <= u32::MAX,
        record_created(module, table, frame, subst, item, type_args, field_ids) == Ok::<
            (TableView, ValueView),
            ErrorView,
        >((table1, ValueView::Resource(handle))),
    ensures
        module.resource(item),
        handle.role is Owner,
        table1.observe(handle) matches Ok(record) && record.item == item && record.status is Alive,
        table1.records.len() == table.records.len() + 1,
        table.record(other) is Ok ==> other.id != handle.id,
{
    let args = type_args_in(type_args, subst)->Ok_0;
    let declared = module.record_field_types(item, args)->Ok_0;
    let miscounted =
        "a runtime construction supplies a field count its declaration does not declare"@;
    let (between, fields) = filled(
        module,
        table,
        frame,
        declared,
        field_ids,
        miscounted,
    )->Ok_0;
    let supplied = filling_moves_what_is_supplied(
        module,
        table,
        frame,
        declared,
        field_ids,
        miscounted,
        between,
        fields,
    );
    assert(handle == between.next_handle());
    assert(handle.id.0 == table.records.len());
}

/// Moving one resource to a new owner stops every handle of the
/// generation it had, whoever holds it; the new owner's handle works.
pub proof fn transfer_stops_older_handles(
    table: TableView,
    handle: ResourceHandle,
    table1: TableView,
    owner: ResourceHandle,
    other: ResourceHandle,
)
    requires
        table.transfer(handle) == Ok::<(TableView, ResourceHandle), ErrorView>((table1, owner)),
        other.id == handle.id,
        other.generation == handle.generation,
    ensures
        table1.record(other) is Err,
        owner.id == handle.id,
        owner.role is Owner,
        table1.observe(owner) is Ok,
{
}

} // verus!
