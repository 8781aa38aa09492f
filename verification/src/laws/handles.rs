use crate::ids::{ResourceId, RuntimeObservationId};
use crate::laws::lease::held_by_an_active_lease;
use crate::table::TableView;
use crate::value::{ResourceHandle, ValueView};
use vstd::prelude::*;

verus! {

/// Whether a handle is current: the lease it was minted under, if any, is
/// active, its resource exists, and was not moved since.
pub open spec fn current(table: TableView, handle: ResourceHandle) -> bool {
    &&& handle.id.0 < table.records.len()
    &&& table.records[handle.id.0 as int].generation == handle.generation
    &&& handle.lease matches Some(lease) ==> lease.0 < table.leases.len()
        && table.leases[lease.0 as int].status is Active
}

/// Whether a handle owns a living resource.
pub open spec fn owns(table: TableView, handle: ResourceHandle) -> bool {
    &&& handle.role is Owner
    &&& current(table, handle)
    &&& table.records[handle.id.0 as int].status is Alive
}

/// Whether two tables are the same, apart from one resource.
pub open spec fn same_but_for(table: TableView, table1: TableView, id: u32) -> bool {
    &&& table1.leases == table.leases
    &&& table1.records.len() == table.records.len()
    &&& forall|k: int|
        0 <= k < table.records.len() && k != id ==> #[trigger] table1.records[k]
            == table.records[k]
}

/// A handle finds its resource where it is current, alive or not.
pub proof fn current_handle_finds_its_record(table: TableView, handle: ResourceHandle)
    ensures
        table.record(handle) is Ok <==> current(table, handle),
        table.record(handle) is Ok ==> table.record(handle)->Ok_0
            == table.records[handle.id.0 as int],
{
}

/// Only the owner of a living resource moves it. The resource passes to
/// its next generation, and the new owner's handle is of that generation.
pub proof fn owner_moves_its_resource(table: TableView, handle: ResourceHandle)
    ensures
        table.transfer(handle) is Ok <==> owns(table, handle),
        table.transfer(handle) matches Ok((table1, moved)) ==> {
            let before = table.records[handle.id.0 as int];
            let after = table1.records[handle.id.0 as int];
            &&& same_but_for(table, table1, handle.id.0)
            &&& after.item == before.item
            &&& after.status is Alive
            &&& after.fields == before.fields
            &&& after.generation as int == (before.generation + 1) % 0x1_0000_0000_0000_0000
            &&& moved.id == handle.id
            &&& moved.generation == after.generation
            &&& moved.role is Owner
            &&& moved.lease is None
        },
{
    if owns(table, handle) {
        let g = table.records[handle.id.0 as int].generation;
        assert((g + 1) % 0x1_0000_0000_0000_0000 == if g == u64::MAX {
            0
        } else {
            g + 1
        });
    }
}

/// Only the owner of a living resource destroys it, and it stays what it
/// was but for being alive.
pub proof fn owner_destroys_its_resource(table: TableView, handle: ResourceHandle)
    ensures
        table.drop_resource(handle) is Ok <==> owns(table, handle),
        table.drop_resource(handle) matches Ok(table1) ==> {
            let before = table.records[handle.id.0 as int];
            let after = table1.records[handle.id.0 as int];
            &&& same_but_for(table, table1, handle.id.0)
            &&& after.item == before.item
            &&& after.status is Dropped
            &&& after.fields == before.fields
            &&& after.generation == before.generation
        },
{
}

/// A handle that works gives an observer of its resource: bound to the
/// lease it is asked for under, or else to the one the handle was.
pub proof fn working_handle_gives_an_observer(
    table: TableView,
    handle: ResourceHandle,
    lease: Option<RuntimeObservationId>,
)
    ensures
        table.observer(handle, lease) is Ok <==> current(table, handle)
            && table.records[handle.id.0 as int].status is Alive,
        table.observer(handle, lease) matches Ok(observer) ==> {
            &&& observer.id == handle.id
            &&& observer.generation == handle.generation
            &&& observer.role is Observer
            &&& lease is Some ==> observer.lease == lease
            &&& lease is None ==> observer.lease == handle.lease
        },
{
}

/// Only the owner of a living resource reaches into it to change it: it
/// takes what a field holds and leaves it empty, fills one that is empty,
/// and puts back what it looked into. No other field changes.
pub proof fn owner_changes_its_fields(
    table: TableView,
    handle: ResourceHandle,
    index: usize,
    value: ValueView,
)
    ensures
        ({
            let before = table.records[handle.id.0 as int];
            let there = owns(table, handle) && index < before.fields.len();
            let held = before.fields[index as int];
            &&& table.take_field(handle, index) is Ok <==> there
            &&& table.set_field(handle, index, value) is Ok <==> there && (held is Moved || held
                is Dropped)
            &&& table.restore_field(handle, index, value) is Ok <==> there
            &&& table.take_field(handle, index) matches Ok((table1, taken)) ==> taken == held
                && holds_instead(table, table1, handle, index, ValueView::Moved)
            &&& table.set_field(handle, index, value) matches Ok(table1) ==> holds_instead(
                table,
                table1,
                handle,
                index,
                value,
            )
            &&& table.restore_field(handle, index, value) matches Ok(table1) ==> holds_instead(
                table,
                table1,
                handle,
                index,
                value,
            )
        }),
{
}

/// Whether a table is another but for what one field of the resource of
/// `handle` holds, which is `value`.
pub open spec fn holds_instead(
    table: TableView,
    table1: TableView,
    handle: ResourceHandle,
    index: usize,
    value: ValueView,
) -> bool {
    let before = table.records[handle.id.0 as int];
    let after = table1.records[handle.id.0 as int];
    &&& same_but_for(table, table1, handle.id.0)
    &&& after.item == before.item
    &&& after.status == before.status
    &&& after.generation == before.generation
    &&& after.fields.len() == before.fields.len()
    &&& after.fields[index as int] == value
    &&& forall|k: int|
        0 <= k < before.fields.len() && k != index ==> #[trigger] after.fields[k]
            == before.fields[k]
}

/// A resource is held exactly where a lease that is active observes it.
pub proof fn active_lease_holds_what_it_observes(table: TableView, id: u32)
    ensures
        table.held(id) <==> exists|k: int|
            0 <= k < table.leases.len() && (#[trigger] table.leases[k]).status is Active
                && table.leases[k].observed.contains(ResourceId(id)),
{
    held_by_an_active_lease(table, id);
    if table.held(id) {
        let k = choose|k: int|
            0 <= k < table.leases.len() && (#[trigger] table.leases[k]).holds(ResourceId(id));
        assert(table.leases[k].status is Active);
    }
    if exists|k: int|
        0 <= k < table.leases.len() && (#[trigger] table.leases[k]).status is Active
            && table.leases[k].observed.contains(ResourceId(id)) {
        let k = choose|k: int|
            0 <= k < table.leases.len() && (#[trigger] table.leases[k]).status is Active
                && table.leases[k].observed.contains(ResourceId(id));
        assert(table.leases[k].holds(ResourceId(id)));
    }
}

} // verus!
