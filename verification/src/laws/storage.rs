use crate::ids::{ItemId, ValueId};
use crate::laws::place::{
    agree_along, agree_at, checked_walk, leads_through, observing_finds, part, path_is_known,
    replaced, replacing_keeps_the_rest, replacing_keeps_the_walk, steppable, steps_into,
    storing_replaces, straight, taken_is_what_was_observed, walk_depends_on_its_path, walkable,
};
use crate::laws::lease::{
    lease_check_passes_where_nothing_is_held, reaching_collects_what_is_carried,
};
use crate::laws::transfer::{
    carries, carrying_out_a_sound_plan, handle_is_carried, has_handle, moved_handle, moves,
    owning_all_grows, owning_grows, planning_moves_what_is_carried, sound_plan,
};
use crate::ownership::{plan_inner, PlanView};
use crate::place::{observed_at, step_index, storing, taking, PathIntent};
use crate::program::{Module, OwnershipMode, Place, Projection};
use crate::structural::{
    claims_check, decomposition, origin, origin_within, place_access, place_store, place_type,
    relinquished,
};
use crate::table::{next_generation, RecordView, TableView};
use crate::value::{ErrorView, ResourceHandle, ValueView};
use crate::value_ops::{read_value, tombstone};
use vstd::prelude::*;

verus! {

// ---------------------------------------------------------------------
// Which storage a value stands for.
// ---------------------------------------------------------------------

/// Whether following loads always descends in `rank`, so that no chain
/// of loads goes in a circle.
pub open spec fn descending(origins: Map<u32, ValueId>, rank: spec_fn(u32) -> nat) -> bool {
    forall|id: u32|
        origins.contains_key(id) && (#[trigger] origins[id]).0 != id ==> rank(origins[id].0) < rank(
            id,
        )
}

/// Whether `id` is storage of its own: no load leads further.
pub open spec fn settled(origins: Map<u32, ValueId>, id: ValueId) -> bool {
    !origins.contains_key(id.0) || origins[id.0] == id
}

/// The results that rank no higher than `top`.
spec fn ranked_within(
    origins: Map<u32, ValueId>,
    rank: spec_fn(u32) -> nat,
    top: nat,
) -> Set<u32> {
    origins.dom().filter(|id: u32| rank(id) <= top)
}

proof fn enough_steps_settle(
    origins: Map<u32, ValueId>,
    rank: spec_fn(u32) -> nat,
    id: ValueId,
    steps: nat,
)
    requires
        origins.dom().finite(),
        descending(origins, rank),
        steps >= ranked_within(origins, rank, rank(id.0)).len(),
    ensures
        settled(origins, origin_within(origins, id, steps)),
    decreases rank(id.0),
{
    if !settled(origins, id) {
        let next = origins[id.0];
        let here = ranked_within(origins, rank, rank(id.0));
        let below = ranked_within(origins, rank, rank(next.0));
        assert(next.0 != id.0);
        assert(rank(next.0) < rank(id.0));
        assert(here.finite());
        assert(here.contains(id.0));
        assert(!below.contains(id.0));
        assert(below.subset_of(here.remove(id.0)));
        vstd::set_lib::lemma_len_subset(below, here.remove(id.0));
        assert(steps > 0);
        enough_steps_settle(origins, rank, next, (steps - 1) as nat);
    }
}

proof fn settled_stays(origins: Map<u32, ValueId>, id: ValueId, steps: nat, more: nat)
    requires
        settled(origins, origin_within(origins, id, steps)),
        steps <= more,
    ensures
        origin_within(origins, id, more) == origin_within(origins, id, steps),
    decreases steps,
{
    if steps > 0 && !settled(origins, id) {
        settled_stays(origins, origins[id.0], (steps - 1) as nat, (more - 1) as nat);
    }
}

/// Following loads ends at storage of its own, and a load's result
/// stands for the storage that the slot it read stands for.
pub proof fn origin_is_settled(
    origins: Map<u32, ValueId>,
    rank: spec_fn(u32) -> nat,
    id: ValueId,
)
    requires
        origins.dom().finite(),
        descending(origins, rank),
    ensures
        settled(origins, origin(origins, id)),
        origin(origins, origin(origins, id)) == origin(origins, id),
        origins.contains_key(id.0) ==> origin(origins, id) == origin(origins, origins[id.0]),
{
    let whole = ranked_within(origins, rank, rank(id.0));
    assert(whole.subset_of(origins.dom()));
    vstd::set_lib::lemma_len_subset(whole, origins.dom());
    enough_steps_settle(origins, rank, id, origins.len() + 1);
    if origins.contains_key(id.0) && origins[id.0] != id {
        let next = origins[id.0];
        let below = ranked_within(origins, rank, rank(next.0));
        assert(below.subset_of(origins.dom()));
        vstd::set_lib::lemma_len_subset(below, origins.dom());
        enough_steps_settle(origins, rank, next, origins.len());
        settled_stays(origins, next, origins.len(), origins.len() + 1);
    }
}

// ---------------------------------------------------------------------
// Reading and moving out of a place.
// ---------------------------------------------------------------------

/// Observing a place changes nothing.
pub proof fn observing_a_place_changes_nothing(
    table: TableView,
    frame: Map<u32, ValueView>,
    origins: Map<u32, ValueId>,
    place: Place,
)
    ensures
        place_access(table, frame, origins, place, OwnershipMode::Observe) matches Ok(
            (table1, frame1, _),
        ) ==> table1 == table && frame1 == frame,
{
}

/// Moving a value out of a place changes the place's own storage and no
/// other value of the frame, and moves nothing that an active
/// observation holds.
pub proof fn moving_out_of_a_place(
    table: TableView,
    frame: Map<u32, ValueView>,
    origins: Map<u32, ValueId>,
    place: Place,
    table1: TableView,
    frame1: Map<u32, ValueView>,
    value: ValueView,
    id: u32,
)
    requires
        place_access(table, frame, origins, place, OwnershipMode::Transfer) == Ok::<
            (TableView, Map<u32, ValueView>, ValueView),
            ErrorView,
        >((table1, frame1, value)),
    ensures
        frame1.remove(origin(origins, place.root).0) == frame.remove(
            origin(origins, place.root).0,
        ),
        carries(value, id) ==> !table.held(id),
{
    let root_id = origin(origins, place.root);
    let root = read_value(frame, root_id)->Ok_0;
    let (_, _, container) = taking(table, root, place.projections@)->Ok_0;
    assert(frame1 == frame.insert(root_id.0, container));
    assert(frame1.remove(root_id.0) =~= frame.remove(root_id.0));
    taken_is_what_was_observed(table, root, place.projections@, table1, value, container);
    let (seen, _, r) = table.reach(value, Set::empty(), Seq::empty(), 0);
    reaching_collects_what_is_carried(table, value, Set::empty(), Seq::empty(), 0);
    lease_check_passes_where_nothing_is_held(table, seen, "moved out of its place"@);
}

// ---------------------------------------------------------------------
// Moving into a place.
// ---------------------------------------------------------------------

/// Each value of a list that can be owned can be owned, after what was
/// owned before the list.
pub proof fn owned_at(
    table: TableView,
    values: Seq<ValueView>,
    i: nat,
    owned: Set<u32>,
    depth: nat,
    k: int,
) -> (owned_k: Set<u32>)
    requires
        table.own_from(values, i, owned, depth).1 is Ok,
        i <= k < values.len(),
    ensures
        owned.subset_of(owned_k),
        table.own(values[k], owned_k, depth).1 is Ok,
        table.own(values[k], owned_k, depth).0.subset_of(
            table.own_from(values, i, owned, depth).0,
        ),
    decreases k - i,
{
    let (owned1, _) = table.own(values[i as int], owned, depth);
    if i == k {
        owning_all_grows(table, values, i + 1, owned1, depth);
        owned
    } else {
        owning_grows(table, values[i as int], owned, depth);
        owned_at(table, values, i + 1, owned1, depth, k)
    }
}

/// A walk through what can be owned as a whole leads through no field
/// twice, and through owned resources only.
pub proof fn owned_value_is_walked_straight(
    table: TableView,
    container: ValueView,
    steps: Seq<Projection>,
    i: nat,
    owned: Set<u32>,
    depth: nat,
)
    requires
        walkable(table, container, steps, i),
        table.own(container, owned, depth).1 is Ok,
    ensures
        straight(table, container, steps, i),
        forall|id: int, index: int| #[trigger]
            leads_through(table, container, steps, i, id, index) ==> 0 <= id <= u32::MAX
                && !owned.contains(id as u32) && table.own(container, owned, depth).0.contains(
                id as u32,
            ),
    decreases steps.len() - i,
{
    if i < steps.len() {
        let step = steps[i as int];
        let inner = part(table, container, step);
        let here = step_index(step)->Ok_0 as int;
        match container {
            ValueView::Resource(handle) => {
                let record = table.record(handle)->Ok_0;
                let more = owned.insert(handle.id.0);
                let owned_k = owned_at(table, record.fields, 0, more, depth + 1, here);
                owned_value_is_walked_straight(table, inner, steps, i + 1, owned_k, depth + 1);
                owning_all_grows(table, record.fields, 0, more, depth + 1);
                assert(more.contains(handle.id.0));
                if leads_through(table, inner, steps, i + 1, handle.id.0 as int, here) {
                    assert(!owned_k.contains(handle.id.0));
                    assert(owned_k.contains(handle.id.0));
                }
                assert forall|id: int, index: int| #[trigger]
                    leads_through(table, container, steps, i, id, index) implies 0 <= id <= u32::MAX
                    && !owned.contains(id as u32) && table.own(
                    container,
                    owned,
                    depth,
                ).0.contains(id as u32) by {
                    if id != handle.id.0 {
                        assert(leads_through(table, inner, steps, i + 1, id, index));
                        assert(!owned_k.contains(id as u32));
                        if owned.contains(id as u32) {
                            assert(more.contains(id as u32));
                        }
                    }
                }
            },
            ValueView::Record { fields, .. } => {
                let owned_k = owned_at(table, fields, 0, owned, depth + 1, here);
                owned_value_is_walked_straight(table, inner, steps, i + 1, owned_k, depth + 1);
                assert forall|id: int, index: int| #[trigger]
                    leads_through(table, container, steps, i, id, index) implies 0 <= id <= u32::MAX
                    && !owned.contains(id as u32) && table.own(
                    container,
                    owned,
                    depth,
                ).0.contains(id as u32) by {
                    assert(leads_through(table, inner, steps, i + 1, id, index));
                    assert(!owned_k.contains(id as u32));
                }
            },
            _ => {},
        }
    }
}

/// Whether two tables agree on what every resource is.
pub open spec fn same_items(table: TableView, other: TableView) -> bool {
    forall|id: u32|
        id < table.records.len() ==> (#[trigger] table.records[id as int]).item
            == other.records[id as int].item
}

/// Only the fields a walk leads through matter to the type declared at
/// its end.
proof fn declared_type_depends_on_its_path(
    module: Module,
    table: TableView,
    other: TableView,
    container: ValueView,
    steps: Seq<Projection>,
    i: nat,
)
    requires
        walkable(table, container, steps, i),
        agree_along(table, other, container, steps, i),
        same_items(table, other),
    ensures
        place_type(module, other, container, steps, i) == place_type(
            module,
            table,
            container,
            steps,
            i,
        ),
    decreases steps.len() - i,
{
    if i < steps.len() {
        let step = steps[i as int];
        let inner = part(table, container, step);
        let here = step_index(step)->Ok_0 as int;
        if let ValueView::Resource(handle) = container {
            assert(steps_into(container, step, handle.id.0 as int, here));
            assert(leads_through(table, container, steps, i, handle.id.0 as int, here));
            assert(table.records[handle.id.0 as int].item == other.records[handle.id.0 as int].item);
        }
        assert(agree_along(table, other, inner, steps, i + 1)) by {
            assert forall|id: int, index: int| #[trigger]
                leads_through(table, inner, steps, i + 1, id, index) implies agree_at(
                table.records[id],
                other.records[id],
                index,
            ) by {
                assert(leads_through(table, container, steps, i, id, index));
            }
        }
        declared_type_depends_on_its_path(module, table, other, inner, steps, i + 1);
    }
}

/// Putting a value at the end of a walk changes nothing about the type
/// declared there.
proof fn replacing_keeps_the_declared_type(
    module: Module,
    table: TableView,
    container: ValueView,
    steps: Seq<Projection>,
    i: nat,
    value: ValueView,
)
    requires
        i < steps.len(),
        walkable(table, container, steps, i),
        straight(table, container, steps, i),
    ensures
        ({
            let (table1, container1) = replaced(table, container, steps, i, value);
            place_type(module, table1, container1, steps, i) == place_type(
                module,
                table,
                container,
                steps,
                i,
            )
        }),
    decreases steps.len() - i,
{
    let step = steps[i as int];
    let here = step_index(step)->Ok_0 as int;
    let inner = part(table, container, step);
    let (table1, inner1) = replaced(table, inner, steps, i + 1, value);
    let (table2, container2) = replaced(table, container, steps, i, value);
    replacing_keeps_the_rest(table, inner, steps, i + 1, value);
    replacing_keeps_the_rest(table, container, steps, i, value);
    replacing_keeps_the_walk(table, inner, steps, i + 1, value);
    replacing_keeps_the_walk(table, container, steps, i, value);
    if let ValueView::Resource(handle) = container {
        let n = handle.id.0 as int;
        assert(table.records[n].item == table2.records[n].item);
        assert(steppable(table2, container2, step));
    }
    if i + 1 < steps.len() {
        replacing_keeps_the_declared_type(module, table, inner, steps, i + 1, value);
        assert(part(table2, container2, step) == inner1);
        assert(agree_along(table1, table2, inner1, steps, i + 1)) by {
            assert forall|id: int, index: int| #[trigger]
                leads_through(table1, inner1, steps, i + 1, id, index) implies agree_at(
                table1.records[id],
                table2.records[id],
                index,
            ) by {
                assert(leads_through(table, inner, steps, i + 1, id, index));
                path_is_known(table, inner, steps, i + 1, id, index);
                assert(table.records[id].item == table1.records[id].item);
                assert(!steps_into(container, step, id, index));
            }
        }
        assert(same_items(table1, table2)) by {
            assert forall|id: u32| id < table1.records.len() implies (
            #[trigger] table1.records[id as int]).item == table2.records[id as int].item by {
                assert(table.records[id as int].item == table1.records[id as int].item);
                assert(table.records[id as int].item == table2.records[id as int].item);
            }
        }
        declared_type_depends_on_its_path(module, table1, table2, inner1, steps, i + 1);
    }
}

/// What moving a value into a place does, where the source is not itself
/// the storage of the place: the value is planned and put at the place,
/// and what the plan reached is left as it was, apart from the
/// generations of what moved.
pub proof fn placing(
    module: Module,
    table: TableView,
    frame: Map<u32, ValueView>,
    origins: Map<u32, ValueId>,
    place: Place,
    source: ValueId,
    table1: TableView,
    frame1: Map<u32, ValueView>,
) -> (moved: ValueView)
    requires
        source.0 != origin(origins, place.root).0,
        place_store(module, table, frame, origins, place, source) == Ok::<
            (TableView, Map<u32, ValueView>),
            ErrorView,
        >((table1, frame1)),
    ensures
        frame.contains_key(source.0),
        frame1[source.0] is Moved,
        frame1[origin(origins, source).0] is Moved,
        forall|id: u32|
            id != source.0 && id != origin(origins, source).0 && id != origin(
                origins,
                place.root,
            ).0 ==> (frame1.contains_key(id) == frame.contains_key(id) && #[trigger] frame1[id]
                == frame[id]),
        observed_at(
            table1,
            frame1[origin(origins, place.root).0],
            place.projections@,
            0,
        ) == Ok::<ValueView, ErrorView>(moved),
        forall|id: u32| #[trigger] carries(moved, id) <==> carries(frame[source.0], id),
        forall|handle: ResourceHandle| #[trigger]
            has_handle(moved, handle) ==> handle.role is Owner && table1.observe(handle) is Ok,
        forall|handle: ResourceHandle| #[trigger]
            has_handle(frame[source.0], handle) ==> table1.record(handle) is Err,
        plan_inner(module, table, frame[source.0], PlanView::empty(), 0).1 == Ok::<
            ValueView,
            ErrorView,
        >(moved),
        place_type(
            module,
            table1,
            frame1[origin(origins, place.root).0],
            place.projections@,
            0,
        ) == place_type(
            module,
            table,
            frame[origin(origins, place.root).0],
            place.projections@,
            0,
        ),
        table1.leases == table.leases,
        table1.records.len() == table.records.len(),
        forall|id: u32|
            (id as int) < table.records.len() && plan_inner(
                module,
                table,
                frame[source.0],
                PlanView::empty(),
                0,
            ).0.reachable.contains(id) ==> #[trigger] table1.records[id as int] == if carries(
                frame[source.0],
                id,
            ) {
                RecordView {
                    generation: next_generation(table.records[id as int].generation),
                    ..table.records[id as int]
                }
            } else {
                table.records[id as int]
            },
{
    let root_id = origin(origins, place.root);
    let source_id = origin(origins, source);
    let steps = place.projections@;
    let root = read_value(frame, root_id)->Ok_0;
    let incoming = read_value(frame, source)->Ok_0;
    let start = PlanView::empty();
    let (plan, r) = plan_inner(module, table, incoming, start, 0);
    let moved = r->Ok_0;
    assert(sound_plan(table, start));
    planning_moves_what_is_carried(module, table, incoming, start, 0);
    let (between, root1) = storing(table, root, steps, moved)->Ok_0;
    assert(frame1[root_id.0] == root1);
    assert(steps.len() > 0);
    checked_walk(table, root, steps, 0, PathIntent::Store, 0);
    owned_value_is_walked_straight(table, root, steps, 0, Set::empty(), 0);
    storing_replaces(table, root, steps, 0, moved);
    replacing_keeps_the_rest(table, root, steps, 0, moved);
    replacing_keeps_the_walk(table, root, steps, 0, moved);
    assert(sound_plan(between, plan)) by {
        assert forall|k: int| 0 <= k < plan.transitions.len() implies ({
            let (id, generation) = #[trigger] plan.transitions[k];
            &&& id.0 < between.records.len()
            &&& generation == next_generation(
                between.records[id.0 as int].generation,
            )
            &&& plan.reachable.contains(id.0)
        }) by {
            let (id, generation) = plan.transitions[k];
            assert(between.records[id.0 as int].generation == table.records[id.0 as int].generation);
        }
    }
    carrying_out_a_sound_plan(between, plan);
    let owned = table.own(root, Set::empty(), 0).0;
    assert forall|id: int, index: int| #[trigger]
        leads_through(between, root1, steps, 0, id, index) implies agree_at(
        between.records[id],
        table1.records[id],
        index,
    ) by {
        assert(leads_through(table, root, steps, 0, id, index));
        assert(owned.contains(id as u32));
        assert(!plan.reachable.contains(id as u32));
        if moves(plan, id as u32) {
            let k = choose|k: int|
                0 <= k < plan.transitions.len() && (#[trigger] plan.transitions[k]).0.0 == id as u32;
            assert(plan.reachable.contains(plan.transitions[k].0.0));
        }
        path_is_known(table, root, steps, 0, id, index);
        assert(table1.records[(id as u32) as int] == between.records[(id as u32) as int]);
    }
    assert(agree_along(between, table1, root1, steps, 0));
    walk_depends_on_its_path(between, table1, root1, steps, 0, moved);
    replacing_keeps_the_declared_type(module, table, root, steps, 0, moved);
    assert(same_items(between, table1)) by {
        assert forall|id: u32| id < between.records.len() implies (
        #[trigger] between.records[id as int]).item == table1.records[id as int].item by {
        }
    }
    declared_type_depends_on_its_path(module, between, table1, root1, steps, 0);
    observing_finds(table1, root1, steps, 0);
    assert forall|handle: ResourceHandle| #[trigger]
        has_handle(moved, handle) implies handle.role is Owner && table1.observe(handle) is Ok by {
        assert(moved_handle(table, handle));
        assert(carries(incoming, handle.id.0));
        assert(moves(plan, handle.id.0));
        let n = handle.id.0;
        assert(between.records[n as int].generation == table.records[n as int].generation);
        assert(table1.records[n as int].generation == handle.generation);
    }
    assert forall|handle: ResourceHandle| #[trigger]
        has_handle(incoming, handle) implies table1.record(handle) is Err by {
        handle_is_carried(incoming, handle);
        assert(table.observe(handle) is Ok);
        assert(moves(plan, handle.id.0));
        let n = handle.id.0;
        assert(between.records[n as int].generation == table.records[n as int].generation);
        assert(table1.records[n as int].generation != handle.generation);
    }
    assert forall|id: u32|
        (id as int) < table.records.len() && plan.reachable.contains(
            id,
        ) implies #[trigger] table1.records[id as int] == if carries(incoming, id) {
        RecordView {
            generation: next_generation(table.records[id as int].generation),
            ..table.records[id as int]
        }
    } else {
        table.records[id as int]
    } by {
        let n = id as int;
        assert(!owned.contains(id));
        assert(between.records[n].item == table.records[n].item);
        assert forall|index: int| 0 <= index < table.records[n].fields.len() implies (
        #[trigger] between.records[n].fields[index]) == table.records[n].fields[index] by {
            if leads_through(table, root, steps, 0, n, index) {
                assert(owned.contains(n as u32));
            }
        }
        assert(between.records[n].fields =~= table.records[n].fields);
        assert(!moves(start, id));
        assert(moves(plan, id) <==> carries(incoming, id));
    }
    moved
}

/// Moving a value into a place leaves nothing behind: the source and
/// the storage it stands for are empty afterwards, and every handle the
/// value carried is stale. What is read at the place then carries the
/// same resources, through handles that own and work. No other value of
/// the frame changes.
pub proof fn moving_into_a_place(
    module: Module,
    table: TableView,
    frame: Map<u32, ValueView>,
    origins: Map<u32, ValueId>,
    rank: spec_fn(u32) -> nat,
    place: Place,
    source: ValueId,
    table1: TableView,
    frame1: Map<u32, ValueView>,
) -> (moved: ValueView)
    requires
        origins.dom().finite(),
        descending(origins, rank),
        place_store(module, table, frame, origins, place, source) == Ok::<
            (TableView, Map<u32, ValueView>),
            ErrorView,
        >((table1, frame1)),
    ensures
        frame.contains_key(source.0),
        frame1[source.0] is Moved,
        frame1[origin(origins, source).0] is Moved,
        forall|id: u32|
            id != source.0 && id != origin(origins, source).0 && id != origin(
                origins,
                place.root,
            ).0 ==> (frame1.contains_key(id) == frame.contains_key(id) && #[trigger] frame1[id]
                == frame[id]),
        observed_at(
            table1,
            frame1[origin(origins, place.root).0],
            place.projections@,
            0,
        ) == Ok::<ValueView, ErrorView>(moved),
        forall|id: u32| #[trigger] carries(moved, id) <==> carries(frame[source.0], id),
        forall|handle: ResourceHandle| #[trigger]
            has_handle(moved, handle) ==> handle.role is Owner && table1.observe(handle) is Ok,
        forall|handle: ResourceHandle| #[trigger]
            has_handle(frame[source.0], handle) ==> table1.record(handle) is Err,
{
    origin_is_settled(origins, rank, place.root);
    placing(module, table, frame, origins, place, source, table1, frame1)
}

/// A value cannot be moved into itself: a store whose two sides stand
/// for the same storage is refused.
pub proof fn store_into_itself_is_refused(
    module: Module,
    table: TableView,
    frame: Map<u32, ValueView>,
    origins: Map<u32, ValueId>,
    place: Place,
    source: ValueId,
)
    requires
        origin(origins, source) == origin(origins, place.root),
    ensures
        place_store(module, table, frame, origins, place, source) is Err,
{
}

// ---------------------------------------------------------------------
// Taking a variant apart.
// ---------------------------------------------------------------------

/// Whether a claim of `taken` before position `n` names position `k`.
pub open spec fn claimed(taken: Seq<(usize, ValueId)>, n: nat, k: int) -> bool {
    exists|j: int| 0 <= j < n && (#[trigger] taken[j]).0 == k
}

proof fn relinquishing(payload: Seq<ValueView>, taken: Seq<(usize, ValueId)>, n: nat)
    requires
        n <= taken.len(),
        forall|j: int| 0 <= j < n ==> (#[trigger] taken[j]).0 < payload.len(),
    ensures
        relinquished(payload, taken, n).len() == payload.len(),
        forall|k: int|
            0 <= k < payload.len() ==> #[trigger] relinquished(payload, taken, n)[k] == if claimed(
                taken,
                n,
                k,
            ) {
                ValueView::Moved
            } else {
                payload[k]
            },
    decreases n,
{
    if n > 0 {
        let m = (n - 1) as nat;
        relinquishing(payload, taken, m);
        assert forall|k: int| 0 <= k < payload.len() implies #[trigger] relinquished(
            payload,
            taken,
            n,
        )[k] == if claimed(taken, n, k) {
            ValueView::Moved
        } else {
            payload[k]
        } by {
            assert(relinquished(payload, taken, m)[k] == if claimed(taken, m, k) {
                ValueView::Moved
            } else {
                payload[k]
            });
            if claimed(taken, m, k) {
                let j = choose|j: int| 0 <= j < m && (#[trigger] taken[j]).0 == k;
                assert(taken[j].0 == k);
            }
            if taken[m as int].0 == k {
                assert(claimed(taken, n, k));
            } else if claimed(taken, n, k) {
                let j = choose|j: int| 0 <= j < n && (#[trigger] taken[j]).0 == k;
                assert(j < m);
                assert(claimed(taken, m, k));
            }
        }
    }
}

proof fn checked_claims(
    frame: Map<u32, ValueView>,
    payload: Seq<ValueView>,
    taken: Seq<(usize, ValueId)>,
    i: nat,
)
    requires
        claims_check(frame, payload, taken, i) is Ok,
    ensures
        forall|j: int|
            i <= j < taken.len() ==> {
                &&& (#[trigger] taken[j]).0 < payload.len()
                &&& !tombstone(payload[taken[j].0 as int])
            },
        forall|j: int, k: int|
            0 <= j < k && i <= k < taken.len() ==> (#[trigger] taken[j]).0
                != (#[trigger] taken[k]).0,
    decreases taken.len() - i,
{
    if i < taken.len() {
        checked_claims(frame, payload, taken, i + 1);
        assert forall|j: int, k: int|
            0 <= j < k && i <= k < taken.len() implies (#[trigger] taken[j]).0 != (
        #[trigger] taken[k]).0 by {
            if k == i {
                assert(!crate::structural::claimed_before(taken, i as int));
            }
        }
    }
}

/// Taking a variant apart empties exactly the claimed positions of its
/// payload and changes no other value of the frame; each claimed
/// position held something, and none was claimed twice.
pub proof fn decomposition_empties_what_was_claimed(
    module: Module,
    table: TableView,
    frame: Map<u32, ValueView>,
    origins: Map<u32, ValueId>,
    value: ValueId,
    variant: ItemId,
    case: usize,
    taken: Seq<(usize, ValueId)>,
    frame1: Map<u32, ValueView>,
)
    requires
        decomposition(module, table, frame, origins, value, variant, case, taken) == Ok::<
            Map<u32, ValueView>,
            ErrorView,
        >(frame1),
    ensures
        ({
            let shell = origin(origins, value).0;
            &&& frame1.remove(shell) == frame.remove(shell)
            &&& frame[shell] matches ValueView::Variant { item, type_args, case: active, payload }
                && frame1[shell] matches ValueView::Variant {
                item: item1,
                type_args: type_args1,
                case: active1,
                payload: payload1,
            } && {
                &&& item1 == item && item == variant
                &&& type_args1 == type_args
                &&& active1 == active && active == case
                &&& payload1.len() == payload.len()
                &&& forall|k: int|
                    0 <= k < payload.len() ==> #[trigger] payload1[k] == if claimed(
                        taken,
                        taken.len(),
                        k,
                    ) {
                        ValueView::Moved
                    } else {
                        payload[k]
                    }
                &&& forall|j: int|
                    0 <= j < taken.len() ==> (#[trigger] taken[j]).0 < payload.len() && !tombstone(
                        payload[taken[j].0 as int],
                    )
            }
        }),
        forall|j: int, k: int|
            0 <= j < k < taken.len() ==> (#[trigger] taken[j]).0 != (#[trigger] taken[k]).0,
{
    let shell = origin(origins, value).0;
    let payload = frame[shell]->payload;
    checked_claims(frame, payload, taken, 0);
    relinquishing(payload, taken, taken.len());
    assert(frame1.remove(shell) =~= frame.remove(shell));
}

/// A position of a payload is claimed once: a later decomposition that
/// claims it again is refused.
pub proof fn position_is_claimed_once(
    module: Module,
    table: TableView,
    frame: Map<u32, ValueView>,
    origins: Map<u32, ValueId>,
    value: ValueId,
    variant: ItemId,
    case: usize,
    taken: Seq<(usize, ValueId)>,
    frame1: Map<u32, ValueView>,
    table1: TableView,
    frame2: Map<u32, ValueView>,
    again: Seq<(usize, ValueId)>,
    i: int,
    j: int,
)
    requires
        decomposition(module, table, frame, origins, value, variant, case, taken) == Ok::<
            Map<u32, ValueView>,
            ErrorView,
        >(frame1),
        frame2.contains_key(origin(origins, value).0) ==> frame2[origin(origins, value).0]
            == frame1[origin(origins, value).0],
        0 <= i < taken.len(),
        0 <= j < again.len(),
        taken[i].0 == again[j].0,
    ensures
        decomposition(module, table1, frame2, origins, value, variant, case, again) is Err,
{
    decomposition_empties_what_was_claimed(
        module,
        table,
        frame,
        origins,
        value,
        variant,
        case,
        taken,
        frame1,
    );
    let shell = origin(origins, value).0;
    if decomposition(module, table1, frame2, origins, value, variant, case, again) is Ok {
        let payload1 = frame1[shell]->payload;
        assert(frame2[shell] == frame1[shell]);
        checked_claims(frame2, payload1, again, 0);
        let k = taken[i].0 as int;
        assert(claimed(taken, taken.len(), k));
        assert(payload1[k] is Moved);
        assert(!tombstone(payload1[again[j].0 as int]));
    }
}

/// The container that the last of the steps from position `i` on leads out
/// of.
pub open spec fn holder(
    table: TableView,
    container: ValueView,
    steps: Seq<Projection>,
    i: nat,
) -> ValueView
    decreases steps.len() - i,
{
    if i + 1 >= steps.len() {
        container
    } else {
        holder(table, part(table, container, steps[i as int]), steps, i + 1)
    }
}

/// The type declared at a place is the one that the record or resource the
/// last step leads out of declares for that field.
pub proof fn place_is_of_its_field_type(
    module: Module,
    table: TableView,
    container: ValueView,
    steps: Seq<Projection>,
    i: nat,
)
    requires
        i < steps.len(),
        walkable(table, container, steps, i),
    ensures
        ({
            let last = step_index(steps.last())->Ok_0;
            let declared = match holder(table, container, steps, i) {
                ValueView::Resource(handle) => module.record_field_types(
                    table.records[handle.id.0 as int].item,
                    Seq::empty(),
                ),
                ValueView::Record { item, type_args, .. } => module.record_field_types(
                    item,
                    type_args,
                ),
                _ => Err(ErrorView::DivisionByZero),
            };
            match place_type(module, table, container, steps, i) {
                Ok(ty) => declared is Ok && last < declared->Ok_0.len() && ty
                    == declared->Ok_0[last as int],
                Err(_) => declared is Err || last >= declared->Ok_0.len(),
            }
        }),
    decreases steps.len() - i,
{
    if i + 1 < steps.len() {
        let next = part(table, container, steps[i as int]);
        place_is_of_its_field_type(module, table, next, steps, i + 1);
    }
}

/// A step into a field counts the field, and no step leads into a variant.
pub proof fn step_counts_its_field(step: Projection)
    ensures
        match step {
            Projection::Field { field, .. } => step_index(step) matches Ok(index) && index
                == field.0,
            Projection::VariantField { .. } => step_index(step) is Err,
        },
{
}

} // verus!
