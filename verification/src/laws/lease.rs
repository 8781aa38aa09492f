use crate::destroy::dropping;
use crate::ids::{ObservationId, ResourceId, RuntimeObservationId, ValueId};
use crate::interpreter::StateView;
use crate::laws::graph::reached_is_listed_once;
use crate::laws::observation::{observing_view_carries_only_observers, only_observers};
use crate::laws::transfer::{carries, has_handle, planning_moves_what_is_carried, sound_plan};
use crate::ownership::{plan_inner, transferred, PlanView};
use crate::program::{Module, Place, MAX_GENERIC_DEPTH};
use crate::structural::{observation_begun, observation_ended};
use crate::table::TableView;
use crate::value::{ErrorView, ResourceHandle, ValueView};
use vstd::prelude::*;

verus! {

/// A property that some number has, a lowest number has.
pub proof fn lowest_with(property: spec_fn(u32) -> bool, witness: u32) -> (lowest: u32)
    requires
        property(witness),
    ensures
        property(lowest),
        forall|other: u32| #[trigger] property(other) ==> lowest <= other,
    decreases witness,
{
    if exists|other: u32| other < witness && #[trigger] property(other) {
        let other = choose|other: u32| other < witness && #[trigger] property(other);
        lowest_with(property, other)
    } else {
        witness
    }
}

proof fn active_lease_is_found(table: TableView, resource: ResourceId, i: nat)
    ensures
        table.active_lease_from(resource, i) is Some <==> exists|k: int|
            i <= k < table.leases.len() && (#[trigger] table.leases[k]).holds(resource),
    decreases table.leases.len() - i,
{
    if i < table.leases.len() {
        active_lease_is_found(table, resource, i + 1);
        if table.leases[i as int].holds(resource) {
            assert(table.leases[i as int].holds(resource));
        }
    }
}

/// A resource is held exactly where some active lease observes it.
pub proof fn held_by_an_active_lease(table: TableView, id: u32)
    ensures
        table.held(id) <==> exists|k: int|
            0 <= k < table.leases.len() && (#[trigger] table.leases[k]).holds(ResourceId(id)),
{
    active_lease_is_found(table, ResourceId(id), 0);
}

/// The check of leases passes exactly where no active lease holds any of
/// the resources.
pub proof fn lease_check_passes_where_nothing_is_held(
    table: TableView,
    ids: Set<u32>,
    what: Seq<char>,
)
    ensures
        table.lease_check(ids, what) is Ok <==> forall|id: u32| #[trigger]
            ids.contains(id) ==> !table.held(id),
{
    if exists|id: u32| #[trigger] ids.contains(id) && table.held(id) {
        let witness = choose|id: u32| #[trigger] ids.contains(id) && table.held(id);
        let property = |id: u32| ids.contains(id) && table.held(id);
        let lowest = lowest_with(property, witness);
        assert forall|other: u32| ids.contains(other) && #[trigger] table.held(
            other,
        ) implies lowest <= other by {
            assert(property(other));
        }
        assert(table.lowest_held(ids, lowest));
    }
}

/// Nothing that an active observation holds can be moved to a new owner.
pub proof fn held_resources_cannot_be_transferred(
    module: Module,
    table: TableView,
    value: ValueView,
    id: u32,
)
    requires
        carries(value, id),
        table.held(id),
    ensures
        transferred(module, table, value) is Err,
{
    let start = PlanView::empty();
    let (plan, r) = plan_inner(module, table, value, start, 0);
    assert(sound_plan(table, start));
    planning_moves_what_is_carried(module, table, value, start, 0);
    if r is Ok {
        assert(plan.reachable.contains(id));
        lease_check_passes_where_nothing_is_held(table, plan.reachable, "transferred"@);
    }
}

/// What a value reaches contains everything it carries, and everything
/// seen before.
pub proof fn reaching_collects_what_is_carried(
    table: TableView,
    value: ValueView,
    seen: Set<u32>,
    order: Seq<ResourceId>,
    depth: nat,
)
    ensures
        seen.subset_of(table.reach(value, seen, order, depth).0),
        table.reach(value, seen, order, depth).2 is Ok ==> forall|id: u32| #[trigger]
            carries(value, id) ==> table.reach(value, seen, order, depth).0.contains(id),
    decreases MAX_GENERIC_DEPTH - depth, 0nat,
{
    if depth < MAX_GENERIC_DEPTH {
        match value {
            ValueView::Resource(handle) => {
                if !seen.contains(handle.id.0) {
                    let seen1 = seen.insert(handle.id.0);
                    let order1 = order.push(handle.id);
                    if table.record(handle) is Ok {
                        let record = table.record(handle)->Ok_0;
                        reaching_all_collects_what_is_carried(
                            table,
                            record.fields,
                            0,
                            seen1,
                            order1,
                            depth + 1,
                        );
                    }
                }
            },
            ValueView::Record { fields, .. } => {
                reaching_all_collects_what_is_carried(table, fields, 0, seen, order, depth + 1);
                assert forall|id: u32| #[trigger] carries(value, id) implies exists|j: int|
                    0 <= j < fields.len() && #[trigger] carries(fields[j], id) by {
                    let j = choose|j: int| 0 <= j < fields.len() && carries(#[trigger] fields[j], id);
                    assert(carries(fields[j], id));
                }
            },
            ValueView::Variant { payload, .. } => {
                reaching_all_collects_what_is_carried(table, payload, 0, seen, order, depth + 1);
                assert forall|id: u32| #[trigger] carries(value, id) implies exists|j: int|
                    0 <= j < payload.len() && #[trigger] carries(payload[j], id) by {
                    let j = choose|j: int|
                        0 <= j < payload.len() && carries(#[trigger] payload[j], id);
                    assert(carries(payload[j], id));
                }
            },
            _ => {},
        }
    }
}

proof fn reaching_all_collects_what_is_carried(
    table: TableView,
    values: Seq<ValueView>,
    i: nat,
    seen: Set<u32>,
    order: Seq<ResourceId>,
    depth: nat,
)
    ensures
        seen.subset_of(table.reach_from(values, i, seen, order, depth).0),
        table.reach_from(values, i, seen, order, depth).2 is Ok ==> forall|j: int, id: u32|
            i <= j < values.len() && #[trigger] carries(values[j], id) ==> table.reach_from(
                values,
                i,
                seen,
                order,
                depth,
            ).0.contains(id),
    decreases MAX_GENERIC_DEPTH - depth, 1 + values.len() - i,
{
    if i < values.len() {
        let (seen1, order1, r) = table.reach(values[i as int], seen, order, depth);
        if depth < MAX_GENERIC_DEPTH {
            reaching_collects_what_is_carried(table, values[i as int], seen, order, depth);
        }
        if r is Ok {
            reaching_all_collects_what_is_carried(table, values, i + 1, seen1, order1, depth);
        }
    }
}

/// Nothing that an active observation holds can be destroyed.
pub proof fn held_resources_cannot_be_dropped(
    module: Module,
    state: StateView,
    value: ValueView,
    id: u32,
)
    requires
        carries(value, id),
        state.table.held(id),
    ensures
        dropping(module, state, value) is Err,
{
    let (seen, _, r) = state.table.reach(value, Set::empty(), Seq::empty(), 0);
    reaching_collects_what_is_carried(state.table, value, Set::empty(), Seq::empty(), 0);
    lease_check_passes_where_nothing_is_held(state.table, seen, "dropped"@);
}

/// Ending a lease stops every handle bound to it, and no other: the rest
/// find what they found before.
pub proof fn ended_lease_stops_exactly_its_handles(
    table: TableView,
    lease: RuntimeObservationId,
    table1: TableView,
    handle: ResourceHandle,
)
    requires
        table.end_lease(lease) == Ok::<TableView, ErrorView>(table1),
    ensures
        table1.records == table.records,
        handle.lease == Some(lease) ==> table1.record(handle) is Err,
        handle.lease != Some(lease) ==> table1.record(handle) == table.record(handle),
{
}

/// A lease ends once.
pub proof fn lease_ends_once(
    table: TableView,
    lease: RuntimeObservationId,
    table1: TableView,
)
    requires
        table.end_lease(lease) == Ok::<TableView, ErrorView>(table1),
    ensures
        table1.end_lease(lease) is Err,
{
}

/// Whether each lease is numbered by its place, as far as numbers go,
/// and was opened inside an earlier one, if inside any.
pub open spec fn leases_in_order(table: TableView) -> bool {
    forall|k: int|
        0 <= k < table.leases.len() ==> {
            &&& k <= u32::MAX ==> (#[trigger] table.leases[k]).id.0 == k
            &&& table.leases[k].parent matches Some(parent) ==> parent.0 < k
        }
}

/// Whether every observation of a frame's stack has a lease.
pub open spec fn all_leased(
    table: TableView,
    active: Seq<(ObservationId, RuntimeObservationId)>,
) -> bool {
    forall|k: int| 0 <= k < active.len() ==> (#[trigger] active[k]).1.0 < table.leases.len()
}

/// Beginning an observation keeps the leases in order, and every
/// observation of the frame leased.
pub proof fn beginning_keeps_the_order(
    table: TableView,
    frame: Map<u32, ValueView>,
    origins: Map<u32, ValueId>,
    active: Seq<(ObservationId, RuntimeObservationId)>,
    observation: ObservationId,
    place: Place,
)
    requires
        leases_in_order(table),
        all_leased(table, active),
    ensures
        leases_in_order(observation_begun(table, frame, origins, active, observation, place).0),
        all_leased(
            observation_begun(table, frame, origins, active, observation, place).0,
            observation_begun(table, frame, origins, active, observation, place).1,
        ),
{
    let (table1, active1, _) = observation_begun(
        table,
        frame,
        origins,
        active,
        observation,
        place,
    );
    if active.len() > 0 {
        assert(active[active.len() - 1].1.0 < table.leases.len());
    }
    assert forall|k: int| 0 <= k < table1.leases.len() implies {
        &&& k <= u32::MAX ==> (#[trigger] table1.leases[k]).id.0 == k
        &&& table1.leases[k].parent matches Some(parent) ==> parent.0 < k
    } by {
        if k < table.leases.len() {
            assert(table1.leases[k] == table.leases[k]);
        }
    }
    assert forall|k: int| 0 <= k < active1.len() implies (#[trigger] active1[k]).1.0
        < table1.leases.len() by {
        if k < active.len() {
            assert(active1[k] == active[k]);
        }
    }
}

/// Ending an observation keeps the leases in order, and every
/// observation of the frame leased.
pub proof fn ending_keeps_the_order(
    table: TableView,
    active: Seq<(ObservationId, RuntimeObservationId)>,
    observation: ObservationId,
    table1: TableView,
    active1: Seq<(ObservationId, RuntimeObservationId)>,
)
    requires
        leases_in_order(table),
        all_leased(table, active),
        observation_ended(table, active, observation) == Ok::<
            (TableView, Seq<(ObservationId, RuntimeObservationId)>),
            ErrorView,
        >((table1, active1)),
    ensures
        leases_in_order(table1),
        all_leased(table1, active1),
{
    assert forall|k: int| 0 <= k < table1.leases.len() implies {
        &&& k <= u32::MAX ==> (#[trigger] table1.leases[k]).id.0 == k
        &&& table1.leases[k].parent matches Some(parent) ==> parent.0 < k
    } by {
        assert(table.leases[k].id == table1.leases[k].id);
    }
    assert forall|k: int| 0 <= k < active1.len() implies (#[trigger] active1[k]).1.0
        < table1.leases.len() by {
        assert(active1[k] == active[k]);
    }
}

/// An observation that began holds every resource its view carries, with
/// a new lease that every handle of the view is bound to. It changes no
/// resource.
pub proof fn observation_holds_what_it_sees(
    table: TableView,
    frame: Map<u32, ValueView>,
    origins: Map<u32, ValueId>,
    active: Seq<(ObservationId, RuntimeObservationId)>,
    observation: ObservationId,
    place: Place,
    table1: TableView,
    active1: Seq<(ObservationId, RuntimeObservationId)>,
    view: ValueView,
)
    requires
        observation_begun(table, frame, origins, active, observation, place) == (
            table1,
            active1,
            Ok::<ValueView, ErrorView>(view),
        ),
    ensures
        table1.records == table.records,
        table1.leases.len() == table.leases.len() + 1,
        forall|k: int|
            0 <= k < table.leases.len() ==> #[trigger] table1.leases[k] == table.leases[k],
        active1 == active.push((observation, table.next_lease())),
        only_observers(view, Some(table.next_lease())),
        forall|id: u32| #[trigger] carries(view, id) ==> table1.held(id),
{
    let root = crate::value_ops::read_value(
        frame,
        crate::structural::origin(origins, place.root),
    )->Ok_0;
    let seen = crate::place::observed_at(table, root, place.projections@, 0)->Ok_0;
    let (ids, observed, _) = table.reach(seen, Set::empty(), Seq::empty(), 0);
    reaching_collects_what_is_carried(table, seen, Set::empty(), Seq::empty(), 0);
    reached_is_listed_once(table, seen, Set::empty(), Seq::empty(), 0);
    let lease = table.next_lease();
    observing_view_carries_only_observers(table1, seen, Some(lease), 0, view);
    assert forall|id: u32| #[trigger] carries(view, id) implies table1.held(id) by {
        view_carries_what_is_seen(table1, seen, Some(lease), 0, view, id);
        assert(ids.contains(id));
        assert(observed.contains(ResourceId(id)));
        let k = table.leases.len() as int;
        assert(table1.leases[k].holds(ResourceId(id)));
        held_by_an_active_lease(table1, id);
    }
}

/// An observing view carries the resources that what it is a view of
/// carries.
pub proof fn view_carries_what_is_seen(
    table: TableView,
    value: ValueView,
    lease: Option<RuntimeObservationId>,
    depth: nat,
    view: ValueView,
    id: u32,
)
    requires
        table.observing_view(value, lease, depth) == Ok::<ValueView, ErrorView>(view),
    ensures
        carries(view, id) <==> carries(value, id),
    decreases MAX_GENERIC_DEPTH - depth, 0nat,
{
    match value {
        ValueView::Record { fields, .. } => {
            let views = table.observing_views(fields, 0, Seq::empty(), lease, depth + 1)->Ok_0;
            views_carry_what_is_seen(table, fields, 0, Seq::empty(), lease, depth + 1, views, id);
            some_child_carries(fields, views, id);
            assert(view->Record_fields == views);
        },
        ValueView::Variant { payload, .. } => {
            let views = table.observing_views(payload, 0, Seq::empty(), lease, depth + 1)->Ok_0;
            views_carry_what_is_seen(table, payload, 0, Seq::empty(), lease, depth + 1, views, id);
            some_child_carries(payload, views, id);
            assert(view->payload == views);
        },
        _ => {},
    }
}

proof fn some_child_carries(values: Seq<ValueView>, views: Seq<ValueView>, id: u32)
    requires
        views.len() == values.len(),
        forall|j: int|
            0 <= j < values.len() ==> (carries(#[trigger] views[j], id) <==> carries(
                values[j],
                id,
            )),
    ensures
        (exists|j: int| 0 <= j < views.len() && carries(#[trigger] views[j], id)) <==> (exists|
            j: int,
        | 0 <= j < values.len() && carries(#[trigger] values[j], id)),
{
    if exists|j: int| 0 <= j < values.len() && carries(#[trigger] values[j], id) {
        let j = choose|j: int| 0 <= j < values.len() && carries(#[trigger] values[j], id);
        assert(carries(views[j], id));
    }
    if exists|j: int| 0 <= j < views.len() && carries(#[trigger] views[j], id) {
        let j = choose|j: int| 0 <= j < views.len() && carries(#[trigger] views[j], id);
        assert(carries(values[j], id));
    }
}

proof fn views_carry_what_is_seen(
    table: TableView,
    values: Seq<ValueView>,
    i: nat,
    done: Seq<ValueView>,
    lease: Option<RuntimeObservationId>,
    depth: nat,
    views: Seq<ValueView>,
    id: u32,
)
    requires
        table.observing_views(values, i, done, lease, depth) == Ok::<Seq<ValueView>, ErrorView>(
            views,
        ),
        done.len() == i <= values.len(),
        forall|j: int| 0 <= j < i ==> (carries(#[trigger] done[j], id) <==> carries(values[j], id)),
    ensures
        views.len() == values.len(),
        forall|j: int|
            0 <= j < values.len() ==> (carries(#[trigger] views[j], id) <==> carries(
                values[j],
                id,
            )),
    decreases MAX_GENERIC_DEPTH - depth, 1 + values.len() - i,
{
    if i < values.len() {
        let view = table.observing_view(values[i as int], lease, depth)->Ok_0;
        if depth < MAX_GENERIC_DEPTH {
            view_carries_what_is_seen(table, values[i as int], lease, depth, view, id);
        }
        views_carry_what_is_seen(
            table,
            values,
            i + 1,
            done.push(view),
            lease,
            depth,
            views,
            id,
        );
    }
}

/// An observation that began can end at once: that changes no resource,
/// gives back the stack of observations as it was, and stops every
/// handle of the view.
pub proof fn observation_ends_as_it_began(
    table: TableView,
    frame: Map<u32, ValueView>,
    origins: Map<u32, ValueId>,
    active: Seq<(ObservationId, RuntimeObservationId)>,
    observation: ObservationId,
    place: Place,
    table1: TableView,
    active1: Seq<(ObservationId, RuntimeObservationId)>,
    view: ValueView,
)
    requires
        leases_in_order(table),
        table.leases.len() <= u32::MAX,
        all_leased(table, active),
        observation_begun(table, frame, origins, active, observation, place) == (
            table1,
            active1,
            Ok::<ValueView, ErrorView>(view),
        ),
    ensures
        observation_ended(table1, active1, observation) matches Ok((table2, active2)) && {
            &&& table2.records == table.records
            &&& active2 == active
            &&& forall|handle: ResourceHandle| #[trigger]
                has_handle(view, handle) ==> table2.record(handle) is Err
        },
{
    observation_holds_what_it_sees(
        table,
        frame,
        origins,
        active,
        observation,
        place,
        table1,
        active1,
        view,
    );
    let lease = table.next_lease();
    let n = table.leases.len() as int;
    assert(table1.leases[n].id == lease);
    if active.len() > 0 {
        assert(active.last().1.0 < table.leases.len());
    }
    assert(!table1.encloses_active(lease)) by {
        if table1.encloses_active(lease) {
            let k = choose|k: int|
                0 <= k < table1.leases.len() && (#[trigger] table1.leases[k]).parent == Some(lease)
                    && table1.leases[k].status is Active;
            if k < n {
                assert(table.leases[k].parent == Some(lease));
            }
        }
    }
    assert(active1.drop_last() =~= active);
    let table2 = table1.end_lease(lease)->Ok_0;
    assert forall|handle: ResourceHandle| #[trigger]
        has_handle(view, handle) implies table2.record(handle) is Err by {
        handle_of_view_is_bound(view, lease, handle);
    }
}

proof fn handle_of_view_is_bound(
    view: ValueView,
    lease: RuntimeObservationId,
    handle: ResourceHandle,
)
    requires
        only_observers(view, Some(lease)),
        has_handle(view, handle),
    ensures
        handle.lease == Some(lease),
    decreases view,
{
    match view {
        ValueView::Record { fields, .. } => {
            let i = choose|i: int|
                0 <= i < fields.len() && has_handle(#[trigger] fields[i], handle);
            handle_of_view_is_bound(fields[i], lease, handle);
        },
        ValueView::Variant { payload, .. } => {
            let i = choose|i: int|
                0 <= i < payload.len() && has_handle(#[trigger] payload[i], handle);
            handle_of_view_is_bound(payload[i], lease, handle);
        },
        _ => {},
    }
}

/// Only the innermost observation of a frame can end.
pub proof fn only_the_innermost_observation_ends(
    table: TableView,
    active: Seq<(ObservationId, RuntimeObservationId)>,
    observation: ObservationId,
)
    ensures
        observation_ended(table, active, observation) is Ok ==> active.len() > 0
            && active.last().0 == observation,
{
}

} // verus!
