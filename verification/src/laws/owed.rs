use crate::eval::CallView;
use crate::frame::{
    bound_argument, bound_arguments, entered, executed, find_block, BindingView, ContextView,
    LocalsView,
};
use crate::ids::{BlockId, RuntimeObservationId, ValueId};
use crate::interpreter::StateView;
use crate::laws::boundary::new_beyond;
use crate::laws::call::alias_check_passes_where_nothing_is_shared;
use crate::laws::entering::block_is_the_first_of_its_number;
use crate::laws::graph::{
    checking_all_meets_each_once, checking_meets_each_once, reaches, what_is_reached_is_met,
};
use crate::laws::lease::lease_check_passes_where_nothing_is_held;
use crate::laws::step::{nests_within, reached_through_a_child};
use crate::laws::transfer::{carries, children, has_handle, live_throughout};
use crate::layout::param_ids;
use crate::ownership::{
    plan_inner, plan_inner_from, plan_transferring, transferred, PlanView,
};
use crate::program::{
    Instruction, Module, OwnershipMode, Param, ValueKind, MAX_GENERIC_DEPTH,
};
use crate::table::TableView;
use crate::type_ops::{instantiation, substituted};
use crate::types::{Ty, TyView};
use crate::validate::{argument_check, owned_graph, validated, validated_from};
use crate::value::{ResourceHandle, ValueView};
use vstd::prelude::*;

verus! {

broadcast use crate::types::group_type_views;

/// Whether every handle that is reached from a value, however deep, is the
/// current owner's of a resource that is alive.
pub open spec fn lives(table: TableView, value: ValueView) -> bool {
    forall|hops: nat| #[trigger] live_throughout(table, value, hops)
}

/// Whether nothing inside a value itself was moved or destroyed.
pub open spec fn whole(value: ValueView) -> bool
    decreases value,
{
    match value {
        ValueView::Moved => false,
        ValueView::Dropped => false,
        ValueView::Record { fields, .. } => forall|k: int|
            0 <= k < fields.len() ==> whole(#[trigger] fields[k]),
        ValueView::Variant { payload, .. } => forall|k: int|
            0 <= k < payload.len() ==> whole(#[trigger] payload[k]),
        _ => true,
    }
}

/// Whether every handle that a value carries works.
pub open spec fn works(table: TableView, value: ValueView) -> bool {
    forall|handle: ResourceHandle| #[trigger]
        has_handle(value, handle) ==> table.observe(handle) is Ok
}

/// Whether no active lease holds anything that is reached from a value,
/// however deep.
pub open spec fn free(table: TableView, value: ValueView) -> bool {
    forall|id: u32, hops: nat| #[trigger] reaches(table, value, id, hops) ==> !table.held(id)
}

pub(crate) proof fn child_lives(table: TableView, value: ValueView, k: int)
    requires
        value is Record || value is Variant,
        0 <= k < children(value).len(),
        lives(table, value),
    ensures
        lives(table, children(value)[k]),
{
    let child = children(value)[k];
    assert forall|hops: nat| #[trigger] live_throughout(table, child, hops) by {
        assert(live_throughout(table, value, hops));
        assert forall|handle: ResourceHandle| #[trigger] has_handle(child, handle) implies {
            &&& handle.role is Owner
            &&& table.observe(handle) is Ok
            &&& hops > 0 ==> forall|j: int|
                0 <= j < table.records[handle.id.0 as int].fields.len() ==> live_throughout(
                    table,
                    #[trigger] table.records[handle.id.0 as int].fields[j],
                    (hops - 1) as nat,
                )
        } by {
            assert(has_handle(value, handle));
        }
    }
}

pub(crate) proof fn field_lives(table: TableView, handle: ResourceHandle, k: int)
    requires
        lives(table, ValueView::Resource(handle)),
        0 <= k < table.records[handle.id.0 as int].fields.len(),
    ensures
        lives(table, table.records[handle.id.0 as int].fields[k]),
{
    let value = ValueView::Resource(handle);
    let field = table.records[handle.id.0 as int].fields[k];
    assert forall|hops: nat| #[trigger] live_throughout(table, field, hops) by {
        assert(live_throughout(table, value, (hops + 1) as nat));
        assert(has_handle(value, handle));
    }
}

pub(crate) proof fn owner_lives(table: TableView, handle: ResourceHandle)
    requires
        lives(table, ValueView::Resource(handle)),
    ensures
        handle.role is Owner,
        table.observe(handle) is Ok,
{
    assert(live_throughout(table, ValueView::Resource(handle), 0));
    assert(has_handle(ValueView::Resource(handle), handle));
}

proof fn owning_what_lives(
    module: Module,
    table: TableView,
    value: ValueView,
    expected: Option<TyView>,
    seen: Set<u32>,
    depth: nat,
    owned: Set<u32>,
    level: nat,
)
    requires
        validated(module, table, value, expected, seen, depth).1 is Ok,
        level <= depth,
        new_beyond(seen, validated(module, table, value, expected, seen, depth).0, owned),
        lives(table, value),
    ensures
        table.own_alive(value, owned, level).1 is Ok,
        table.own_alive(value, owned, level).0 == owned.union(
            validated(module, table, value, expected, seen, depth).0.difference(seen),
        ),
    decreases MAX_GENERIC_DEPTH - depth, 0nat,
{
    let after = validated(module, table, value, expected, seen, depth).0;
    match value {
        ValueView::Resource(handle) => {
            let record = table.record(handle)->Ok_0;
            let declared = module.record_field_types(record.item, Seq::empty())->Ok_0;
            let seen1 = seen.insert(handle.id.0);
            checking_all_meets_each_once(
                module,
                table,
                record.fields,
                declared,
                0,
                seen1,
                depth + 1,
            );
            assert(after.contains(handle.id.0));
            assert(!owned.contains(handle.id.0));
            assert(new_beyond(seen1, after, owned.insert(handle.id.0)));
            owner_lives(table, handle);
            assert forall|k: int| 0 <= k < record.fields.len() implies lives(
                table,
                #[trigger] record.fields[k],
            ) by {
                field_lives(table, handle, k);
            }
            owning_what_lives_in_lists(
                module,
                table,
                record.fields,
                declared,
                0,
                seen1,
                depth + 1,
                owned.insert(handle.id.0),
                level + 1,
            );
        },
        ValueView::Record { item, type_args, fields } => {
            let declared = module.record_field_types(item, type_args)->Ok_0;
            assert forall|k: int| 0 <= k < fields.len() implies lives(
                table,
                #[trigger] fields[k],
            ) by {
                assert(children(value) == fields);
                child_lives(table, value, k);
            }
            owning_what_lives_in_lists(
                module,
                table,
                fields,
                declared,
                0,
                seen,
                depth + 1,
                owned,
                level + 1,
            );
        },
        ValueView::Variant { item, type_args, case, payload } => {
            let declared = module.case_payload_types(item, type_args, case)->Ok_0;
            assert forall|k: int| 0 <= k < payload.len() implies lives(
                table,
                #[trigger] payload[k],
            ) by {
                assert(children(value) == payload);
                child_lives(table, value, k);
            }
            owning_what_lives_in_lists(
                module,
                table,
                payload,
                declared,
                0,
                seen,
                depth + 1,
                owned,
                level + 1,
            );
        },
        _ => {},
    }
    assert(table.own_alive(value, owned, level).0 =~= owned.union(after.difference(seen)));
}

proof fn owning_what_lives_in_lists(
    module: Module,
    table: TableView,
    values: Seq<ValueView>,
    declared: Seq<TyView>,
    i: nat,
    seen: Set<u32>,
    depth: nat,
    owned: Set<u32>,
    level: nat,
)
    requires
        validated_from(module, table, values, declared, i, seen, depth).1 is Ok,
        level <= depth,
        new_beyond(
            seen,
            validated_from(module, table, values, declared, i, seen, depth).0,
            owned,
        ),
        forall|k: int| i <= k < values.len() ==> lives(table, #[trigger] values[k]),
    ensures
        table.own_alive_from(values, i, owned, level).1 is Ok,
        table.own_alive_from(values, i, owned, level).0 == owned.union(
            validated_from(module, table, values, declared, i, seen, depth).0.difference(seen),
        ),
    decreases MAX_GENERIC_DEPTH - depth, 1 + values.len() - i,
{
    let after = validated_from(module, table, values, declared, i, seen, depth).0;
    if i < values.len() {
        let value = values[i as int];
        let expected = Some(declared[i as int]);
        let seen1 = validated(module, table, value, expected, seen, depth).0;
        checking_meets_each_once(module, table, value, expected, seen, depth);
        checking_all_meets_each_once(module, table, values, declared, i + 1, seen1, depth);
        assert forall|id: u32| #[trigger]
            seen1.contains(id) && !seen.contains(id) implies !owned.contains(id) by {
            assert(after.contains(id));
        }
        owning_what_lives(module, table, value, expected, seen, depth, owned, level);
        let owned1 = owned.union(seen1.difference(seen));
        assert(new_beyond(seen1, after, owned1));
        owning_what_lives_in_lists(module, table, values, declared, i + 1, seen1, depth, owned1, level);
        assert(owned1.union(after.difference(seen1)) =~= owned.union(after.difference(seen)));
    } else {
        assert(owned.union(after.difference(seen)) =~= owned);
    }
}

pub(crate) proof fn owning(
    module: Module,
    table: TableView,
    value: ValueView,
    expected: Option<TyView>,
    seen: Set<u32>,
    depth: nat,
    owned: Set<u32>,
    level: nat,
)
    requires
        validated(module, table, value, expected, seen, depth).1 is Ok,
        level <= depth,
        new_beyond(seen, validated(module, table, value, expected, seen, depth).0, owned),
    ensures
        table.own(value, owned, level).1 is Ok,
        table.own(value, owned, level).0 == owned.union(
            validated(module, table, value, expected, seen, depth).0.difference(seen),
        ),
    decreases MAX_GENERIC_DEPTH - depth, 0nat,
{
    let after = validated(module, table, value, expected, seen, depth).0;
    match value {
        ValueView::Resource(handle) => {
            let record = table.record(handle)->Ok_0;
            let declared = module.record_field_types(record.item, Seq::empty())->Ok_0;
            let seen1 = seen.insert(handle.id.0);
            checking_all_meets_each_once(
                module,
                table,
                record.fields,
                declared,
                0,
                seen1,
                depth + 1,
            );
            assert(after.contains(handle.id.0));
            assert(!owned.contains(handle.id.0));
            assert(new_beyond(seen1, after, owned.insert(handle.id.0)));
            owning_in_lists(
                module,
                table,
                record.fields,
                declared,
                0,
                seen1,
                depth + 1,
                owned.insert(handle.id.0),
                level + 1,
            );
        },
        ValueView::Record { item, type_args, fields } => {
            let declared = module.record_field_types(item, type_args)->Ok_0;
            owning_in_lists(
                module,
                table,
                fields,
                declared,
                0,
                seen,
                depth + 1,
                owned,
                level + 1,
            );
        },
        ValueView::Variant { item, type_args, case, payload } => {
            let declared = module.case_payload_types(item, type_args, case)->Ok_0;
            owning_in_lists(
                module,
                table,
                payload,
                declared,
                0,
                seen,
                depth + 1,
                owned,
                level + 1,
            );
        },
        _ => {},
    }
    assert(table.own(value, owned, level).0 =~= owned.union(after.difference(seen)));
}

proof fn owning_in_lists(
    module: Module,
    table: TableView,
    values: Seq<ValueView>,
    declared: Seq<TyView>,
    i: nat,
    seen: Set<u32>,
    depth: nat,
    owned: Set<u32>,
    level: nat,
)
    requires
        validated_from(module, table, values, declared, i, seen, depth).1 is Ok,
        level <= depth,
        new_beyond(
            seen,
            validated_from(module, table, values, declared, i, seen, depth).0,
            owned,
        ),
    ensures
        table.own_from(values, i, owned, level).1 is Ok,
        table.own_from(values, i, owned, level).0 == owned.union(
            validated_from(module, table, values, declared, i, seen, depth).0.difference(seen),
        ),
    decreases MAX_GENERIC_DEPTH - depth, 1 + values.len() - i,
{
    let after = validated_from(module, table, values, declared, i, seen, depth).0;
    if i < values.len() {
        let value = values[i as int];
        let expected = Some(declared[i as int]);
        let seen1 = validated(module, table, value, expected, seen, depth).0;
        checking_meets_each_once(module, table, value, expected, seen, depth);
        checking_all_meets_each_once(module, table, values, declared, i + 1, seen1, depth);
        assert forall|id: u32| #[trigger]
            seen1.contains(id) && !seen.contains(id) implies !owned.contains(id) by {
            assert(after.contains(id));
        }
        owning(module, table, value, expected, seen, depth, owned, level);
        let owned1 = owned.union(seen1.difference(seen));
        assert(new_beyond(seen1, after, owned1));
        owning_in_lists(module, table, values, declared, i + 1, seen1, depth, owned1, level);
        assert(owned1.union(after.difference(seen1)) =~= owned.union(after.difference(seen)));
    } else {
        assert(owned.union(after.difference(seen)) =~= owned);
    }
}

proof fn planning_succeeds(
    module: Module,
    table: TableView,
    value: ValueView,
    expected: Option<TyView>,
    seen: Set<u32>,
    depth: nat,
    plan: PlanView,
    level: nat,
)
    requires
        validated(module, table, value, expected, seen, depth).1 is Ok,
        level <= depth,
        new_beyond(
            seen,
            validated(module, table, value, expected, seen, depth).0,
            plan.reachable,
        ),
        lives(table, value),
        whole(value),
    ensures
        plan_inner(module, table, value, plan, level).1 is Ok,
        plan_inner(module, table, value, plan, level).0.reachable == plan.reachable.union(
            validated(module, table, value, expected, seen, depth).0.difference(seen),
        ),
    decreases MAX_GENERIC_DEPTH - depth, 0nat,
{
    let after = validated(module, table, value, expected, seen, depth).0;
    match value {
        ValueView::Resource(handle) => {
            let record = table.record(handle)->Ok_0;
            let declared = module.record_field_types(record.item, Seq::empty())->Ok_0;
            let seen1 = seen.insert(handle.id.0);
            checking_all_meets_each_once(
                module,
                table,
                record.fields,
                declared,
                0,
                seen1,
                depth + 1,
            );
            assert(after.contains(handle.id.0));
            assert(!plan.reachable.contains(handle.id.0));
            assert(new_beyond(seen1, after, plan.reachable.insert(handle.id.0)));
            owner_lives(table, handle);
            assert forall|k: int| 0 <= k < record.fields.len() implies lives(
                table,
                #[trigger] record.fields[k],
            ) by {
                field_lives(table, handle, k);
            }
            owning_what_lives_in_lists(
                module,
                table,
                record.fields,
                declared,
                0,
                seen1,
                depth + 1,
                plan.reachable.insert(handle.id.0),
                1,
            );
        },
        ValueView::Record { item, type_args, fields } => {
            let declared = module.record_field_types(item, type_args)->Ok_0;
            assert forall|k: int| 0 <= k < fields.len() implies lives(
                table,
                #[trigger] fields[k],
            ) by {
                assert(children(value) == fields);
                child_lives(table, value, k);
            }
            planning_succeeds_in_lists(
                module,
                table,
                fields,
                declared,
                0,
                seen,
                depth + 1,
                Seq::empty(),
                plan,
                level + 1,
            );
        },
        ValueView::Variant { item, type_args, case, payload } => {
            let declared = module.case_payload_types(item, type_args, case)->Ok_0;
            assert forall|k: int| 0 <= k < payload.len() implies lives(
                table,
                #[trigger] payload[k],
            ) by {
                assert(children(value) == payload);
                child_lives(table, value, k);
            }
            planning_succeeds_in_lists(
                module,
                table,
                payload,
                declared,
                0,
                seen,
                depth + 1,
                Seq::empty(),
                plan,
                level + 1,
            );
        },
        _ => {},
    }
    assert(plan_inner(module, table, value, plan, level).0.reachable =~= plan.reachable.union(
        after.difference(seen),
    ));
}

proof fn planning_succeeds_in_lists(
    module: Module,
    table: TableView,
    values: Seq<ValueView>,
    declared: Seq<TyView>,
    i: nat,
    seen: Set<u32>,
    depth: nat,
    done: Seq<ValueView>,
    plan: PlanView,
    level: nat,
)
    requires
        validated_from(module, table, values, declared, i, seen, depth).1 is Ok,
        level <= depth,
        new_beyond(
            seen,
            validated_from(module, table, values, declared, i, seen, depth).0,
            plan.reachable,
        ),
        forall|k: int|
            i <= k < values.len() ==> lives(table, #[trigger] values[k]) && whole(values[k]),
    ensures
        plan_inner_from(module, table, values, i, done, plan, level).1 is Ok,
        plan_inner_from(module, table, values, i, done, plan, level).0.reachable
            == plan.reachable.union(
            validated_from(module, table, values, declared, i, seen, depth).0.difference(seen),
        ),
    decreases MAX_GENERIC_DEPTH - depth, 1 + values.len() - i,
{
    let after = validated_from(module, table, values, declared, i, seen, depth).0;
    if i < values.len() {
        let value = values[i as int];
        let expected = Some(declared[i as int]);
        let seen1 = validated(module, table, value, expected, seen, depth).0;
        checking_meets_each_once(module, table, value, expected, seen, depth);
        checking_all_meets_each_once(module, table, values, declared, i + 1, seen1, depth);
        assert forall|id: u32| #[trigger]
            seen1.contains(id) && !seen.contains(id) implies !plan.reachable.contains(id) by {
            assert(after.contains(id));
        }
        planning_succeeds(module, table, value, expected, seen, depth, plan, level);
        let (plan1, r) = plan_inner(module, table, value, plan, level);
        assert(new_beyond(seen1, after, plan1.reachable));
        planning_succeeds_in_lists(
            module,
            table,
            values,
            declared,
            i + 1,
            seen1,
            depth,
            done.push(r->Ok_0),
            plan1,
            level,
        );
        assert(plan1.reachable.union(after.difference(seen1)) =~= plan.reachable.union(
            after.difference(seen),
        ));
    } else {
        assert(plan.reachable.union(after.difference(seen)) =~= plan.reachable);
    }
}

pub(crate) proof fn met_is_reached(
    module: Module,
    table: TableView,
    value: ValueView,
    expected: Option<TyView>,
    seen: Set<u32>,
    depth: nat,
    id: u32,
) -> (hops: nat)
    requires
        validated(module, table, value, expected, seen, depth).1 is Ok,
        validated(module, table, value, expected, seen, depth).0.contains(id),
        !seen.contains(id),
    ensures
        reaches(table, value, id, hops),
    decreases MAX_GENERIC_DEPTH - depth, 0nat,
{
    match value {
        ValueView::Resource(handle) => {
            if handle.id.0 == id {
                0
            } else {
                let record = table.record(handle)->Ok_0;
                let declared = module.record_field_types(record.item, Seq::empty())->Ok_0;
                let (k, hops) = one_met_is_reached(
                    module,
                    table,
                    record.fields,
                    declared,
                    0,
                    seen.insert(handle.id.0),
                    depth + 1,
                    id,
                );
                assert(has_handle(value, handle));
                assert(reaches(table, table.records[handle.id.0 as int].fields[k], id, hops));
                hops + 1
            }
        },
        ValueView::Record { item, type_args, fields } => {
            let declared = module.record_field_types(item, type_args)->Ok_0;
            let (k, hops) = one_met_is_reached(
                module,
                table,
                fields,
                declared,
                0,
                seen,
                depth + 1,
                id,
            );
            assert(children(value) == fields);
            reached_through_a_child(table, value, k, id, hops);
            hops
        },
        ValueView::Variant { item, type_args, case, payload } => {
            let declared = module.case_payload_types(item, type_args, case)->Ok_0;
            let (k, hops) = one_met_is_reached(
                module,
                table,
                payload,
                declared,
                0,
                seen,
                depth + 1,
                id,
            );
            assert(children(value) == payload);
            reached_through_a_child(table, value, k, id, hops);
            hops
        },
        _ => 0,
    }
}

proof fn one_met_is_reached(
    module: Module,
    table: TableView,
    values: Seq<ValueView>,
    declared: Seq<TyView>,
    i: nat,
    seen: Set<u32>,
    depth: nat,
    id: u32,
) -> (r: (int, nat))
    requires
        validated_from(module, table, values, declared, i, seen, depth).1 is Ok,
        validated_from(module, table, values, declared, i, seen, depth).0.contains(id),
        !seen.contains(id),
    ensures
        i <= r.0 < values.len(),
        reaches(table, values[r.0], id, r.1),
    decreases MAX_GENERIC_DEPTH - depth, 1 + values.len() - i,
{
    if i < values.len() {
        let value = values[i as int];
        let expected = Some(declared[i as int]);
        let seen1 = validated(module, table, value, expected, seen, depth).0;
        if seen1.contains(id) {
            let hops = met_is_reached(module, table, value, expected, seen, depth, id);
            (i as int, hops)
        } else {
            one_met_is_reached(module, table, values, declared, i + 1, seen1, depth, id)
        }
    } else {
        (0, 0)
    }
}

pub(crate) proof fn checked_value_nests(
    module: Module,
    table: TableView,
    value: ValueView,
    expected: Option<TyView>,
    seen: Set<u32>,
    depth: nat,
)
    requires
        validated(module, table, value, expected, seen, depth).1 is Ok,
    ensures
        depth < MAX_GENERIC_DEPTH,
        nests_within(value, (MAX_GENERIC_DEPTH - depth) as nat),
    decreases MAX_GENERIC_DEPTH - depth, 0nat,
{
    match value {
        ValueView::Record { item, type_args, fields } => {
            let declared = module.record_field_types(item, type_args)->Ok_0;
            checked_values_nest(module, table, fields, declared, 0, seen, depth + 1);
        },
        ValueView::Variant { item, type_args, case, payload } => {
            let declared = module.case_payload_types(item, type_args, case)->Ok_0;
            checked_values_nest(module, table, payload, declared, 0, seen, depth + 1);
        },
        _ => {},
    }
}

proof fn checked_values_nest(
    module: Module,
    table: TableView,
    values: Seq<ValueView>,
    declared: Seq<TyView>,
    i: nat,
    seen: Set<u32>,
    depth: nat,
)
    requires
        validated_from(module, table, values, declared, i, seen, depth).1 is Ok,
    ensures
        forall|k: int|
            i <= k < values.len() ==> nests_within(
                #[trigger] values[k],
                (MAX_GENERIC_DEPTH - depth) as nat,
            ),
    decreases MAX_GENERIC_DEPTH - depth, 1 + values.len() - i,
{
    if i < values.len() {
        let value = values[i as int];
        let expected = Some(declared[i as int]);
        let seen1 = validated(module, table, value, expected, seen, depth).0;
        checked_value_nests(module, table, value, expected, seen, depth);
        checked_values_nest(module, table, values, declared, i + 1, seen1, depth);
    }
}

/// A value whose handles work, nested no deeper than values may be, can be
/// observed.
pub proof fn working_value_can_be_observed(
    table: TableView,
    value: ValueView,
    lease: Option<RuntimeObservationId>,
    depth: nat,
)
    requires
        depth <= MAX_GENERIC_DEPTH,
        nests_within(value, (MAX_GENERIC_DEPTH - depth) as nat),
        works(table, value),
    ensures
        table.observing_view(value, lease, depth) is Ok,
    decreases MAX_GENERIC_DEPTH - depth, 0nat,
{
    match value {
        ValueView::Resource(handle) => {
            assert(has_handle(value, handle));
        },
        ValueView::Record { fields, .. } => {
            assert forall|k: int| 0 <= k < fields.len()
                implies works(table, #[trigger] fields[k]) by {
                assert forall|handle: ResourceHandle| #[trigger]
                    has_handle(fields[k], handle) implies table.observe(handle) is Ok by {
                    assert(has_handle(value, handle));
                }
            }
            working_values_can_be_observed(table, fields, 0, Seq::empty(), lease, depth + 1);
        },
        ValueView::Variant { payload, .. } => {
            assert forall|k: int| 0 <= k < payload.len() implies works(
                table,
                #[trigger] payload[k],
            ) by {
                assert forall|handle: ResourceHandle| #[trigger]
                    has_handle(payload[k], handle) implies table.observe(handle) is Ok by {
                    assert(has_handle(value, handle));
                }
            }
            working_values_can_be_observed(table, payload, 0, Seq::empty(), lease, depth + 1);
        },
        _ => {},
    }
}

proof fn working_values_can_be_observed(
    table: TableView,
    values: Seq<ValueView>,
    i: nat,
    done: Seq<ValueView>,
    lease: Option<RuntimeObservationId>,
    depth: nat,
)
    requires
        depth <= MAX_GENERIC_DEPTH,
        forall|k: int|
            i <= k < values.len() ==> nests_within(
                #[trigger] values[k],
                (MAX_GENERIC_DEPTH - depth) as nat,
            ) && works(table, values[k]),
    ensures
        table.observing_views(values, i, done, lease, depth) is Ok,
    decreases MAX_GENERIC_DEPTH - depth, 1 + values.len() - i,
{
    if i < values.len() {
        working_value_can_be_observed(table, values[i as int], lease, depth);
        let view = table.observing_view(values[i as int], lease, depth)->Ok_0;
        working_values_can_be_observed(table, values, i + 1, done.push(view), lease, depth);
    }
}

// ---------------------------------------------------------------------
// What can be moved.
// ---------------------------------------------------------------------

/// Whether a value can be moved: it is well-formed, nothing in it was
/// moved or destroyed, everything it owns is alive and owned by it, and no
/// active observation holds any of it.
pub open spec fn movable(module: Module, table: TableView, value: ValueView) -> bool {
    &&& owned_graph(module, table, value) is Ok
    &&& whole(value)
    &&& lives(table, value)
    &&& free(table, value)
}

pub(crate) proof fn movable_value_is_planned(
    module: Module,
    table: TableView,
    value: ValueView,
    plan: PlanView,
)
    requires
        movable(module, table, value),
        forall|id: u32| #[trigger] plan.reachable.contains(id) ==> !table.held(id),
        forall|id: u32, hops: nat| #[trigger]
            reaches(table, value, id, hops) ==> !plan.reachable.contains(id),
    ensures
        plan_transferring(module, table, value, plan, 0).1 is Ok,
        plan_transferring(module, table, value, plan, 0).0.reachable == plan.reachable.union(
            validated(module, table, value, None, Set::empty(), 0).0,
        ),
        forall|id: u32| #[trigger]
            plan_transferring(module, table, value, plan, 0).0.reachable.contains(id)
                ==> !table.held(id),
{
    let met = validated(module, table, value, None, Set::empty(), 0).0;
    assert forall|id: u32| #[trigger] met.contains(id) implies !plan.reachable.contains(id)
        && !table.held(id) by {
        let hops = met_is_reached(module, table, value, None, Set::empty(), 0, id);
        assert(reaches(table, value, id, hops));
    }
    assert(new_beyond(Set::empty(), met, plan.reachable));
    planning_succeeds(module, table, value, None, Set::empty(), 0, plan, 0);
    assert(met.difference(Set::empty()) =~= met);
    let reachable = plan_inner(module, table, value, plan, 0).0.reachable;
    lease_check_passes_where_nothing_is_held(table, reachable, "transferred"@);
}

/// A value that can be moved is moved, and captured where it fits the type
/// declared for the capture.
pub proof fn movable_value_is_moved(
    module: Module,
    state: StateView,
    locals: LocalsView,
    context: ContextView,
    result: ValueId,
    ty: Ty,
    source: ValueId,
    depth: nat,
)
    requires
        locals.values.contains_key(source.0),
        movable(module, state.table, locals.values[source.0]),
    ensures
        executed(
            module,
            state,
            Instruction::Value { result, ty, kind: ValueKind::Move { source } },
            locals,
            context,
            depth,
        ).2 is Ok,
        argument_check(
            module,
            state.table,
            locals.values[source.0],
            substituted(ty@, context.subst),
        ) is Ok ==> executed(
            module,
            state,
            Instruction::Value { result, ty, kind: ValueKind::DeferCapture { source } },
            locals,
            context,
            depth,
        ).2 is Ok,
{
    movable_value_is_planned(module, state.table, locals.values[source.0], PlanView::empty());
}

/// A value that can be moved, and fits, is stored into a slot that owns
/// nothing, or nothing but what is reached from the value; and one whose
/// handles work is stored to be observed into a slot that owns nothing.
pub proof fn movable_value_is_stored(
    module: Module,
    state: StateView,
    locals: LocalsView,
    context: ContextView,
    slot: ValueId,
    value: ValueId,
    depth: nat,
)
    requires
        locals.values.contains_key(value.0),
        context.slots.contains_key(slot.0) ==> argument_check(
            module,
            state.table,
            locals.values[value.0],
            substituted(context.slots[slot.0], context.subst),
        ) is Ok,
    ensures
        movable(module, state.table, locals.values[value.0]) && (locals.values.contains_key(slot.0)
            ==> owns_within(state.table, locals.values[slot.0], locals.values[value.0]))
            ==> executed(
            module,
            state,
            Instruction::Store { slot, value, mode: OwnershipMode::Transfer },
            locals,
            context,
            depth,
        ).2 is Ok,
        works(state.table, locals.values[value.0]) && nests_within(
            locals.values[value.0],
            MAX_GENERIC_DEPTH as nat,
        ) && (locals.values.contains_key(slot.0) ==> owns_within(
            state.table,
            locals.values[slot.0],
            ValueView::Unit,
        )) ==> executed(
            module,
            state,
            Instruction::Store { slot, value, mode: OwnershipMode::Observe },
            locals,
            context,
            depth,
        ).2 is Ok,
{
    let table = state.table;
    let incoming = locals.values[value.0];
    let held = locals.values[slot.0];
    if movable(module, table, incoming) && (locals.values.contains_key(slot.0) ==> owns_within(
        table,
        held,
        incoming,
    )) {
        movable_value_is_planned(module, table, incoming, PlanView::empty());
        let retired = plan_transferring(
            module,
            table,
            incoming,
            PlanView::empty(),
            0,
        ).0.reachable;
        if locals.values.contains_key(slot.0) {
            assert forall|handle: ResourceHandle| #[trigger] has_handle(held, handle) implies (
            handle.role is Observer || table.record(handle) is Err || retired.contains(
                handle.id.0,
            )) by {
                if !(handle.role is Observer) && table.record(handle) is Ok {
                    let hops = choose|hops: nat| #[trigger]
                        reaches(table, incoming, handle.id.0, hops);
                    what_is_reached_is_met(
                        module,
                        table,
                        incoming,
                        None,
                        Set::empty(),
                        0,
                        handle.id.0,
                        hops,
                    );
                }
            }
            nothing_else_is_owned(table, held, Set::empty(), 0, retired);
        }
    }
    if works(table, incoming) && nests_within(incoming, MAX_GENERIC_DEPTH as nat) {
        working_value_can_be_observed(table, incoming, None, 0);
        if locals.values.contains_key(slot.0) && owns_within(table, held, ValueView::Unit) {
            assert forall|handle: ResourceHandle| #[trigger] has_handle(held, handle) implies (
            handle.role is Observer || table.record(handle) is Err || Set::<
                u32,
            >::empty().contains(handle.id.0)) by {
                if !(handle.role is Observer) && table.record(handle) is Ok {
                    let hops = choose|hops: nat| #[trigger]
                        reaches(table, ValueView::Unit, handle.id.0, hops);
                    assert(!carries(ValueView::Unit, handle.id.0));
                }
            }
            nothing_else_is_owned(table, held, Set::empty(), 0, Set::empty());
        }
    }
}

/// Whether a value owns nothing but what is reached from `other`: every
/// other handle it carries observes or is stale.
pub open spec fn owns_within(table: TableView, value: ValueView, other: ValueView) -> bool {
    forall|handle: ResourceHandle| #[trigger]
        has_handle(value, handle) ==> handle.role is Observer || table.record(handle) is Err
            || exists|hops: nat| #[trigger] reaches(table, other, handle.id.0, hops)
}

pub(crate) proof fn nothing_else_is_owned(
    table: TableView,
    value: ValueView,
    seen: Set<u32>,
    depth: nat,
    exiting: Set<u32>,
)
    requires
        forall|handle: ResourceHandle| #[trigger]
            has_handle(value, handle) ==> handle.role is Observer || table.record(handle) is Err
                || exiting.contains(handle.id.0),
    ensures
        !table.owns_live(value, seen, depth, exiting).1,
    decreases MAX_GENERIC_DEPTH - depth, 0nat,
{
    if depth < MAX_GENERIC_DEPTH {
        match value {
            ValueView::Resource(handle) => {
                assert(has_handle(value, handle));
            },
            ValueView::Record { fields, .. } => {
                assert forall|k: int, handle: ResourceHandle|
                    0 <= k < fields.len() && #[trigger] has_handle(
                        fields[k],
                        handle,
                    ) implies handle.role is Observer || table.record(handle) is Err
                    || exiting.contains(handle.id.0) by {
                    assert(has_handle(value, handle));
                }
                nothing_else_in_lists_is_owned(table, fields, 0, seen, depth + 1, exiting);
            },
            ValueView::Variant { payload, .. } => {
                assert forall|k: int, handle: ResourceHandle|
                    0 <= k < payload.len() && #[trigger] has_handle(
                        payload[k],
                        handle,
                    ) implies handle.role is Observer || table.record(handle) is Err
                    || exiting.contains(handle.id.0) by {
                    assert(has_handle(value, handle));
                }
                nothing_else_in_lists_is_owned(table, payload, 0, seen, depth + 1, exiting);
            },
            _ => {},
        }
    }
}

proof fn nothing_else_in_lists_is_owned(
    table: TableView,
    values: Seq<ValueView>,
    i: nat,
    seen: Set<u32>,
    depth: nat,
    exiting: Set<u32>,
)
    requires
        forall|k: int, handle: ResourceHandle|
            i <= k < values.len() && #[trigger] has_handle(values[k], handle) ==> handle.role
                is Observer || table.record(handle) is Err || exiting.contains(handle.id.0),
    ensures
        !table.owns_live_from(values, i, seen, depth, exiting).1,
    decreases MAX_GENERIC_DEPTH - depth, 1 + values.len() - i,
{
    if i < values.len() {
        nothing_else_is_owned(table, values[i as int], seen, depth, exiting);
        let seen1 = table.owns_live(values[i as int], seen, depth, exiting).0;
        nothing_else_in_lists_is_owned(table, values, i + 1, seen1, depth, exiting);
    }
}

// ---------------------------------------------------------------------
// What can be called.
// ---------------------------------------------------------------------

/// Whether an argument can be passed: it fits its parameter, and can be
/// moved where it is taken, or observed where it is not.
pub open spec fn passable(
    module: Module,
    table: TableView,
    param: Param,
    arg: ValueView,
    subst: Map<u32, TyView>,
) -> bool {
    &&& argument_check(module, table, arg, substituted(param.ty@, subst)) is Ok
    &&& if param.take {
        movable(module, table, arg)
    } else {
        works(table, arg)
    }
}

/// Whether nothing that is reached from a taken argument is reached from
/// another argument.
pub open spec fn passed_apart(
    table: TableView,
    params: Seq<Param>,
    args: Seq<ValueView>,
) -> bool {
    forall|j: int, k: int, id: u32, hops: nat, hops1: nat|
        0 <= j < params.len() && 0 <= k < params.len() && j != k && (#[trigger] params[j]).take
            && #[trigger] reaches(table, args[j], id, hops) ==> !#[trigger] reaches(
            table,
            args[k],
            id,
            hops1,
        )
}

/// Whether `id` is reached from one of the first `n` arguments that are
/// taken, or from one that are not.
spec fn reached_before(
    table: TableView,
    params: Seq<Param>,
    args: Seq<ValueView>,
    n: int,
    take: bool,
    id: u32,
) -> bool {
    exists|k: int, hops: nat|
        0 <= k < n && (#[trigger] params[k]).take == take && #[trigger] reaches(
            table,
            args[k],
            id,
            hops,
        )
}

proof fn passable_arguments_are_bound(
    module: Module,
    table: TableView,
    params: Seq<Param>,
    args: Seq<ValueView>,
    subst: Map<u32, TyView>,
    i: nat,
    binding: BindingView,
)
    requires
        i <= params.len(),
        args.len() == params.len(),
        forall|k: int|
            0 <= k < params.len() ==> passable(module, table, #[trigger] params[k], args[k], subst),
        passed_apart(table, params, args),
        forall|id: u32| #[trigger] binding.plan.reachable.contains(id) ==> !table.held(id),
        forall|id: u32| #[trigger]
            binding.plan.reachable.contains(id) ==> reached_before(
                table,
                params,
                args,
                i as int,
                true,
                id,
            ),
        forall|id: u32| #[trigger]
            binding.observed.contains(id) ==> reached_before(
                table,
                params,
                args,
                i as int,
                false,
                id,
            ),
    ensures
        bound_arguments(module, table, params, args, subst, i, binding) matches Ok(last) && {
            &&& forall|id: u32| #[trigger]
                last.plan.reachable.contains(id) ==> reached_before(
                    table,
                    params,
                    args,
                    params.len() as int,
                    true,
                    id,
                )
            &&& forall|id: u32| #[trigger]
                last.observed.contains(id) ==> reached_before(
                    table,
                    params,
                    args,
                    params.len() as int,
                    false,
                    id,
                )
        },
    decreases params.len() - i,
{
    if i < params.len() {
        let param = params[i as int];
        let arg = args[i as int];
        assert(passable(module, table, param, arg, subst));
        let met = validated(module, table, arg, None, Set::empty(), 0).0;
        assert forall|id: u32| #[trigger] met.contains(id) implies reached_before(
            table,
            params,
            args,
            (i + 1) as int,
            param.take,
            id,
        ) by {
            let hops = met_is_reached(module, table, arg, None, Set::empty(), 0, id);
            assert(params[i as int].take == param.take && reaches(table, args[i as int], id, hops));
        }
        assert forall|id: u32, take: bool| #[trigger]
            reached_before(table, params, args, i as int, take, id) implies reached_before(
            table,
            params,
            args,
            (i + 1) as int,
            take,
            id,
        ) by {
            let (k, hops) = choose|k: int, hops: nat|
                0 <= k < i && (#[trigger] params[k]).take == take && #[trigger] reaches(
                    table,
                    args[k],
                    id,
                    hops,
                );
            assert(params[k].take == take && reaches(table, args[k], id, hops));
        }
        if param.take {
            assert forall|id: u32, hops: nat| #[trigger]
                reaches(table, arg, id, hops) implies !binding.plan.reachable.contains(id) by {
                if binding.plan.reachable.contains(id) {
                    let (k, hops1) = choose|k: int, hops1: nat|
                        0 <= k < i && (#[trigger] params[k]).take == true && #[trigger] reaches(
                            table,
                            args[k],
                            id,
                            hops1,
                        );
                    assert(params[i as int].take && reaches(table, args[i as int], id, hops)
                        && reaches(table, args[k], id, hops1));
                }
            }
            movable_value_is_planned(module, table, arg, binding.plan);
        } else {
            assert(new_beyond(Set::empty(), met, Set::empty()));
            owning(module, table, arg, None, Set::empty(), 0, Set::empty(), 0);
            assert(Set::<u32>::empty().union(met.difference(Set::empty())) =~= met);
            checked_value_nests(module, table, arg, None, Set::empty(), 0);
            working_value_can_be_observed(table, arg, None, 0);
        }
        let next = bound_argument(module, table, param, arg, subst, binding)->Ok_0;
        passable_arguments_are_bound(module, table, params, args, subst, i + 1, next);
    }
}

/// A call whose counts are right, whose arguments can all be passed, and
/// that takes nothing another argument reaches, is entered if its function
/// has a first block.
pub proof fn passable_call_is_entered(
    module: Module,
    table: TableView,
    call: CallView,
    subst: Map<u32, TyView>,
)
    requires
        call.args.len() == call.callee.params@.len(),
        call.evidence.len() == call.callee.requirements@.len(),
        instantiation(param_ids(call.callee.type_params@), call.type_args) == Some(subst),
        forall|k: int|
            0 <= k < call.args.len() ==> passable(
                module,
                table,
                #[trigger] call.callee.params@[k],
                call.args[k],
                subst,
            ),
        passed_apart(table, call.callee.params@, call.args),
        exists|k: int|
            0 <= k < call.callee.blocks@.len() && (#[trigger] call.callee.blocks@[k]).id == BlockId(
                0,
            ),
    ensures
        entered(module, table, call) is Ok,
{
    let params = call.callee.params@;
    passable_arguments_are_bound(
        module,
        table,
        params,
        call.args,
        subst,
        0,
        BindingView::empty(),
    );
    let binding = bound_arguments(
        module,
        table,
        params,
        call.args,
        subst,
        0,
        BindingView::empty(),
    )->Ok_0;
    assert forall|id: u32| #[trigger] binding.plan.reachable.contains(
        id,
    ) implies !binding.observed.contains(id) by {
        if binding.observed.contains(id) {
            let n = params.len() as int;
            assert(reached_before(table, params, call.args, n, true, id));
            assert(reached_before(table, params, call.args, n, false, id));
            let (j, hops) = choose|j: int, hops: nat|
                0 <= j < n && (#[trigger] params[j]).take == true && #[trigger] reaches(
                    table,
                    call.args[j],
                    id,
                    hops,
                );
            let (k, hops1) = choose|k: int, hops1: nat|
                0 <= k < n && (#[trigger] params[k]).take == false && #[trigger] reaches(
                    table,
                    call.args[k],
                    id,
                    hops1,
                );
            assert(params[j].take && reaches(table, call.args[j], id, hops) && reaches(
                table,
                call.args[k],
                id,
                hops1,
            ));
        }
    }
    alias_check_passes_where_nothing_is_shared(binding.plan.reachable, binding.observed);
    block_is_the_first_of_its_number(call.callee.blocks@, BlockId(0), 0);
    match find_block(call.callee.blocks@, BlockId(0), 0) {
        Some(_) => {},
        None => {
            let k = choose|k: int|
                0 <= k < call.callee.blocks@.len() && (#[trigger] call.callee.blocks@[k]).id
                    == BlockId(0);
            assert(call.callee.blocks@[k].id != BlockId(0));
        },
    }
}

} // verus!
