use crate::eval::CallView;
use crate::frame::{
    bound_argument, bound_arguments, entered, executed, returned, slot_check, slot_stored,
    BindingView, ContextView, EntryView, LocalsView,
};
use crate::ids::ValueId;
use crate::interpreter::StateView;
use crate::laws::call::{
    alias_check_passes_where_nothing_is_shared, entering_moves_what_is_taken,
    owning_collects_what_is_carried, taken_in,
};
use crate::laws::graph::{checking_all_meets_each_once, checking_meets_each_once};
use crate::laws::storage::placing;
use crate::laws::transfer::{
    carries, children, has_handle, planning_moves_what_is_carried, sound_plan,
    transfer_moves_exactly_what_is_carried,
};
use crate::ownership::{plan_inner, plan_inner_from, transferred, PlanView};
use crate::place::observed_at;
use crate::program::{
    Function, Instruction, Module, OwnershipMode, Param, Place, ValueKind, MAX_GENERIC_DEPTH,
};
use crate::structural::{origin, place_check, place_store, place_type};
use crate::table::TableView;
use crate::type_ops::substituted;
use crate::types::{Ty, TyView};
use crate::validate::{argument_check, argument_matches, owned_graph, validated, validated_from};
use crate::value::{ErrorView, ResourceHandle, ValueView};
use crate::value_ops::read_value;
use vstd::prelude::*;

verus! {

// ---------------------------------------------------------------------
// What a type says of a value, said of it again elsewhere.
// ---------------------------------------------------------------------

/// Whether `other` is `value` with a handle of the same resource, working
/// in `table`, in place of each handle.
pub open spec fn stands_for(table: TableView, value: ValueView, other: ValueView) -> bool
    decreases value,
{
    match value {
        ValueView::Resource(handle) => {
            &&& other matches ValueView::Resource(found)
            &&& found.id == handle.id
            &&& table.record(found) is Ok
        },
        ValueView::Record { item, type_args, fields } => {
            &&& other matches ValueView::Record {
                item: item1,
                type_args: type_args1,
                fields: fields1,
            }
            &&& item1 == item
            &&& type_args1 == type_args
            &&& fields1.len() == fields.len()
            &&& forall|k: int|
                0 <= k < fields.len() ==> stands_for(table, #[trigger] fields[k], fields1[k])
        },
        ValueView::Variant { item, type_args, case, payload } => {
            &&& other matches ValueView::Variant {
                item: item1,
                type_args: type_args1,
                case: case1,
                payload: payload1,
            }
            &&& item1 == item
            &&& type_args1 == type_args
            &&& case1 == case
            &&& payload1.len() == payload.len()
            &&& forall|k: int|
                0 <= k < payload.len() ==> stands_for(table, #[trigger] payload[k], payload1[k])
        },
        _ => other == value,
    }
}

/// Whether the resources in `met` are the same in both tables, apart from
/// the generations of those in `moved`.
pub open spec fn kept(table: TableView, table1: TableView, met: Set<u32>, moved: Set<u32>) -> bool {
    &&& table1.leases == table.leases
    &&& forall|id: u32|
        met.contains(id) && id < table.records.len() ==> {
            let record = #[trigger] table.records[id as int];
            let record1 = table1.records[id as int];
            &&& id < table1.records.len()
            &&& record1.item == record.item
            &&& record1.fields == record.fields
            &&& !moved.contains(id) ==> record1.generation == record.generation
        }
}

/// Whether each resource in `moved` was met before or is not met at all.
pub open spec fn apart(moved: Set<u32>, before: Set<u32>, after: Set<u32>) -> bool {
    forall|id: u32| #[trigger] moved.contains(id) ==> before.contains(id) || !after.contains(id)
}

proof fn checking_stays(
    module: Module,
    table: TableView,
    table1: TableView,
    moved: Set<u32>,
    met: Set<u32>,
    value: ValueView,
    expected: Option<TyView>,
    seen: Set<u32>,
    depth: nat,
)
    requires
        validated(module, table, value, expected, seen, depth).1 is Ok,
        validated(module, table, value, expected, seen, depth).0.subset_of(met),
        kept(table, table1, met, moved),
        apart(moved, seen, validated(module, table, value, expected, seen, depth).0),
    ensures
        validated(module, table1, value, expected, seen, depth) == validated(
            module,
            table,
            value,
            expected,
            seen,
            depth,
        ),
    decreases MAX_GENERIC_DEPTH - depth, 0nat,
{
    match value {
        ValueView::Resource(handle) => {
            let record = table.record(handle)->Ok_0;
            let declared = module.record_field_types(record.item, Seq::empty())->Ok_0;
            let more = seen.insert(handle.id.0);
            checking_all_meets_each_once(
                module,
                table,
                record.fields,
                declared,
                0,
                more,
                depth + 1,
            );
            assert(more.contains(handle.id.0));
            assert(met.contains(handle.id.0));
            assert(table.records[(handle.id.0) as int] == record);
            assert(table1.lease_usable(handle) is Ok);
            assert(table1.record(handle) is Ok);
            all_checking_stays(
                module,
                table,
                table1,
                moved,
                met,
                record.fields,
                declared,
                0,
                more,
                depth + 1,
            );
        },
        ValueView::Record { item, type_args, fields } => {
            let declared = module.record_field_types(item, type_args)->Ok_0;
            all_checking_stays(
                module,
                table,
                table1,
                moved,
                met,
                fields,
                declared,
                0,
                seen,
                depth + 1,
            );
        },
        ValueView::Variant { item, type_args, case, payload } => {
            let declared = module.case_payload_types(item, type_args, case)->Ok_0;
            all_checking_stays(
                module,
                table,
                table1,
                moved,
                met,
                payload,
                declared,
                0,
                seen,
                depth + 1,
            );
        },
        _ => {},
    }
}

proof fn all_checking_stays(
    module: Module,
    table: TableView,
    table1: TableView,
    moved: Set<u32>,
    met: Set<u32>,
    values: Seq<ValueView>,
    declared: Seq<TyView>,
    i: nat,
    seen: Set<u32>,
    depth: nat,
)
    requires
        validated_from(module, table, values, declared, i, seen, depth).1 is Ok,
        validated_from(module, table, values, declared, i, seen, depth).0.subset_of(met),
        kept(table, table1, met, moved),
        apart(moved, seen, validated_from(module, table, values, declared, i, seen, depth).0),
    ensures
        validated_from(module, table1, values, declared, i, seen, depth) == validated_from(
            module,
            table,
            values,
            declared,
            i,
            seen,
            depth,
        ),
    decreases MAX_GENERIC_DEPTH - depth, 1 + values.len() - i,
{
    if i < values.len() {
        let value = values[i as int];
        let expected = Some(declared[i as int]);
        let (seen1, _) = validated(module, table, value, expected, seen, depth);
        checking_meets_each_once(module, table, value, expected, seen, depth);
        checking_all_meets_each_once(module, table, values, declared, i + 1, seen1, depth);
        checking_stays(module, table, table1, moved, met, value, expected, seen, depth);
        all_checking_stays(
            module,
            table,
            table1,
            moved,
            met,
            values,
            declared,
            i + 1,
            seen1,
            depth,
        );
    }
}

/// Whether each resource in `moved` was met before `value`, is carried by
/// it, or is not met at all.
pub open spec fn apart_but_carried(
    moved: Set<u32>,
    value: ValueView,
    before: Set<u32>,
    after: Set<u32>,
) -> bool {
    forall|id: u32| #[trigger]
        moved.contains(id) ==> before.contains(id) || carries(value, id) || !after.contains(id)
}

/// [`apart_but_carried`] of the values from position `i` on.
pub open spec fn apart_but_all_carried(
    moved: Set<u32>,
    values: Seq<ValueView>,
    i: nat,
    before: Set<u32>,
    after: Set<u32>,
) -> bool {
    forall|id: u32| #[trigger]
        moved.contains(id) ==> before.contains(id) || !after.contains(id) || exists|k: int|
            i <= k < values.len() && #[trigger] carries(values[k], id)
}

proof fn substitute_checks_as_well(
    module: Module,
    table: TableView,
    table1: TableView,
    moved: Set<u32>,
    met: Set<u32>,
    value: ValueView,
    other: ValueView,
    expected: Option<TyView>,
    seen: Set<u32>,
    depth: nat,
)
    requires
        validated(module, table, value, expected, seen, depth).1 is Ok,
        validated(module, table, value, expected, seen, depth).0.subset_of(met),
        kept(table, table1, met, moved),
        stands_for(table1, value, other),
        apart_but_carried(
            moved,
            value,
            seen,
            validated(module, table, value, expected, seen, depth).0,
        ),
    ensures
        validated(module, table1, other, expected, seen, depth) == validated(
            module,
            table,
            value,
            expected,
            seen,
            depth,
        ),
    decreases MAX_GENERIC_DEPTH - depth, 0nat,
{
    let after = validated(module, table, value, expected, seen, depth).0;
    match value {
        ValueView::Resource(handle) => {
            let record = table.record(handle)->Ok_0;
            let declared = module.record_field_types(record.item, Seq::empty())->Ok_0;
            let more = seen.insert(handle.id.0);
            checking_all_meets_each_once(
                module,
                table,
                record.fields,
                declared,
                0,
                more,
                depth + 1,
            );
            assert(more.contains(handle.id.0));
            assert(met.contains(handle.id.0));
            assert(table.records[(handle.id.0) as int] == record);
            all_checking_stays(
                module,
                table,
                table1,
                moved,
                met,
                record.fields,
                declared,
                0,
                more,
                depth + 1,
            );
        },
        ValueView::Record { item, type_args, fields } => {
            let declared = module.record_field_types(item, type_args)->Ok_0;
            assert(apart_but_all_carried(moved, fields, 0, seen, after)) by {
                assert forall|id: u32| #[trigger] moved.contains(id) implies seen.contains(id)
                    || !after.contains(id) || exists|k: int|
                    0 <= k < fields.len() && #[trigger] carries(fields[k], id) by {
                    if carries(value, id) {
                        let k = choose|k: int|
                            0 <= k < fields.len() && carries(#[trigger] fields[k], id);
                        assert(carries(fields[k], id));
                    }
                }
            }
            substitutes_check_as_well(
                module,
                table,
                table1,
                moved,
                met,
                fields,
                children(other),
                declared,
                0,
                seen,
                depth + 1,
            );
        },
        ValueView::Variant { item, type_args, case, payload } => {
            let declared = module.case_payload_types(item, type_args, case)->Ok_0;
            assert(apart_but_all_carried(moved, payload, 0, seen, after)) by {
                assert forall|id: u32| #[trigger] moved.contains(id) implies seen.contains(id)
                    || !after.contains(id) || exists|k: int|
                    0 <= k < payload.len() && #[trigger] carries(payload[k], id) by {
                    if carries(value, id) {
                        let k = choose|k: int|
                            0 <= k < payload.len() && carries(#[trigger] payload[k], id);
                        assert(carries(payload[k], id));
                    }
                }
            }
            substitutes_check_as_well(
                module,
                table,
                table1,
                moved,
                met,
                payload,
                children(other),
                declared,
                0,
                seen,
                depth + 1,
            );
        },
        _ => {},
    }
}

proof fn substitutes_check_as_well(
    module: Module,
    table: TableView,
    table1: TableView,
    moved: Set<u32>,
    met: Set<u32>,
    values: Seq<ValueView>,
    others: Seq<ValueView>,
    declared: Seq<TyView>,
    i: nat,
    seen: Set<u32>,
    depth: nat,
)
    requires
        validated_from(module, table, values, declared, i, seen, depth).1 is Ok,
        validated_from(module, table, values, declared, i, seen, depth).0.subset_of(met),
        kept(table, table1, met, moved),
        others.len() == values.len(),
        forall|k: int|
            0 <= k < values.len() ==> stands_for(table1, #[trigger] values[k], others[k]),
        apart_but_all_carried(
            moved,
            values,
            i,
            seen,
            validated_from(module, table, values, declared, i, seen, depth).0,
        ),
    ensures
        validated_from(module, table1, others, declared, i, seen, depth) == validated_from(
            module,
            table,
            values,
            declared,
            i,
            seen,
            depth,
        ),
    decreases MAX_GENERIC_DEPTH - depth, 1 + values.len() - i,
{
    if i < values.len() {
        let value = values[i as int];
        let expected = Some(declared[i as int]);
        let after = validated_from(module, table, values, declared, i, seen, depth).0;
        let (seen1, _) = validated(module, table, value, expected, seen, depth);
        checking_meets_each_once(module, table, value, expected, seen, depth);
        checking_all_meets_each_once(module, table, values, declared, i + 1, seen1, depth);
        assert forall|id: u32| #[trigger] moved.contains(id) implies seen.contains(id) || carries(
            value,
            id,
        ) || !seen1.contains(id) by {
            if !seen.contains(id) && after.contains(id) {
                let k = choose|k: int| i <= k < values.len() && #[trigger] carries(values[k], id);
                if k > i {
                    assert(carries(values[k], id));
                }
            }
        }
        assert(stands_for(table1, values[i as int], others[i as int]));
        substitute_checks_as_well(
            module,
            table,
            table1,
            moved,
            met,
            value,
            others[i as int],
            expected,
            seen,
            depth,
        );
        assert forall|id: u32| #[trigger] moved.contains(id) implies seen1.contains(id)
            || !after.contains(id) || exists|k: int|
            i + 1 <= k < values.len() && #[trigger] carries(values[k], id) by {
            if !seen1.contains(id) && after.contains(id) {
                let k = choose|k: int| i <= k < values.len() && #[trigger] carries(values[k], id);
                assert(k != i);
                assert(carries(values[k], id));
            }
        }
        substitutes_check_as_well(
            module,
            table,
            table1,
            moved,
            met,
            values,
            others,
            declared,
            i + 1,
            seen1,
            depth,
        );
    }
}

/// What a plan gives back stands for what was moved, once its handles
/// work.
pub proof fn planned_value_stands_for_it(
    module: Module,
    table: TableView,
    table1: TableView,
    value: ValueView,
    plan: PlanView,
    depth: nat,
    moved: ValueView,
)
    requires
        plan_inner(module, table, value, plan, depth).1 == Ok::<ValueView, ErrorView>(moved),
        forall|handle: ResourceHandle| #[trigger]
            has_handle(moved, handle) ==> table1.record(handle) is Ok,
    ensures
        stands_for(table1, value, moved),
    decreases MAX_GENERIC_DEPTH - depth, 0nat,
{
    match value {
        ValueView::Resource(_) => {
            if let ValueView::Resource(found) = moved {
                assert(has_handle(moved, found));
            }
        },
        ValueView::Record { fields, .. } => {
            let rebuilt = children(moved);
            handles_of_children_work(table1, moved);
            planned_values_stand_for_them(
                module,
                table,
                table1,
                fields,
                0,
                Seq::empty(),
                plan,
                depth + 1,
                rebuilt,
            );
        },
        ValueView::Variant { payload, .. } => {
            let rebuilt = children(moved);
            handles_of_children_work(table1, moved);
            planned_values_stand_for_them(
                module,
                table,
                table1,
                payload,
                0,
                Seq::empty(),
                plan,
                depth + 1,
                rebuilt,
            );
        },
        _ => {},
    }
}

proof fn handles_of_children_work(table: TableView, value: ValueView)
    requires
        value is Record || value is Variant,
        forall|handle: ResourceHandle| #[trigger]
            has_handle(value, handle) ==> table.record(handle) is Ok,
    ensures
        forall|k: int, handle: ResourceHandle|
            0 <= k < children(value).len() && #[trigger] has_handle(children(value)[k], handle)
                ==> table.record(handle) is Ok,
{
    assert forall|k: int, handle: ResourceHandle|
        0 <= k < children(value).len() && #[trigger] has_handle(
            children(value)[k],
            handle,
        ) implies table.record(handle) is Ok by {
        assert(has_handle(value, handle));
    }
}

proof fn planned_values_stand_for_them(
    module: Module,
    table: TableView,
    table1: TableView,
    values: Seq<ValueView>,
    i: nat,
    done: Seq<ValueView>,
    plan: PlanView,
    depth: nat,
    moved: Seq<ValueView>,
)
    requires
        plan_inner_from(module, table, values, i, done, plan, depth).1 == Ok::<
            Seq<ValueView>,
            ErrorView,
        >(moved),
        done.len() == i,
        i <= values.len(),
        forall|k: int, handle: ResourceHandle|
            0 <= k < moved.len() && #[trigger] has_handle(moved[k], handle) ==> table1.record(
                handle,
            ) is Ok,
    ensures
        moved.len() == values.len(),
        forall|k: int| 0 <= k < i ==> moved[k] == done[k],
        forall|k: int|
            i <= k < values.len() ==> stands_for(table1, #[trigger] values[k], moved[k]),
    decreases MAX_GENERIC_DEPTH - depth, 1 + values.len() - i,
{
    if i < values.len() {
        let (plan1, r) = plan_inner(module, table, values[i as int], plan, depth);
        let rebuilt = r->Ok_0;
        planned_values_stand_for_them(
            module,
            table,
            table1,
            values,
            i + 1,
            done.push(rebuilt),
            plan1,
            depth,
            moved,
        );
        assert(moved[i as int] == done.push(rebuilt)[i as int]);
        planned_value_stands_for_it(
            module,
            table,
            table1,
            values[i as int],
            plan,
            depth,
            rebuilt,
        );
    }
}

/// What observes a value stands for it.
pub proof fn view_stands_for_it(table: TableView, value: ValueView, depth: nat, view: ValueView)
    requires
        table.observing_view(value, None, depth) == Ok::<ValueView, ErrorView>(view),
    ensures
        stands_for(table, value, view),
    decreases MAX_GENERIC_DEPTH - depth, 0nat,
{
    match value {
        ValueView::Resource(handle) => {
            assert(table.observe(handle) is Ok);
        },
        ValueView::Record { fields, .. } => {
            views_stand_for_them(table, fields, 0, Seq::empty(), depth + 1, children(view));
        },
        ValueView::Variant { payload, .. } => {
            views_stand_for_them(table, payload, 0, Seq::empty(), depth + 1, children(view));
        },
        _ => {},
    }
}

proof fn views_stand_for_them(
    table: TableView,
    values: Seq<ValueView>,
    i: nat,
    done: Seq<ValueView>,
    depth: nat,
    views: Seq<ValueView>,
)
    requires
        table.observing_views(values, i, done, None, depth) == Ok::<Seq<ValueView>, ErrorView>(
            views,
        ),
        done.len() == i,
        i <= values.len(),
    ensures
        views.len() == values.len(),
        forall|k: int| 0 <= k < i ==> views[k] == done[k],
        forall|k: int|
            i <= k < values.len() ==> stands_for(table, #[trigger] values[k], views[k]),
    decreases MAX_GENERIC_DEPTH - depth, 1 + values.len() - i,
{
    if i < values.len() {
        let view = table.observing_view(values[i as int], None, depth)->Ok_0;
        views_stand_for_them(table, values, i + 1, done.push(view), depth, views);
        assert(views[i as int] == done.push(view)[i as int]);
        view_stands_for_it(table, values[i as int], depth, view);
    }
}

/// The resources that a value carries.
pub open spec fn carried(value: ValueView) -> Set<u32> {
    Set::new(|id: u32| carries(value, id))
}

/// What stands for a value fits every type the value fits, where what the
/// value meets is the same apart from the generations of what it carries.
proof fn substitute_fits_as_well(
    module: Module,
    table: TableView,
    table1: TableView,
    moved: Set<u32>,
    value: ValueView,
    other: ValueView,
)
    requires
        stands_for(table1, value, other),
        owned_graph(module, table, value) is Ok,
        kept(table, table1, validated(module, table, value, None, Set::empty(), 0).0, moved),
        apart_but_carried(
            moved,
            value,
            Set::empty(),
            validated(module, table, value, None, Set::empty(), 0).0,
        ),
    ensures
        forall|declared: TyView| #[trigger]
            argument_check(module, table, value, declared) is Ok ==> argument_check(
                module,
                table1,
                other,
                declared,
            ) is Ok,
{
    let met = validated(module, table, value, None, Set::empty(), 0).0;
    substitute_checks_as_well(
        module,
        table,
        table1,
        moved,
        met,
        value,
        other,
        None,
        Set::empty(),
        0,
    );
    checking_meets_each_once(module, table, value, None, Set::empty(), 0);
    assert forall|declared: TyView| #[trigger]
        argument_check(module, table, value, declared) is Ok implies argument_check(
        module,
        table1,
        other,
        declared,
    ) is Ok by {
        assert(argument_matches(table1, other, declared) == argument_matches(
            table,
            value,
            declared,
        )) by {
            if let ValueView::Resource(handle) = value {
                assert(carries(value, handle.id.0));
                assert(met.contains(handle.id.0));
                assert(table.records[handle.id.0 as int].item
                    == table1.records[handle.id.0 as int].item);
            }
        }
    }
}

/// A value fits after it was moved what it fitted before: every type that
/// a position may declare, and every type that a parameter, a slot or a
/// result may declare.
pub proof fn moved_value_fits_as_before(
    module: Module,
    table: TableView,
    value: ValueView,
    table1: TableView,
    moved: ValueView,
)
    requires
        transferred(module, table, value) == Ok::<(TableView, ValueView), ErrorView>(
            (table1, moved),
        ),
    ensures
        forall|declared: TyView| #[trigger]
            argument_check(module, table, value, declared) is Ok ==> argument_check(
                module,
                table1,
                moved,
                declared,
            ) is Ok,
        forall|expected: Option<TyView>| #[trigger]
            validated(module, table, value, expected, Set::empty(), 0).1 is Ok ==> validated(
                module,
                table1,
                moved,
                expected,
                Set::empty(),
                0,
            ).1 is Ok,
{
    transfer_moves_exactly_what_is_carried(module, table, value, table1, moved);
    planned_value_stands_for_it(module, table, table1, value, PlanView::empty(), 0, moved);
    assert forall|met: Set<u32>| #[trigger] kept(table, table1, met, carried(value)) by {
        assert forall|id: u32| met.contains(id) && id < table.records.len() implies {
            let record = #[trigger] table.records[id as int];
            let record1 = table1.records[id as int];
            &&& id < table1.records.len()
            &&& record1.item == record.item
            &&& record1.fields == record.fields
            &&& !carried(value).contains(id) ==> record1.generation == record.generation
        } by {
            assert(carried(value).contains(id) <==> carries(value, id));
        }
    }
    if owned_graph(module, table, value) is Ok {
        let met = validated(module, table, value, None, Set::empty(), 0).0;
        assert(kept(table, table1, met, carried(value)));
        substitute_fits_as_well(module, table, table1, carried(value), value, moved);
    }
    assert forall|expected: Option<TyView>| #[trigger]
        validated(module, table, value, expected, Set::empty(), 0).1 is Ok implies validated(
        module,
        table1,
        moved,
        expected,
        Set::empty(),
        0,
    ).1 is Ok by {
        let met = validated(module, table, value, expected, Set::empty(), 0).0;
        assert(kept(table, table1, met, carried(value)));
        substitute_checks_as_well(
            module,
            table,
            table1,
            carried(value),
            met,
            value,
            moved,
            expected,
            Set::empty(),
            0,
        );
    }
}

// ---------------------------------------------------------------------
// Storing into a slot.
// ---------------------------------------------------------------------

/// A completed store leaves in a slot a value that fits the type the slot
/// declares, whether the store moves the value or only observes it.
pub proof fn stored_value_fits_its_slot(
    module: Module,
    table: TableView,
    values: Map<u32, ValueView>,
    context: ContextView,
    slot: ValueId,
    value: ValueId,
    mode: OwnershipMode,
    table1: TableView,
    values1: Map<u32, ValueView>,
)
    requires
        slot_stored(module, table, values, context, slot, value, mode) == Ok::<
            (TableView, Map<u32, ValueView>),
            ErrorView,
        >((table1, values1)),
    ensures
        values1.contains_key(slot.0),
        slot_check(module, table1, context, slot, values1[slot.0]) is Ok,
        context.slots.contains_key(slot.0) ==> argument_check(
            module,
            table1,
            values1[slot.0],
            substituted(context.slots[slot.0], context.subst),
        ) is Ok,
{
    let incoming = read_value(values, value)->Ok_0;
    match mode {
        OwnershipMode::Transfer => {
            moved_value_fits_as_before(module, table, incoming, table1, values1[slot.0]);
        },
        OwnershipMode::Observe => {
            if context.slots.contains_key(slot.0) {
                view_stands_for_it(table, incoming, 0, values1[slot.0]);
                substitute_fits_as_well(
                    module,
                    table,
                    table,
                    Set::empty(),
                    incoming,
                    values1[slot.0],
                );
            }
        },
    }
}

/// A store of a value that does not fit the type its slot declares is
/// refused, whatever its mode, and changes nothing.
pub proof fn misfit_is_not_stored(
    module: Module,
    state: StateView,
    locals: LocalsView,
    context: ContextView,
    slot: ValueId,
    value: ValueId,
    mode: OwnershipMode,
    depth: nat,
)
    requires
        locals.values.contains_key(value.0),
        context.slots.contains_key(slot.0),
        argument_check(
            module,
            state.table,
            locals.values[value.0],
            substituted(context.slots[slot.0], context.subst),
        ) is Err,
    ensures
        executed(
            module,
            state,
            Instruction::Store { slot, value, mode },
            locals,
            context,
            depth,
        ) == (
            state,
            locals,
            argument_check(
                module,
                state.table,
                locals.values[value.0],
                substituted(context.slots[slot.0], context.subst),
            ),
        ),
{
}

// ---------------------------------------------------------------------
// Storing into a place.
// ---------------------------------------------------------------------

/// Whether nothing in `after` but not in `before` is in `known`.
pub open spec fn new_beyond(before: Set<u32>, after: Set<u32>, known: Set<u32>) -> bool {
    forall|id: u32| #[trigger]
        after.contains(id) && !before.contains(id) ==> !known.contains(id)
}

proof fn claiming_is_owning(table: TableView, value: ValueView, owned: Set<u32>, depth: nat)
    requires
        table.own_alive(value, owned, depth).1 is Ok,
    ensures
        table.own(value, owned, depth) == table.own_alive(value, owned, depth),
    decreases MAX_GENERIC_DEPTH - depth, 0nat,
{
    match value {
        ValueView::Resource(handle) => {
            let record = table.record(handle)->Ok_0;
            claiming_all_is_owning(
                table,
                record.fields,
                0,
                owned.insert(handle.id.0),
                depth + 1,
            );
        },
        ValueView::Record { fields, .. } => claiming_all_is_owning(
            table,
            fields,
            0,
            owned,
            depth + 1,
        ),
        ValueView::Variant { payload, .. } => claiming_all_is_owning(
            table,
            payload,
            0,
            owned,
            depth + 1,
        ),
        _ => {},
    }
}

proof fn claiming_all_is_owning(
    table: TableView,
    values: Seq<ValueView>,
    i: nat,
    owned: Set<u32>,
    depth: nat,
)
    requires
        table.own_alive_from(values, i, owned, depth).1 is Ok,
    ensures
        table.own_from(values, i, owned, depth) == table.own_alive_from(values, i, owned, depth),
    decreases MAX_GENERIC_DEPTH - depth, 1 + values.len() - i,
{
    if i < values.len() {
        let (owned1, _) = table.own_alive(values[i as int], owned, depth);
        claiming_is_owning(table, values[i as int], owned, depth);
        claiming_all_is_owning(table, values, i + 1, owned1, depth);
    }
}

/// Collecting what a value owns reaches every resource that checking it
/// meets, and none of those was collected before.
proof fn owning_reaches_what_is_met(
    module: Module,
    table: TableView,
    value: ValueView,
    expected: Option<TyView>,
    seen: Set<u32>,
    depth: nat,
    owned: Set<u32>,
    level: nat,
)
    requires
        validated(module, table, value, expected, seen, depth).1 is Ok,
        table.own(value, owned, level).1 is Ok,
    ensures
        owned.subset_of(table.own(value, owned, level).0),
        validated(module, table, value, expected, seen, depth).0.subset_of(
            seen.union(table.own(value, owned, level).0),
        ),
        new_beyond(seen, validated(module, table, value, expected, seen, depth).0, owned),
    decreases MAX_GENERIC_DEPTH - depth, 0nat,
{
    match value {
        ValueView::Resource(handle) => {
            let record = table.record(handle)->Ok_0;
            let declared = module.record_field_types(record.item, Seq::empty())->Ok_0;
            owning_reaches_all_that_is_met(
                module,
                table,
                record.fields,
                declared,
                0,
                seen.insert(handle.id.0),
                depth + 1,
                owned.insert(handle.id.0),
                level + 1,
            );
            assert(owned.insert(handle.id.0).contains(handle.id.0));
        },
        ValueView::Record { item, type_args, fields } => {
            let declared = module.record_field_types(item, type_args)->Ok_0;
            owning_reaches_all_that_is_met(
                module,
                table,
                fields,
                declared,
                0,
                seen,
                depth + 1,
                owned,
                level + 1,
            );
        },
        ValueView::Variant { item, type_args, case, payload } => {
            let declared = module.case_payload_types(item, type_args, case)->Ok_0;
            owning_reaches_all_that_is_met(
                module,
                table,
                payload,
                declared,
                0,
                seen,
                depth + 1,
                owned,
                level + 1,
            );
        },
        _ => {},
    }
}

proof fn owning_reaches_all_that_is_met(
    module: Module,
    table: TableView,
    values: Seq<ValueView>,
    declared: Seq<TyView>,
    i: nat,
    seen: Set<u32>,
    depth: nat,
    owned: Set<u32>,
    level: nat,
)
    requires
        validated_from(module, table, values, declared, i, seen, depth).1 is Ok,
        table.own_from(values, i, owned, level).1 is Ok,
    ensures
        owned.subset_of(table.own_from(values, i, owned, level).0),
        validated_from(module, table, values, declared, i, seen, depth).0.subset_of(
            seen.union(table.own_from(values, i, owned, level).0),
        ),
        new_beyond(
            seen,
            validated_from(module, table, values, declared, i, seen, depth).0,
            owned,
        ),
    decreases MAX_GENERIC_DEPTH - depth, 1 + values.len() - i,
{
    if i < values.len() {
        let value = values[i as int];
        let expected = Some(declared[i as int]);
        let (seen1, _) = validated(module, table, value, expected, seen, depth);
        let (owned1, _) = table.own(value, owned, level);
        owning_reaches_what_is_met(
            module,
            table,
            value,
            expected,
            seen,
            depth,
            owned,
            level,
        );
        owning_reaches_all_that_is_met(
            module,
            table,
            values,
            declared,
            i + 1,
            seen1,
            depth,
            owned1,
            level,
        );
    }
}

/// A plan reaches every resource that checking the value meets, and had
/// reached none of those before.
pub proof fn planning_reaches_what_is_met(
    module: Module,
    table: TableView,
    value: ValueView,
    expected: Option<TyView>,
    seen: Set<u32>,
    depth: nat,
    plan: PlanView,
    level: nat,
)
    requires
        validated(module, table, value, expected, seen, depth).1 is Ok,
        plan_inner(module, table, value, plan, level).1 is Ok,
    ensures
        plan.reachable.subset_of(plan_inner(module, table, value, plan, level).0.reachable),
        validated(module, table, value, expected, seen, depth).0.subset_of(
            seen.union(plan_inner(module, table, value, plan, level).0.reachable),
        ),
        new_beyond(
            seen,
            validated(module, table, value, expected, seen, depth).0,
            plan.reachable,
        ),
    decreases MAX_GENERIC_DEPTH - depth, 0nat,
{
    match value {
        ValueView::Resource(handle) => {
            let record = table.record(handle)->Ok_0;
            let declared = module.record_field_types(record.item, Seq::empty())->Ok_0;
            claiming_all_is_owning(
                table,
                record.fields,
                0,
                plan.reachable.insert(handle.id.0),
                1,
            );
            owning_reaches_all_that_is_met(
                module,
                table,
                record.fields,
                declared,
                0,
                seen.insert(handle.id.0),
                depth + 1,
                plan.reachable.insert(handle.id.0),
                1,
            );
            assert(plan.reachable.insert(handle.id.0).contains(handle.id.0));
        },
        ValueView::Record { item, type_args, fields } => {
            let declared = module.record_field_types(item, type_args)->Ok_0;
            planning_reaches_all_that_is_met(
                module,
                table,
                fields,
                declared,
                0,
                seen,
                depth + 1,
                Seq::empty(),
                plan,
                level + 1,
            );
        },
        ValueView::Variant { item, type_args, case, payload } => {
            let declared = module.case_payload_types(item, type_args, case)->Ok_0;
            planning_reaches_all_that_is_met(
                module,
                table,
                payload,
                declared,
                0,
                seen,
                depth + 1,
                Seq::empty(),
                plan,
                level + 1,
            );
        },
        _ => {},
    }
}

proof fn planning_reaches_all_that_is_met(
    module: Module,
    table: TableView,
    values: Seq<ValueView>,
    declared: Seq<TyView>,
    i: nat,
    seen: Set<u32>,
    depth: nat,
    done: Seq<ValueView>,
    plan: PlanView,
    level: nat,
)
    requires
        validated_from(module, table, values, declared, i, seen, depth).1 is Ok,
        plan_inner_from(module, table, values, i, done, plan, level).1 is Ok,
    ensures
        plan.reachable.subset_of(
            plan_inner_from(module, table, values, i, done, plan, level).0.reachable,
        ),
        validated_from(module, table, values, declared, i, seen, depth).0.subset_of(
            seen.union(plan_inner_from(module, table, values, i, done, plan, level).0.reachable),
        ),
        new_beyond(
            seen,
            validated_from(module, table, values, declared, i, seen, depth).0,
            plan.reachable,
        ),
    decreases MAX_GENERIC_DEPTH - depth, 1 + values.len() - i,
{
    if i < values.len() {
        let value = values[i as int];
        let expected = Some(declared[i as int]);
        let (seen1, _) = validated(module, table, value, expected, seen, depth);
        let (plan1, r) = plan_inner(module, table, value, plan, level);
        planning_reaches_what_is_met(
            module,
            table,
            value,
            expected,
            seen,
            depth,
            plan,
            level,
        );
        planning_reaches_all_that_is_met(
            module,
            table,
            values,
            declared,
            i + 1,
            seen1,
            depth,
            done.push(r->Ok_0),
            plan1,
            level,
        );
    }
}

/// A completed store into a place leaves in its field a value that fits
/// the type the field declares, all the way down. A source that is
/// itself the storage of the place, which only loads that go in a circle
/// could make it, is emptied after the store.
pub proof fn stored_value_fits_its_field(
    module: Module,
    table: TableView,
    frame: Map<u32, ValueView>,
    origins: Map<u32, ValueId>,
    place: Place,
    source: ValueId,
    table1: TableView,
    frame1: Map<u32, ValueView>,
) -> (stored: (TyView, ValueView))
    requires
        source.0 != origin(origins, place.root).0,
        place_store(module, table, frame, origins, place, source) == Ok::<
            (TableView, Map<u32, ValueView>),
            ErrorView,
        >((table1, frame1)),
    ensures
        place_type(
            module,
            table1,
            frame1[origin(origins, place.root).0],
            place.projections@,
            0,
        ) == Ok::<TyView, ErrorView>(stored.0),
        observed_at(
            table1,
            frame1[origin(origins, place.root).0],
            place.projections@,
            0,
        ) == Ok::<ValueView, ErrorView>(stored.1),
        validated(module, table1, stored.1, Some(stored.0), Set::empty(), 0).1 is Ok,
{
    let root = frame[origin(origins, place.root).0];
    let incoming = frame[source.0];
    let declared = place_type(module, table, root, place.projections@, 0)->Ok_0;
    let moved = placing(module, table, frame, origins, place, source, table1, frame1);
    let met = validated(module, table, incoming, Some(declared), Set::empty(), 0).0;
    let plan = plan_inner(module, table, incoming, PlanView::empty(), 0).0;
    assert forall|handle: ResourceHandle| #[trigger] has_handle(moved, handle) implies table1.record(
        handle,
    ) is Ok by {
        assert(table1.observe(handle) is Ok);
    }
    planned_value_stands_for_it(module, table, table1, incoming, PlanView::empty(), 0, moved);
    planning_reaches_what_is_met(
        module,
        table,
        incoming,
        Some(declared),
        Set::empty(),
        0,
        PlanView::empty(),
        0,
    );
    assert forall|id: u32| met.contains(id) && id < table.records.len() implies {
        let record = #[trigger] table.records[id as int];
        let record1 = table1.records[id as int];
        &&& id < table1.records.len()
        &&& record1.item == record.item
        &&& record1.fields == record.fields
        &&& !carried(incoming).contains(id) ==> record1.generation == record.generation
    } by {
        assert(plan.reachable.contains(id));
        assert(carried(incoming).contains(id) <==> carries(incoming, id));
        assert(table1.records[id as int].item == table.records[id as int].item);
    }
    substitute_checks_as_well(
        module,
        table,
        table1,
        carried(incoming),
        met,
        incoming,
        moved,
        Some(declared),
        Set::empty(),
        0,
    );
    (declared, moved)
}

/// A store of a value that does not fit the type the field at its place
/// declares is refused and changes nothing.
pub proof fn misfit_is_not_placed(
    module: Module,
    state: StateView,
    locals: LocalsView,
    context: ContextView,
    place: Place,
    source: ValueId,
    depth: nat,
)
    requires
        locals.values.contains_key(source.0),
        locals.values.contains_key(origin(context.origins, place.root).0),
        place_check(
            module,
            state.table,
            locals.values[origin(context.origins, place.root).0],
            place.projections@,
            locals.values[source.0],
        ) is Err,
    ensures
        executed(
            module,
            state,
            Instruction::StorePlace { place, value: source },
            locals,
            context,
            depth,
        ).0 == state,
        executed(
            module,
            state,
            Instruction::StorePlace { place, value: source },
            locals,
            context,
            depth,
        ).1 == locals,
        executed(
            module,
            state,
            Instruction::StorePlace { place, value: source },
            locals,
            context,
            depth,
        ).2 is Err,
{
}

// ---------------------------------------------------------------------
// Passing arguments.
// ---------------------------------------------------------------------

/// What stands for a value in one table stands for it in another that has
/// what the value carries unchanged.
proof fn stands_for_it_there_too(
    table: TableView,
    table1: TableView,
    value: ValueView,
    other: ValueView,
)
    requires
        stands_for(table, value, other),
        table1.leases == table.leases,
        table1.records.len() == table.records.len(),
        forall|id: u32| #[trigger]
            carries(value, id) && id < table.records.len() ==> table1.records[id as int]
                == table.records[id as int],
    ensures
        stands_for(table1, value, other),
    decreases value,
{
    match value {
        ValueView::Resource(handle) => {
            assert(carries(value, handle.id.0));
            if let ValueView::Resource(found) = other {
                assert(table1.lease_usable(found) is Ok);
            }
        },
        ValueView::Record { fields, .. } => {
            let others = children(other);
            assert forall|k: int| 0 <= k < fields.len() implies stands_for(
                table1,
                #[trigger] fields[k],
                others[k],
            ) by {
                assert forall|id: u32| #[trigger]
                    carries(fields[k], id) && id < table.records.len() implies table1.records[id as int]
                    == table.records[id as int] by {
                    assert(carries(value, id));
                }
                stands_for_it_there_too(table, table1, fields[k], others[k]);
            }
        },
        ValueView::Variant { payload, .. } => {
            let others = children(other);
            assert forall|k: int| 0 <= k < payload.len() implies stands_for(
                table1,
                #[trigger] payload[k],
                others[k],
            ) by {
                assert forall|id: u32| #[trigger]
                    carries(payload[k], id) && id < table.records.len() implies table1.records[id as int]
                    == table.records[id as int] by {
                    assert(carries(value, id));
                }
                stands_for_it_there_too(table, table1, payload[k], others[k]);
            }
        },
        _ => {},
    }
}

/// What binding the arguments from position `i` on leads to: nothing that
/// was planned or observed is forgotten, what is bound stays bound until
/// a parameter of the same number, and an argument that is taken carries
/// nothing that was planned.
proof fn binding_goes_on(
    module: Module,
    table: TableView,
    params: Seq<Param>,
    args: Seq<ValueView>,
    subst: Map<u32, TyView>,
    i: nat,
    binding: BindingView,
    end: BindingView,
)
    requires
        sound_plan(table, binding.plan),
        bound_arguments(module, table, params, args, subst, i, binding) == Ok::<
            BindingView,
            ErrorView,
        >(end),
    ensures
        binding.plan.reachable.subset_of(end.plan.reachable),
        binding.observed.subset_of(end.observed),
        forall|id: u32| #[trigger]
            binding.values.contains_key(id) && (forall|k: int|
                i <= k < params.len() ==> (#[trigger] params[k]).value.0 != id)
                ==> end.values.contains_key(id) && end.values[id] == binding.values[id],
        forall|k: int, id: u32|
            i <= k < params.len() && (#[trigger] params[k]).take && #[trigger] carries(
                args[k],
                id,
            ) ==> !binding.plan.reachable.contains(id),
    decreases params.len() - i,
{
    if i < params.len() {
        let param = params[i as int];
        let arg = args[i as int];
        let next = bound_argument(module, table, param, arg, subst, binding)->Ok_0;
        planning_moves_what_is_carried(module, table, arg, binding.plan, 0);
        binding_goes_on(module, table, params, args, subst, i + 1, next, end);
        assert forall|id: u32| #[trigger]
            binding.values.contains_key(id) && (forall|k: int|
                i <= k < params.len() ==> (#[trigger] params[k]).value.0
                    != id) implies end.values.contains_key(id) && end.values[id]
            == binding.values[id] by {
            assert(params[i as int].value.0 != id);
            assert(next.values.contains_key(id));
        }
        assert forall|k: int, id: u32|
            i <= k < params.len() && (#[trigger] params[k]).take && #[trigger] carries(
                args[k],
                id,
            ) implies !binding.plan.reachable.contains(id) by {
            if k > i && binding.plan.reachable.contains(id) {
                assert(next.plan.reachable.contains(id));
            }
        }
    }
}

/// The resources that the arguments taken by a call carry.
pub open spec fn taken_by(params: Seq<Param>, args: Seq<ValueView>) -> Set<u32> {
    Set::new(|id: u32| taken_in(params, args, params.len() as int, id))
}

proof fn taken_argument_fits(
    module: Module,
    table: TableView,
    table1: TableView,
    arg: ValueView,
    plan: PlanView,
    moved: ValueView,
    taken: Set<u32>,
    declared: TyView,
)
    requires
        argument_check(module, table, arg, declared) is Ok,
        plan_inner(module, table, arg, plan, 0).1 == Ok::<ValueView, ErrorView>(moved),
        forall|handle: ResourceHandle| #[trigger]
            has_handle(moved, handle) ==> table1.record(handle) is Ok,
        forall|met: Set<u32>| #[trigger] kept(table, table1, met, taken),
        forall|id: u32| #[trigger]
            taken.contains(id) ==> carries(arg, id) || plan.reachable.contains(id)
                || !plan_inner(module, table, arg, plan, 0).0.reachable.contains(id),
    ensures
        argument_check(module, table1, moved, declared) is Ok,
{
    let met = validated(module, table, arg, None, Set::empty(), 0).0;
    planned_value_stands_for_it(module, table, table1, arg, plan, 0, moved);
    planning_reaches_what_is_met(module, table, arg, None, Set::empty(), 0, plan, 0);
    assert(kept(table, table1, met, taken));
    assert forall|id: u32| #[trigger] taken.contains(id) implies Set::<u32>::empty().contains(id)
        || carries(arg, id) || !met.contains(id) by {
    }
    substitute_fits_as_well(module, table, table1, taken, arg, moved);
}

proof fn observed_argument_fits(
    module: Module,
    table: TableView,
    table1: TableView,
    arg: ValueView,
    view: ValueView,
    taken: Set<u32>,
    declared: TyView,
)
    requires
        argument_check(module, table, arg, declared) is Ok,
        table.own(arg, Set::empty(), 0).1 is Ok,
        table.observing_view(arg, None, 0) == Ok::<ValueView, ErrorView>(view),
        forall|met: Set<u32>| #[trigger] kept(table, table1, met, taken),
        table1.records.len() == table.records.len(),
        forall|id: u32|
            (id as int) < table.records.len() && !taken.contains(id)
                ==> #[trigger] table1.records[id as int] == table.records[id as int],
        forall|id: u32| #[trigger]
            taken.contains(id) ==> !table.own(arg, Set::empty(), 0).0.contains(id),
    ensures
        argument_check(module, table1, view, declared) is Ok,
{
    let met = validated(module, table, arg, None, Set::empty(), 0).0;
    owning_reaches_what_is_met(
        module,
        table,
        arg,
        None,
        Set::empty(),
        0,
        Set::empty(),
        0,
    );
    view_stands_for_it(table, arg, 0, view);
    assert(kept(table, table1, met, taken));
    assert forall|id: u32| #[trigger]
        carries(arg, id) && id < table.records.len() implies table1.records[id as int]
        == table.records[id as int] by {
        owning_collects_what_is_carried(table, arg, Set::empty(), 0, id);
    }
    stands_for_it_there_too(table, table1, arg, view);
    substitute_fits_as_well(module, table, table1, taken, arg, view);
}

proof fn bound_arguments_fit_from(
    module: Module,
    table: TableView,
    table1: TableView,
    params: Seq<Param>,
    args: Seq<ValueView>,
    subst: Map<u32, TyView>,
    i: nat,
    binding: BindingView,
    end: BindingView,
)
    requires
        i <= params.len(),
        sound_plan(table, binding.plan),
        bound_arguments(module, table, params, args, subst, i, binding) == Ok::<
            BindingView,
            ErrorView,
        >(end),
        forall|k: int, l: int|
            0 <= k < l < params.len() ==> (#[trigger] params[k]).value != (
            #[trigger] params[l]).value,
        forall|k: int, handle: ResourceHandle|
            0 <= k < params.len() && (#[trigger] params[k]).take && #[trigger] has_handle(
                end.values[params[k].value.0],
                handle,
            ) ==> table1.record(handle) is Ok,
        forall|met: Set<u32>| #[trigger] kept(table, table1, met, taken_by(params, args)),
        table1.records.len() == table.records.len(),
        forall|id: u32|
            (id as int) < table.records.len() && !taken_by(params, args).contains(id)
                ==> #[trigger] table1.records[id as int] == table.records[id as int],
        forall|id: u32| #[trigger]
            taken_by(params, args).contains(id) ==> !end.observed.contains(id),
        forall|k: int, id: u32|
            0 <= k < i && (#[trigger] params[k]).take && #[trigger] carries(args[k], id)
                ==> binding.plan.reachable.contains(id),
    ensures
        forall|k: int|
            i <= k < params.len() ==> argument_check(
                module,
                table1,
                end.values[(#[trigger] params[k]).value.0],
                substituted(params[k].ty@, subst),
            ) is Ok,
    decreases params.len() - i,
{
    if i < params.len() {
        let param = params[i as int];
        let arg = args[i as int];
        let declared = substituted(param.ty@, subst);
        let taken = taken_by(params, args);
        let next = bound_argument(module, table, param, arg, subst, binding)->Ok_0;
        planning_moves_what_is_carried(module, table, arg, binding.plan, 0);
        binding_goes_on(module, table, params, args, subst, i + 1, next, end);
        assert(next.values.contains_key(param.value.0));
        assert(forall|k: int|
            i + 1 <= k < params.len() ==> (#[trigger] params[k]).value.0 != param.value.0) by {
            assert forall|k: int| i + 1 <= k < params.len() implies (#[trigger] params[k]).value.0
                != param.value.0 by {
                assert(params[i as int].value != params[k].value);
            }
        }
        assert(end.values[param.value.0] == next.values[param.value.0]);
        if param.take {
            let moved = next.values[param.value.0];
            assert forall|handle: ResourceHandle| #[trigger]
                has_handle(moved, handle) implies table1.record(handle) is Ok by {
                assert(params[i as int].take);
                assert(has_handle(end.values[params[i as int].value.0], handle));
            }
            assert forall|id: u32| #[trigger] taken.contains(id) implies carries(arg, id)
                || binding.plan.reachable.contains(id) || !next.plan.reachable.contains(id) by {
                let k = choose|k: int|
                    0 <= k < params.len() && (#[trigger] params[k]).take && carries(args[k], id);
                assert(params[k].take && carries(args[k], id));
            }
            taken_argument_fits(
                module,
                table,
                table1,
                arg,
                binding.plan,
                moved,
                taken,
                declared,
            );
        } else {
            let owned = table.own(arg, Set::empty(), 0).0;
            assert forall|id: u32| #[trigger] taken.contains(id) implies !owned.contains(id) by {
                if owned.contains(id) {
                    assert(next.observed.contains(id));
                }
            }
            observed_argument_fits(
                module,
                table,
                table1,
                arg,
                next.values[param.value.0],
                taken,
                declared,
            );
        }
        assert forall|k: int, id: u32|
            0 <= k < i + 1 && (#[trigger] params[k]).take && #[trigger] carries(
                args[k],
                id,
            ) implies next.plan.reachable.contains(id) by {
            if k < i {
                assert(binding.plan.reachable.contains(id));
            }
        }
        bound_arguments_fit_from(
            module,
            table,
            table1,
            params,
            args,
            subst,
            i + 1,
            next,
            end,
        );
    }
}

proof fn taken_is_planned(
    module: Module,
    table: TableView,
    params: Seq<Param>,
    args: Seq<ValueView>,
    subst: Map<u32, TyView>,
    i: nat,
    binding: BindingView,
    end: BindingView,
    id: u32,
)
    requires
        sound_plan(table, binding.plan),
        bound_arguments(module, table, params, args, subst, i, binding) == Ok::<
            BindingView,
            ErrorView,
        >(end),
        exists|k: int|
            i <= k < params.len() && (#[trigger] params[k]).take && carries(args[k], id),
    ensures
        end.plan.reachable.contains(id),
    decreases params.len() - i,
{
    let k = choose|k: int|
        i <= k < params.len() && (#[trigger] params[k]).take && carries(args[k], id);
    let param = params[i as int];
    let arg = args[i as int];
    let next = bound_argument(module, table, param, arg, subst, binding)->Ok_0;
    planning_moves_what_is_carried(module, table, arg, binding.plan, 0);
    if k == i {
        binding_goes_on(module, table, params, args, subst, i + 1, next, end);
    } else {
        assert(params[k].take);
        taken_is_planned(module, table, params, args, subst, i + 1, next, end, id);
    }
}

/// Once a call was entered, every parameter holds a value that fits the
/// type it declares, whether its argument was taken or is only observed.
pub proof fn bound_arguments_fit(
    module: Module,
    table: TableView,
    call: CallView,
    entry: EntryView,
)
    requires
        entered(module, table, call) == Ok::<EntryView, ErrorView>(entry),
        forall|k: int, l: int|
            0 <= k < l < call.callee.params@.len() ==> (#[trigger] call.callee.params@[k]).value
                != (#[trigger] call.callee.params@[l]).value,
    ensures
        forall|k: int|
            0 <= k < call.callee.params@.len() ==> argument_check(
                module,
                entry.table,
                entry.values[(#[trigger] call.callee.params@[k]).value.0],
                substituted(call.callee.params@[k].ty@, entry.context.subst),
            ) is Ok,
{
    let params = call.callee.params@;
    let taken = taken_by(params, call.args);
    let start = BindingView::empty();
    let binding = bound_arguments(
        module,
        table,
        params,
        call.args,
        entry.context.subst,
        0,
        start,
    )->Ok_0;
    entering_moves_what_is_taken(module, table, call, entry);
    alias_check_passes_where_nothing_is_shared(binding.plan.reachable, binding.observed);
    assert forall|id: u32| #[trigger] taken.contains(id) <==> taken_in(
        params,
        call.args,
        params.len() as int,
        id,
    ) by {
    }
    assert forall|met: Set<u32>| #[trigger] kept(table, entry.table, met, taken) by {
        assert forall|id: u32| met.contains(id) && id < table.records.len() implies {
            let record = #[trigger] table.records[id as int];
            let record1 = entry.table.records[id as int];
            &&& id < entry.table.records.len()
            &&& record1.item == record.item
            &&& record1.fields == record.fields
            &&& !taken.contains(id) ==> record1.generation == record.generation
        } by {
            assert(taken.contains(id) <==> taken_in(
                params,
                call.args,
                params.len() as int,
                id,
            ));
        }
    }
    assert forall|k: int, handle: ResourceHandle|
        0 <= k < params.len() && (#[trigger] params[k]).take && #[trigger] has_handle(
            binding.values[params[k].value.0],
            handle,
        ) implies entry.table.record(handle) is Ok by {
        assert(entry.table.observe(handle) is Ok);
    }
    assert forall|id: u32| #[trigger] taken.contains(id) implies !binding.observed.contains(id) by {
        taken_is_planned(
            module,
            table,
            params,
            call.args,
            entry.context.subst,
            0,
            start,
            binding,
            id,
        );
    }
    bound_arguments_fit_from(
        module,
        table,
        entry.table,
        params,
        call.args,
        entry.context.subst,
        0,
        start,
        binding,
    );
}

// ---------------------------------------------------------------------
// Capturing for a deferred call, and returning.
// ---------------------------------------------------------------------

/// What a deferred call captured fits the type declared for the capture.
pub proof fn captured_value_fits(
    module: Module,
    state: StateView,
    locals: LocalsView,
    context: ContextView,
    result: ValueId,
    ty: Ty,
    source: ValueId,
    depth: nat,
    state1: StateView,
    locals1: LocalsView,
    outcome: Result<(), ErrorView>,
)
    requires
        executed(
            module,
            state,
            Instruction::Value { result, ty, kind: ValueKind::DeferCapture { source } },
            locals,
            context,
            depth,
        ) == (state1, locals1, outcome),
        outcome is Ok,
    ensures
        locals1.values.contains_key(result.0),
        argument_check(
            module,
            state1.table,
            locals1.values[result.0],
            substituted(ty@, context.subst),
        ) is Ok,
{
    let value = read_value(locals.values, source)->Ok_0;
    moved_value_fits_as_before(
        module,
        state.table,
        value,
        state1.table,
        locals1.values[result.0],
    );
}

/// A value that does not fit the type declared for a capture is not
/// captured, and nothing changes.
pub proof fn misfit_is_not_captured(
    module: Module,
    state: StateView,
    locals: LocalsView,
    context: ContextView,
    result: ValueId,
    ty: Ty,
    source: ValueId,
    depth: nat,
)
    requires
        locals.values.contains_key(source.0),
        argument_check(
            module,
            state.table,
            locals.values[source.0],
            substituted(ty@, context.subst),
        ) is Err,
    ensures
        executed(
            module,
            state,
            Instruction::Value { result, ty, kind: ValueKind::DeferCapture { source } },
            locals,
            context,
            depth,
        ) == (
            state,
            locals,
            argument_check(
                module,
                state.table,
                locals.values[source.0],
                substituted(ty@, context.subst),
            ),
        ),
{
}

/// What a function returns, if only that nothing is to be returned, fits
/// the type the function declares.
pub proof fn returned_value_fits(
    module: Module,
    table: TableView,
    function: Function,
    values: Map<u32, ValueView>,
    context: ContextView,
    id: Option<ValueId>,
    table1: TableView,
    result: ValueView,
)
    requires
        returned(module, table, function, values, context, id) == Ok::<
            (TableView, ValueView),
            ErrorView,
        >((table1, result)),
    ensures
        argument_check(
            module,
            table1,
            result,
            substituted(function.return_type@, context.subst),
        ) is Ok,
{
    if id is Some {
        let value = read_value(values, id->0)->Ok_0;
        moved_value_fits_as_before(module, table, value, table1, result);
    }
}

} // verus!
