use crate::eval::{filled, filling_check, plan_values, type_args_in};
use crate::ids::{ItemId, ResourceId, ValueId};
use crate::laws::boundary::{planned_value_stands_for_it, stands_for};
use crate::laws::construction::{carried_in, filling_moves_what_is_supplied};
use crate::laws::dispatch::{
    closed_instances, reading_keeps_the_order, type_arguments_are_instances,
};
use crate::laws::observation::{observing_view_carries_only_observers, only_observers};
use crate::laws::operators::Scene;
use crate::laws::reading::{observing_view_shows_it, shows};
use crate::laws::transfer::{carries, has_handle, planning_moves_what_is_carried, sound_plan};
use crate::ownership::{plan_inner, PlanView};
use crate::program::{Module, ValueKind};
use crate::table::TableView;
use crate::types::{ty_views, Ty, TyView};
use crate::validate::validated;
use crate::value::{ErrorView, ResourceHandle, RuntimeOwnershipRole, ValueView};
use vstd::prelude::*;

verus! {

broadcast use crate::types::group_type_views;

// ---------------------------------------------------------------------
// Making records, resources and variants.
// ---------------------------------------------------------------------

proof fn plans_rebuild_in_order(
    module: Module,
    table: TableView,
    values: Seq<ValueView>,
    i: nat,
    done: Seq<ValueView>,
    plan: PlanView,
    fields: Seq<ValueView>,
)
    requires
        plan_values(module, table, values, i, done, plan).1 == Ok::<Seq<ValueView>, ErrorView>(
            fields,
        ),
        sound_plan(table, plan),
        i <= values.len(),
        done.len() == i,
        forall|k: int| 0 <= k < i ==> #[trigger] rebuilt(module, table, values[k], done[k]),
    ensures
        fields.len() == values.len(),
        forall|k: int|
            0 <= k < values.len() ==> #[trigger] rebuilt(module, table, values[k], fields[k]),
    decreases values.len() - i,
{
    if i < values.len() {
        let (plan1, r) = plan_inner(module, table, values[i as int], plan, 0);
        let value = r->Ok_0;
        planning_moves_what_is_carried(module, table, values[i as int], plan, 0);
        assert(rebuilt(module, table, values[i as int], value));
        let next = done.push(value);
        assert forall|k: int| 0 <= k < i + 1 implies #[trigger] rebuilt(
            module,
            table,
            values[k],
            next[k],
        ) by {
            if k < i {
                assert(rebuilt(module, table, values[k], done[k]));
            }
        }
        plans_rebuild_in_order(module, table, values, i + 1, next, plan1, fields);
    } else {
        assert(done == fields);
    }
}

/// Whether some plan gives `value` back as `moved`.
spec fn rebuilt(module: Module, table: TableView, value: ValueView, moved: ValueView) -> bool {
    exists|plan: PlanView|
        sound_plan(table, plan) && (#[trigger] plan_inner(module, table, value, plan, 0)).1 == Ok::<
            ValueView,
            ErrorView,
        >(moved)
}

proof fn supplied_values_are_checked(
    module: Module,
    table: TableView,
    values: Seq<ValueView>,
    declared: Seq<TyView>,
    i: nat,
)
    requires
        filling_check(module, table, values, declared, i) is Ok,
    ensures
        forall|k: int|
            i <= k < values.len() ==> validated(
                module,
                table,
                #[trigger] values[k],
                Some(declared[k]),
                Set::empty(),
                0,
            ).1 is Ok,
    decreases values.len() - i,
{
    if i < values.len() {
        supplied_values_are_checked(module, table, values, declared, i + 1);
    }
}

/// Whether `made` are the values of the frame under `ids`, in their order,
/// as something new holds them: each fitted the type declared for its
/// position, and stands there with owning handles that work, in place of
/// handles that are stale now. The resources they carry passed to their
/// next generation; no other that was there changed.
pub open spec fn put_into(
    at: Scene,
    ids: Seq<ValueId>,
    declared: Seq<TyView>,
    table1: TableView,
    made: Seq<ValueView>,
) -> bool {
    let table = at.state.table;
    &&& made.len() == ids.len()
    &&& declared.len() == ids.len()
    &&& table.records.len() <= table1.records.len()
    &&& table1.leases == table.leases
    &&& forall|k: int|
        0 <= k < ids.len() ==> {
            &&& at.values.contains_key((#[trigger] ids[k]).0)
            &&& validated(
                at.module,
                table,
                at.values[ids[k].0],
                Some(declared[k]),
                Set::empty(),
                0,
            ).1 is Ok
            &&& stands_for(table1, at.values[ids[k].0], made[k])
        }
    &&& forall|k: int, handle: ResourceHandle|
        0 <= k < ids.len() && #[trigger] has_handle(at.values[ids[k].0], handle) ==> table1.record(
            handle,
        ) is Err
    &&& forall|k: int, handle: ResourceHandle|
        0 <= k < ids.len() && #[trigger] has_handle(made[k], handle) ==> handle.role is Owner
            && table1.observe(handle) is Ok
    &&& forall|id: u32|
        (id as int) < table.records.len() ==> {
            let before = table.records[id as int];
            let after = #[trigger] table1.records[id as int];
            &&& after.item == before.item
            &&& after.status == before.status
            &&& after.fields == before.fields
            &&& after.generation as int == if exists|k: int|
                0 <= k < ids.len() && carries(at.values[(#[trigger] ids[k]).0], id) {
                (before.generation + 1) % 0x1_0000_0000_0000_0000
            } else {
                before.generation as int
            }
        }
}

proof fn filling_puts_in(
    at: Scene,
    ids: Seq<ValueId>,
    declared: Seq<TyView>,
    miscounted: Seq<char>,
    table1: TableView,
    fields: Seq<ValueView>,
    table2: TableView,
)
    requires
        filled(at.module, at.state.table, at.values, declared, ids, miscounted) == Ok::<
            (TableView, Seq<ValueView>),
            ErrorView,
        >((table1, fields)),
        table2.leases == table1.leases,
        table1.records.len() <= table2.records.len(),
        table2.records.len() <= u32::MAX + 1,
        forall|k: int|
            0 <= k < table1.records.len() ==> #[trigger] table2.records[k] == table1.records[k],
    ensures
        put_into(at, ids, declared, table2, fields),
{
    let table = at.state.table;
    let supplied = filling_moves_what_is_supplied(
        at.module,
        table,
        at.values,
        declared,
        ids,
        miscounted,
        table1,
        fields,
    );
    reading_keeps_the_order(at.values, ids, 0, Seq::empty(), supplied);
    supplied_values_are_checked(at.module, table, supplied, declared, 0);
    plans_rebuild_in_order(
        at.module,
        table,
        supplied,
        0,
        Seq::empty(),
        PlanView::empty(),
        fields,
    );
    assert forall|k: int, handle: ResourceHandle|
        0 <= k < ids.len() && #[trigger] has_handle(fields[k], handle) implies handle.role is Owner
        && table2.observe(handle) is Ok by {
        assert(table1.observe(handle) is Ok);
        assert(table2.records[handle.id.0 as int] == table1.records[handle.id.0 as int]);
    }
    assert forall|k: int, handle: ResourceHandle|
        0 <= k < ids.len() && #[trigger] has_handle(
            at.values[ids[k].0],
            handle,
        ) implies table2.record(handle) is Err by {
        assert(at.values.contains_key(ids[k].0));
        assert(has_handle(supplied[k], handle));
        assert(table1.record(handle) is Err);
        assert(rebuilt(at.module, table, supplied[k], fields[k]));
        let plan = choose|plan: PlanView|
            sound_plan(table, plan)
                && (#[trigger] plan_inner(at.module, table, supplied[k], plan, 0)).1 == Ok::<
                ValueView,
                ErrorView,
            >(fields[k]);
        planning_moves_what_is_carried(
            at.module,
            table,
            supplied[k],
            plan,
            0,
        );
        assert((handle.id.0 as int) < table.records.len());
        assert(table2.records[handle.id.0 as int] == table1.records[handle.id.0 as int]);
    }
    assert forall|k: int| 0 <= k < ids.len() implies {
        &&& at.values.contains_key((#[trigger] ids[k]).0)
        &&& validated(
            at.module,
            table,
            at.values[ids[k].0],
            Some(declared[k]),
            Set::empty(),
            0,
        ).1 is Ok
        &&& stands_for(table2, at.values[ids[k].0], fields[k])
    } by {
        assert(supplied[k] == at.values[ids[k].0]);
        assert(rebuilt(at.module, table, supplied[k], fields[k]));
        let plan = choose|plan: PlanView|
            sound_plan(table, plan)
                && (#[trigger] plan_inner(at.module, table, supplied[k], plan, 0)).1 == Ok::<
                ValueView,
                ErrorView,
            >(fields[k]);
        assert forall|handle: ResourceHandle| #[trigger]
            has_handle(fields[k], handle) implies table2.record(handle) is Ok by {
            assert(table2.observe(handle) is Ok);
        }
        planned_value_stands_for_it(
            at.module,
            table,
            table2,
            supplied[k],
            plan,
            0,
            fields[k],
        );
    }
    assert forall|id: u32| (id as int) < table.records.len() implies {
        let before = table.records[id as int];
        let after = #[trigger] table2.records[id as int];
        &&& after.item == before.item
        &&& after.status == before.status
        &&& after.fields == before.fields
        &&& after.generation as int == if exists|k: int|
            0 <= k < ids.len() && carries(at.values[(#[trigger] ids[k]).0], id) {
            (before.generation + 1) % 0x1_0000_0000_0000_0000
        } else {
            before.generation as int
        }
    } by {
        let g = table.records[id as int].generation;
        assert((g + 1) % 0x1_0000_0000_0000_0000 == if g == u64::MAX {
            0
        } else {
            g + 1
        });
        assert(table2.records[id as int] == table1.records[id as int]);
        let carried = exists|k: int|
            0 <= k < ids.len() && carries(at.values[(#[trigger] ids[k]).0], id);
        assert(carried == carried_in(
            supplied,
            supplied.len() as int,
            id,
        )) by {
            if carried {
                let k = choose|k: int|
                    0 <= k < ids.len() && carries(at.values[(#[trigger] ids[k]).0], id);
                assert(supplied[k] == at.values[ids[k].0]);
                assert(carries(supplied[k], id));
            }
            if carried_in(supplied, supplied.len() as int, id) {
                let k = choose|k: int|
                    0 <= k < supplied.len() as int && carries(#[trigger] supplied[k], id);
                assert(supplied[k] == at.values[ids[k].0]);
                assert(carries(at.values[ids[k].0], id));
            }
        }
    }
}

/// A construction makes what it names of the values under its operands, in
/// their order, each of which fits its field: a resource is a new one,
/// alive, of the first generation, which the handle it gives owns; a
/// record that is none holds its fields itself, with its closed type
/// arguments. A refused construction changes nothing.
pub proof fn record_is_made_of_its_fields(
    at: Scene,
    item: ItemId,
    type_args: Vec<Ty>,
    ids: Vec<ValueId>,
)
    requires
        at.state.table.records.len() <= u32::MAX,
    ensures
        ({
            let (state1, r) = at.outcome(ValueKind::RecordCreate(item, type_args, ids));
            let table = at.state.table;
            let new = table.records.len() as int;
            match r {
                Err(_) => state1 == at.state,
                Ok(value) => {
                    &&& state1.events == at.state.events
                    &&& exists|args: Seq<TyView>, declared: Seq<TyView>, fields: Seq<ValueView>|
                        {
                            &&& closed_instances(ty_views(type_args@), at.subst, args)
                            &&& #[trigger] at.module.record_field_types(item, args) == Ok::<
                                Seq<TyView>,
                                ErrorView,
                            >(declared)
                            &&& #[trigger] put_into(at, ids@, declared, state1.table, fields)
                            &&& if at.module.resource(item) {
                                &&& value == ValueView::Resource(
                                    ResourceHandle {
                                        id: ResourceId(new as u32),
                                        generation: 0,
                                        role: RuntimeOwnershipRole::Owner,
                                        lease: None,
                                    },
                                )
                                &&& state1.table.records.len() == new + 1
                                &&& state1.table.records[new].item == item
                                &&& state1.table.records[new].generation == 0
                                &&& state1.table.records[new].status is Alive
                                &&& state1.table.records[new].fields == fields
                            } else {
                                &&& value == ValueView::Record { item, type_args: args, fields }
                                &&& state1.table.records.len() == new
                            }
                        }
                },
            }
        }),
{
    let table = at.state.table;
    let (state1, r) = at.outcome(ValueKind::RecordCreate(item, type_args, ids));
    if r is Ok {
        let args = type_args_in(ty_views(type_args@), at.subst)->Ok_0;
        type_arguments_are_instances(ty_views(type_args@), at.subst, 0, Seq::empty(), args);
        let declared = at.module.record_field_types(item, args)->Ok_0;
        let miscounted =
            "a runtime construction supplies a field count its declaration does not declare"@;
        let (table1, fields) = filled(
            at.module,
            table,
            at.values,
            declared,
            ids@,
            miscounted,
        )->Ok_0;
        let supplied = filling_moves_what_is_supplied(
            at.module,
            table,
            at.values,
            declared,
            ids@,
            miscounted,
            table1,
            fields,
        );
        filling_puts_in(at, ids@, declared, miscounted, table1, fields, state1.table);
        assert(at.module.record_field_types(item, args) == Ok::<Seq<TyView>, ErrorView>(declared));
        assert(put_into(at, ids@, declared, state1.table, fields));
    }
}

/// A construction of a variant makes the case it names, of the values
/// under its operands, in their order, each of which fits its position in
/// that case's payload. A refused construction changes nothing.
pub proof fn variant_is_made_of_its_payload(
    at: Scene,
    variant: ItemId,
    case: usize,
    type_args: Vec<Ty>,
    payload: Vec<ValueId>,
)
    requires
        at.state.table.records.len() <= u32::MAX,
    ensures
        ({
            let (state1, r) = at.outcome(
                ValueKind::VariantCreate { variant, case, type_args, payload },
            );
            match r {
                Err(_) => state1 == at.state,
                Ok(value) => {
                    &&& state1.events == at.state.events
                    &&& state1.table.records.len() == at.state.table.records.len()
                    &&& exists|args: Seq<TyView>, declared: Seq<TyView>, fields: Seq<ValueView>|
                        {
                            &&& closed_instances(ty_views(type_args@), at.subst, args)
                            &&& #[trigger] at.module.case_payload_types(variant, args, case)
                                == Ok::<Seq<TyView>, ErrorView>(declared)
                            &&& #[trigger] put_into(at, payload@, declared, state1.table, fields)
                            &&& value == ValueView::Variant {
                                item: variant,
                                type_args: args,
                                case,
                                payload: fields,
                            }
                        }
                },
            }
        }),
{
    let table = at.state.table;
    let (state1, r) = at.outcome(ValueKind::VariantCreate { variant, case, type_args, payload });
    if r is Ok {
        let args = type_args_in(ty_views(type_args@), at.subst)->Ok_0;
        type_arguments_are_instances(ty_views(type_args@), at.subst, 0, Seq::empty(), args);
        let declared = at.module.case_payload_types(variant, args, case)->Ok_0;
        let miscounted =
            "a runtime construction supplies a payload count its active case does not declare"@;
        let (table1, fields) = filled(
            at.module,
            table,
            at.values,
            declared,
            payload@,
            miscounted,
        )->Ok_0;
        let supplied = filling_moves_what_is_supplied(
            at.module,
            table,
            at.values,
            declared,
            payload@,
            miscounted,
            table1,
            fields,
        );
        filling_puts_in(at, payload@, declared, miscounted, table1, fields, state1.table);
        assert(at.module.case_payload_types(variant, args, case) == Ok::<Seq<TyView>, ErrorView>(
            declared,
        ));
        assert(put_into(at, payload@, declared, state1.table, fields));
    }
}

// ---------------------------------------------------------------------
// Looking into them.
// ---------------------------------------------------------------------

/// Whether `value` has a field at a position of what `record` declares,
/// and holds `held` there.
pub open spec fn holds_in_field(
    table: TableView,
    value: ValueView,
    record: ItemId,
    field: usize,
    held: ValueView,
) -> bool {
    match value {
        ValueView::Record { item, fields, .. } => item == record && field < fields.len()
            && held == fields[field as int],
        ValueView::Resource(handle) => {
            let resource = table.records[handle.id.0 as int];
            &&& table.observe(handle) is Ok
            &&& resource.item == record
            &&& field < resource.fields.len()
            &&& held == resource.fields[field as int]
        },
        _ => false,
    }
}

/// Selecting a field shows what a record or a living resource of the
/// record that is named holds there, through observers only, and changes
/// nothing. Of anything else it is refused.
pub proof fn field_is_shown(at: Scene, base: ValueId, record: ItemId, field: usize)
    ensures
        ({
            let (state1, r) = at.outcome(ValueKind::RecordField { base, record, field });
            &&& state1 == at.state
            &&& r matches Ok(view) ==> at.values.contains_key(base.0) && only_observers(view, None)
                && exists|held: ValueView| #[trigger]
                holds_in_field(at.state.table, at.values[base.0], record, field, held) && shows(
                    held,
                    view,
                )
        }),
{
    let (state1, r) = at.outcome(ValueKind::RecordField { base, record, field });
    match r {
        Ok(view) => {
            let table = at.state.table;
            let value = at.values[base.0];
            let held = match value {
                ValueView::Record { fields, .. } => fields[field as int],
                ValueView::Resource(handle) => table.records[handle.id.0 as int].fields[
                    field as int],
                other => other,
            };
            assert(holds_in_field(table, value, record, field, held));
            observing_view_shows_it(table, held, None, 0, view);
            observing_view_carries_only_observers(table, held, None, 0, view);
        },
        Err(_) => {},
    }
}

/// Selecting a position of a payload gives what the case that is named
/// holds there, if it is the live one, and changes nothing.
pub proof fn payload_is_given(
    at: Scene,
    base: ValueId,
    variant: ItemId,
    case: usize,
    index: usize,
    value: ValueView,
)
    ensures
        at.gives(ValueKind::VariantPayload { base, variant, case, index }, value) <==> {
            &&& at.values.contains_key(base.0)
            &&& at.values[base.0] matches ValueView::Variant { item, case: live, payload, .. }
                && item == variant && live == case && index < payload.len() && value
                == payload[index as int]
        },
        at.gives(ValueKind::VariantPayload { base, variant, case, index }, value) || at.outcome(
            ValueKind::VariantPayload { base, variant, case, index },
        ).1 != Ok::<ValueView, ErrorView>(value),
        at.outcome(ValueKind::VariantPayload { base, variant, case, index }).0 == at.state,
{
}

} // verus!
