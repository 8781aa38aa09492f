use crate::destroy::{drop_plan, drop_plan_below, droppable, dropping};
use crate::ids::ItemId;
use crate::interpreter::StateView;
use crate::laws::destruction::{
    destroyed_exactly, destruction_destroys_each_once, destruction_is_planned_soundly,
    destruction_of_all_is_planned_soundly, scheduled,
};
use crate::laws::graph::checked_at;
use crate::laws::transfer::carries;
use crate::layout::payload_views;
use crate::program::{CaseLayout, Module, MAX_GENERIC_DEPTH};
use crate::table::TableView;
use crate::type_ops::{substituted, substituted_all};
use crate::types::{ty_views, TyView};
use crate::validate::{owned_graph, validated, validated_from};
use crate::value::{ErrorView, ResourceHandle, ValueView};
use crate::value_ops::tombstone;
use vstd::prelude::*;

verus! {

broadcast use crate::types::group_type_views;

/// Whether no item of a module is declared both as a record and as a
/// variant.
pub open spec fn declared_apart(module: Module) -> bool {
    forall|item: ItemId| #[trigger]
        module.record_layout(item) is None || module.variant_layout(item) is None
}

/// Whether every record of a table is of a declared resource.
pub open spec fn holds_resources(module: Module, table: TableView) -> bool {
    forall|id: int|
        0 <= id < table.records.len() ==> module.resource((#[trigger] table.records[id]).item)
}

/// The types that stand directly inside a type.
pub open spec fn inside(module: Module, ty: TyView) -> Seq<TyView> {
    match ty {
        TyView::Applied(item, args) => match module.type_substitution(item, args) {
            None => Seq::empty(),
            Some(subst) => substituted_all(module.item_field_types(item), subst),
        },
        TyView::Named(item, _) => module.item_field_types(item),
        _ => Seq::empty(),
    }
}

/// Whether a type is a declared resource.
pub open spec fn resource_type(module: Module, ty: TyView) -> bool {
    match ty {
        TyView::Applied(item, _) => module.resource(item),
        TyView::Named(item, _) => module.resource(item),
        _ => false,
    }
}

/// Whether a type is the plain name of `item`.
pub open spec fn names(ty: TyView, item: u32) -> bool {
    ty matches TyView::Named(named, _) && named.0 == item
}

/// Whether `path` leads from its first type to a resource, each type
/// directly inside the one before.
pub open spec fn leads_to_resource(module: Module, path: Seq<TyView>) -> bool {
    &&& path.len() > 0
    &&& resource_type(module, path.last())
    &&& forall|j: int|
        0 <= j < path.len() - 1 ==> inside(module, #[trigger] path[j]).contains(path[j + 1])
}

/// Whether `path` names no declaration of `visiting`, other than a
/// resource.
pub open spec fn avoids(module: Module, path: Seq<TyView>, visiting: Set<u32>) -> bool {
    forall|j: int, item: u32|
        0 <= j < path.len() && #[trigger] names(path[j], item) && !module.resource(ItemId(item))
            ==> !visiting.contains(item)
}

proof fn last_naming(path: Seq<TyView>, item: u32, i: int) -> (last: int)
    requires
        0 <= i < path.len(),
        names(path[i], item),
    ensures
        i <= last < path.len(),
        names(path[last], item),
        forall|j: int| last < j < path.len() ==> !names(#[trigger] path[j], item),
    decreases path.len() - i,
{
    if exists|j: int| i < j < path.len() && names(#[trigger] path[j], item) {
        let j = choose|j: int| i < j < path.len() && names(#[trigger] path[j], item);
        last_naming(path, item, j)
    } else {
        i
    }
}

proof fn one_affine_makes_any(
    module: Module,
    types: Seq<TyView>,
    i: nat,
    k: int,
    visiting: Set<u32>,
    depth: nat,
)
    requires
        i <= k < types.len(),
        module.affine_within(types[k], visiting, depth),
    ensures
        module.any_affine_within(types, i, visiting, depth),
    decreases k - i,
{
    if i < k {
        one_affine_makes_any(module, types, i + 1, k, visiting, depth);
    }
}

/// A type from which a path leads to a resource is affine.
pub proof fn path_to_resource_makes_affine(
    module: Module,
    path: Seq<TyView>,
    visiting: Set<u32>,
    depth: nat,
)
    requires
        leads_to_resource(module, path),
        avoids(module, path, visiting),
        path.len() + depth <= MAX_GENERIC_DEPTH,
    ensures
        module.affine_within(path[0], visiting, depth),
    decreases path.len(),
{
    let ty = path[0];
    if !resource_type(module, ty) {
        match ty {
            TyView::Named(item, _) => {
                assert(names(path[0], item.0));
                let last = last_naming(path, item.0, 0);
                assert(ItemId(item.0) == item);
                assert(last < path.len() - 1);
                let rest = path.skip(last + 1);
                assert(rest[0] == path[last + 1]);
                assert(inside(module, path[last]).contains(path[last + 1]));
                assert(leads_to_resource(module, rest)) by {
                    assert(rest.last() == path.last());
                    assert forall|j: int| 0 <= j < rest.len() - 1 implies inside(
                        module,
                        #[trigger] rest[j],
                    ).contains(rest[j + 1]) by {
                        assert(rest[j] == path[j + last + 1]);
                        assert(rest[j + 1] == path[j + last + 1 + 1]);
                    }
                }
                let more = visiting.insert(item.0);
                assert(avoids(module, rest, more)) by {
                    assert forall|j: int, other: u32|
                        0 <= j < rest.len() && #[trigger] names(rest[j], other)
                            && !module.resource(ItemId(other)) implies !more.contains(other) by {
                        assert(rest[j] == path[j + last + 1]);
                        assert(names(path[j + last + 1], other));
                    }
                }
                path_to_resource_makes_affine(module, rest, more, depth + 1);
                let types = module.item_field_types(item);
                let k = choose|k: int| 0 <= k < types.len() && types[k] == rest[0];
                one_affine_makes_any(module, types, 0, k, more, depth + 1);
            },
            TyView::Applied(item, args) => {
                assert(path.len() > 1);
                let rest = path.skip(1);
                assert(rest[0] == path[0int + 1]);
                assert(inside(module, path[0]).contains(path[0int + 1]));
                assert(leads_to_resource(module, rest)) by {
                    assert(rest.last() == path.last());
                    assert forall|j: int| 0 <= j < rest.len() - 1 implies inside(
                        module,
                        #[trigger] rest[j],
                    ).contains(rest[j + 1]) by {
                        assert(rest[j] == path[j + 1]);
                        assert(rest[j + 1] == path[j + 1 + 1]);
                    }
                }
                assert(avoids(module, rest, visiting)) by {
                    assert forall|j: int, other: u32|
                        0 <= j < rest.len() && #[trigger] names(rest[j], other)
                            && !module.resource(ItemId(other)) implies !visiting.contains(
                        other,
                    ) by {
                        assert(rest[j] == path[j + 1]);
                        assert(names(path[j + 1], other));
                    }
                }
                path_to_resource_makes_affine(module, rest, visiting, depth + 1);
                let subst = module.type_substitution(item, args)->0;
                let types = substituted_all(module.item_field_types(item), subst);
                let k = choose|k: int| 0 <= k < types.len() && types[k] == rest[0];
                one_affine_makes_any(module, types, 0, k, visiting, depth + 1);
            },
            _ => {
                assert(path.len() > 1);
                assert(inside(module, path[0]).contains(path[0int + 1]));
            },
        }
    }
}

/// Substituting nothing changes nothing.
pub proof fn substituting_nothing(ty: TyView)
    ensures
        substituted(ty, Map::empty()) == ty,
    decreases ty,
{
    if let TyView::Applied(item, args) = ty {
        assert forall|i: int| 0 <= i < args.len() implies substituted(
            #[trigger] args[i],
            Map::empty(),
        ) == args[i] by {
            substituting_nothing(args[i]);
        }
        assert(substituted_all(args, Map::empty()) =~= args);
    }
}

proof fn substituting_nothing_in_all(types: Seq<TyView>)
    ensures
        substituted_all(types, Map::empty()) == types,
{
    assert forall|i: int| 0 <= i < types.len() implies substituted(
        #[trigger] types[i],
        Map::empty(),
    ) == types[i] by {
        substituting_nothing(types[i]);
    }
    assert(substituted_all(types, Map::empty()) =~= types);
}

proof fn payload_is_listed(cases: Seq<CaseLayout>, i: nat, case: int, j: int) -> (k: int)
    requires
        i <= case < cases.len(),
        0 <= j < cases[case].payload@.len(),
    ensures
        0 <= k < payload_views(cases, i).len(),
        payload_views(cases, i)[k] == cases[case].payload@[j]@,
    decreases case - i,
{
    let here = ty_views(cases[i as int].payload@);
    if i == case {
        assert(payload_views(cases, i)[j] == here[j]);
        j
    } else {
        let k = payload_is_listed(cases, i + 1, case, j);
        assert(payload_views(cases, i)[here.len() + k] == payload_views(cases, i + 1)[k]);
        here.len() + k
    }
}

/// The types declared for the parts of a well-formed aggregate stand
/// directly inside the aggregate's own type.
proof fn part_is_inside(
    module: Module,
    ty: TyView,
    item: ItemId,
    args: Seq<TyView>,
    types: Seq<TyView>,
    k: int,
)
    requires
        ty matches TyView::Named(named, _) ==> named == item && args == Seq::<TyView>::empty(),
        ty matches TyView::Applied(named, applied) ==> named == item && args == applied,
        ty is Named || ty is Applied,
        module.type_substitution(item, args) is Some,
        0 <= k < module.item_field_types(item).len(),
        types == substituted_all(
            module.item_field_types(item),
            module.type_substitution(item, args)->0,
        ),
    ensures
        inside(module, ty).contains(types[k]),
{
    let subst = module.type_substitution(item, args)->0;
    if ty is Named {
        let params = module.type_params(item)->0;
        assert(subst =~= Map::empty());
        substituting_nothing_in_all(module.item_field_types(item));
    }
    assert(inside(module, ty) == types);
    assert(types[k] == inside(module, ty)[k]);
}

/// A well-formed value that carries a resource shows a path from the
/// type of its position to that resource's.
proof fn carried_resource_shows_a_path(
    module: Module,
    table: TableView,
    value: ValueView,
    ty: TyView,
    seen: Set<u32>,
    depth: nat,
    id: u32,
) -> (path: Seq<TyView>)
    requires
        declared_apart(module),
        holds_resources(module, table),
        validated(module, table, value, Some(ty), seen, depth).1 is Ok,
        carries(value, id),
    ensures
        leads_to_resource(module, path),
        path[0] == ty,
        path.len() + depth <= MAX_GENERIC_DEPTH,
    decreases MAX_GENERIC_DEPTH - depth,
{
    match value {
        ValueView::Resource(handle) => {
            let path = seq![ty];
            assert(resource_type(module, path.last()));
            path
        },
        ValueView::Record { item, type_args, fields } => {
            let k = choose|k: int| 0 <= k < fields.len() && carries(#[trigger] fields[k], id);
            let declared = module.record_field_types(item, type_args)->Ok_0;
            let seen_k = checked_at(module, table, fields, declared, 0, seen, depth + 1, k);
            let rest = carried_resource_shows_a_path(
                module,
                table,
                fields[k],
                declared[k],
                seen_k,
                depth + 1,
                id,
            );
            part_is_inside(module, ty, item, type_args, declared, k);
            longer_path(module, ty, rest)
        },
        ValueView::Variant { item, type_args, case, payload } => {
            let j = choose|j: int| 0 <= j < payload.len() && carries(#[trigger] payload[j], id);
            let declared = module.case_payload_types(item, type_args, case)->Ok_0;
            let seen_j = checked_at(module, table, payload, declared, 0, seen, depth + 1, j);
            let rest = carried_resource_shows_a_path(
                module,
                table,
                payload[j],
                declared[j],
                seen_j,
                depth + 1,
                id,
            );
            let cases = module.variant_layout(item)->0.cases@;
            assert(module.record_layout(item) is None);
            let k = payload_is_listed(cases, 0, case as int, j);
            let subst = module.type_substitution(item, type_args)->0;
            let types = substituted_all(module.item_field_types(item), subst);
            assert(types[k] == declared[j]);
            part_is_inside(module, ty, item, type_args, types, k);
            longer_path(module, ty, rest)
        },
        _ => Seq::empty(),
    }
}

proof fn longer_path(module: Module, ty: TyView, rest: Seq<TyView>) -> (path: Seq<TyView>)
    requires
        leads_to_resource(module, rest),
        inside(module, ty).contains(rest[0]),
    ensures
        leads_to_resource(module, path),
        path[0] == ty,
        path.len() == rest.len() + 1,
{
    let path = seq![ty] + rest;
    assert(path.last() == rest.last());
    assert forall|j: int| 0 <= j < path.len() - 1 implies inside(module, #[trigger] path[j]).contains(
        path[j + 1],
    ) by {
        assert(path[j + 1] == rest[j]);
        if j > 0 {
            assert(path[j] == rest[j - 1]);
            assert(rest[j - 1 + 1] == rest[j]);
        }
    }
    path
}

/// A well-formed value in a position whose type is not affine carries no
/// resource, at any depth.
pub proof fn unaffine_position_holds_no_resource(
    module: Module,
    table: TableView,
    value: ValueView,
    ty: TyView,
    seen: Set<u32>,
    depth: nat,
    id: u32,
)
    requires
        declared_apart(module),
        holds_resources(module, table),
        validated(module, table, value, Some(ty), seen, depth).1 is Ok,
        !module.affine(ty),
    ensures
        !carries(value, id),
{
    if carries(value, id) {
        let path = carried_resource_shows_a_path(module, table, value, ty, seen, depth, id);
        path_to_resource_makes_affine(module, path, Set::empty(), 0);
    }
}

/// A well-formed value that is judged not to be affine carries no
/// resource, at any depth.
pub proof fn unaffine_value_carries_no_resource(
    module: Module,
    table: TableView,
    value: ValueView,
    id: u32,
)
    requires
        declared_apart(module),
        holds_resources(module, table),
        owned_graph(module, table, value) is Ok,
        module.affine_value(value) == Ok::<bool, ErrorView>(false),
    ensures
        !carries(value, id),
{
    if carries(value, id) {
        match value {
            ValueView::Record { item, type_args, fields } => {
                let k = choose|k: int| 0 <= k < fields.len() && carries(#[trigger] fields[k], id);
                let declared = module.record_field_types(item, type_args)->Ok_0;
                let seen_k = checked_at(module, table, fields, declared, 0, Set::empty(), 1, k);
                let path = carried_resource_shows_a_path(
                    module,
                    table,
                    fields[k],
                    declared[k],
                    seen_k,
                    1,
                    id,
                );
                path_to_resource_makes_affine(module, path, Set::empty(), 0);
                one_affine_makes_any(module, declared, 0, k, Set::empty(), 0);
            },
            ValueView::Variant { item, type_args, case, payload } => {
                let j = choose|j: int| 0 <= j < payload.len() && carries(#[trigger] payload[j], id);
                let declared = module.case_payload_types(item, type_args, case)->Ok_0;
                let seen_j = checked_at(module, table, payload, declared, 0, Set::empty(), 1, j);
                let path = carried_resource_shows_a_path(
                    module,
                    table,
                    payload[j],
                    declared[j],
                    seen_j,
                    1,
                    id,
                );
                path_to_resource_makes_affine(module, path, Set::empty(), 0);
                let cases = module.variant_layout(item)->0.cases@;
                assert(module.record_layout(item) is None);
                let k = payload_is_listed(cases, 0, case as int, j);
                let subst = module.type_substitution(item, type_args)->0;
                let types = substituted_all(module.item_field_types(item), subst);
                assert(types[k] == declared[j]);
                one_affine_makes_any(module, types, 0, k, Set::empty(), 0);
            },
            _ => {},
        }
    }
}

/// Whether `value` owns no live resource of `table`, wherever the search
/// for one begins.
pub open spec fn owns_nothing_live(table: TableView, value: ValueView) -> bool {
    forall|seen: Set<u32>, depth: nat, exiting: Set<u32>| #[trigger]
        table.owns_live(value, seen, depth, exiting).1 == false
}

proof fn nothing_carried_is_nothing_owned(
    table: TableView,
    value: ValueView,
    seen: Set<u32>,
    depth: nat,
    exiting: Set<u32>,
)
    requires
        forall|id: u32| !#[trigger] carries(value, id),
    ensures
        !table.owns_live(value, seen, depth, exiting).1,
    decreases MAX_GENERIC_DEPTH - depth, 0nat,
{
    if depth < MAX_GENERIC_DEPTH {
        match value {
            ValueView::Resource(handle) => {
                assert(carries(value, handle.id.0));
            },
            ValueView::Record { fields, .. } => {
                assert forall|i: int, id: u32| 0 <= i < fields.len() implies !#[trigger] carries(
                    fields[i],
                    id,
                ) by {
                    assert(!carries(value, id));
                }
                nothing_carried_is_nothing_owned_from(table, fields, 0, seen, depth + 1, exiting);
            },
            ValueView::Variant { payload, .. } => {
                assert forall|i: int, id: u32| 0 <= i < payload.len() implies !#[trigger] carries(
                    payload[i],
                    id,
                ) by {
                    assert(!carries(value, id));
                }
                nothing_carried_is_nothing_owned_from(table, payload, 0, seen, depth + 1, exiting);
            },
            _ => {},
        }
    }
}

proof fn nothing_carried_is_nothing_owned_from(
    table: TableView,
    values: Seq<ValueView>,
    i: nat,
    seen: Set<u32>,
    depth: nat,
    exiting: Set<u32>,
)
    requires
        forall|k: int, id: u32| 0 <= k < values.len() ==> !#[trigger] carries(values[k], id),
    ensures
        !table.owns_live_from(values, i, seen, depth, exiting).1,
    decreases MAX_GENERIC_DEPTH - depth, 1 + values.len() - i,
{
    if i < values.len() {
        if depth < MAX_GENERIC_DEPTH {
            nothing_carried_is_nothing_owned(table, values[i as int], seen, depth, exiting);
        }
        let (seen1, _) = table.owns_live(values[i as int], seen, depth, exiting);
        nothing_carried_is_nothing_owned_from(table, values, i + 1, seen1, depth, exiting);
    }
}

proof fn nothing_owned_in_all(
    table: TableView,
    values: Seq<ValueView>,
    i: nat,
    seen: Set<u32>,
    depth: nat,
    exiting: Set<u32>,
)
    requires
        forall|k: int| 0 <= k < values.len() ==> owns_nothing_live(table, #[trigger] values[k]),
    ensures
        !table.owns_live_from(values, i, seen, depth, exiting).1,
    decreases values.len() - i,
{
    if i < values.len() {
        assert(owns_nothing_live(table, values[i as int]));
        let (seen1, _) = table.owns_live(values[i as int], seen, depth, exiting);
        nothing_owned_in_all(table, values, i + 1, seen1, depth, exiting);
    }
}

/// What a value still owned is destroyed once every resource of a plan
/// of its destruction is.
proof fn carrying_out_a_plan_leaves_nothing(
    module: Module,
    table: TableView,
    value: ValueView,
    expected: Option<TyView>,
    known: Set<u32>,
    level: nat,
    seen: Set<u32>,
    plan: Seq<ResourceHandle>,
    depth: nat,
    all: Seq<ResourceHandle>,
    table1: TableView,
)
    requires
        declared_apart(module),
        holds_resources(module, table),
        validated(module, table, value, expected, known, level).1 is Ok,
        droppable(table, plan, seen),
        drop_plan(module, table, value, seen, plan, depth).2 is Ok,
        drop_plan(module, table, value, seen, plan, depth).1.is_prefix_of(all),
        destroyed_exactly(table, all, 0, table1),
    ensures
        owns_nothing_live(table1, value),
    decreases MAX_GENERIC_DEPTH - depth, 0nat,
{
    let planned = drop_plan(module, table, value, seen, plan, depth).1;
    match value {
        ValueView::Resource(handle) => {
            let record = table.observe(handle)->Ok_0;
            let declared = module.record_field_types(record.item, Seq::empty())->Ok_0;
            let n = (planned.len() - 1) as nat;
            let seen1 = seen.insert(handle.id.0);
            let below = drop_plan_below(
                module,
                table,
                record.fields,
                declared,
                record.fields.len(),
                seen1,
                plan,
                depth + 1,
            );
            assert(planned == below.1.push(handle));
            assert(below.1.is_prefix_of(all)) by {
                assert(below.1 =~= planned.take(below.1.len() as int));
                assert(below.1 =~= all.take(below.1.len() as int));
            }
            carrying_out_a_plan_leaves_nothing_below(
                module,
                table,
                record.fields,
                declared,
                known.insert(handle.id.0),
                level + 1,
                record.fields.len(),
                seen1,
                plan,
                depth + 1,
                all,
                table1,
            );
            assert(all.skip(0) =~= all);
            assert(scheduled(all.skip(0), handle.id.0 as int)) by {
                assert(planned[n as int] == handle);
                assert(all.skip(0)[n as int].id.0 == handle.id.0);
            }
            let record1 = table1.records[handle.id.0 as int];
            assert(record1.status is Dropped);
            assert(record1.fields == record.fields);
            assert forall|s: Set<u32>, d: nat, e: Set<u32>| #[trigger]
                table1.owns_live(value, s, d, e).1 == false by {
                if d < MAX_GENERIC_DEPTH {
                    nothing_owned_in_all(
                        table1,
                        record.fields,
                        0,
                        s.insert(handle.id.0),
                        d + 1,
                        e,
                    );
                }
            }
        },
        ValueView::Record { item, type_args, fields } => {
            let declared = module.record_field_types(item, type_args)->Ok_0;
            carrying_out_a_plan_leaves_nothing_below(
                module,
                table,
                fields,
                declared,
                known,
                level + 1,
                fields.len(),
                seen,
                plan,
                depth + 1,
                all,
                table1,
            );
            assert forall|s: Set<u32>, d: nat, e: Set<u32>| #[trigger]
                table1.owns_live(value, s, d, e).1 == false by {
                if d < MAX_GENERIC_DEPTH {
                    nothing_owned_in_all(table1, fields, 0, s, d + 1, e);
                }
            }
        },
        ValueView::Variant { item, type_args, case, payload } => {
            let declared = module.case_payload_types(item, type_args, case)->Ok_0;
            carrying_out_a_plan_leaves_nothing_below(
                module,
                table,
                payload,
                declared,
                known,
                level + 1,
                payload.len(),
                seen,
                plan,
                depth + 1,
                all,
                table1,
            );
            assert forall|s: Set<u32>, d: nat, e: Set<u32>| #[trigger]
                table1.owns_live(value, s, d, e).1 == false by {
                if d < MAX_GENERIC_DEPTH {
                    nothing_owned_in_all(table1, payload, 0, s, d + 1, e);
                }
            }
        },
        _ => {},
    }
}

proof fn carrying_out_a_plan_leaves_nothing_below(
    module: Module,
    table: TableView,
    values: Seq<ValueView>,
    declared: Seq<TyView>,
    known: Set<u32>,
    level: nat,
    n: nat,
    seen: Set<u32>,
    plan: Seq<ResourceHandle>,
    depth: nat,
    all: Seq<ResourceHandle>,
    table1: TableView,
)
    requires
        declared_apart(module),
        holds_resources(module, table),
        validated_from(module, table, values, declared, 0, known, level).1 is Ok,
        n <= values.len() == declared.len(),
        droppable(table, plan, seen),
        drop_plan_below(module, table, values, declared, n, seen, plan, depth).2 is Ok,
        drop_plan_below(module, table, values, declared, n, seen, plan, depth).1.is_prefix_of(all),
        destroyed_exactly(table, all, 0, table1),
    ensures
        forall|k: int| 0 <= k < n ==> owns_nothing_live(table1, #[trigger] values[k]),
    decreases MAX_GENERIC_DEPTH - depth, 1 + n,
{
    if n > 0 {
        let i = n - 1;
        let known_i = checked_at(module, table, values, declared, 0, known, level, i);
        if tombstone(values[i]) {
            assert(owns_nothing_live(table1, values[i]));
            carrying_out_a_plan_leaves_nothing_below(
                module,
                table,
                values,
                declared,
                known,
                level,
                i as nat,
                seen,
                plan,
                depth,
                all,
                table1,
            );
        } else if !module.affine(declared[i]) {
            assert forall|id: u32| !#[trigger] carries(values[i], id) by {
                unaffine_position_holds_no_resource(
                    module,
                    table,
                    values[i],
                    declared[i],
                    known_i,
                    level,
                    id,
                );
            }
            assert forall|s: Set<u32>, d: nat, e: Set<u32>| #[trigger]
                table1.owns_live(values[i], s, d, e).1 == false by {
                nothing_carried_is_nothing_owned(table1, values[i], s, d, e);
            }
            carrying_out_a_plan_leaves_nothing_below(
                module,
                table,
                values,
                declared,
                known,
                level,
                i as nat,
                seen,
                plan,
                depth,
                all,
                table1,
            );
        } else {
            let (seen1, plan1, r) = drop_plan(module, table, values[i], seen, plan, depth);
            destruction_is_planned_soundly(module, table, values[i], seen, plan, depth);
            destruction_of_all_is_planned_soundly(
                module,
                table,
                values,
                declared,
                i as nat,
                seen1,
                plan1,
                depth,
            );
            let whole = drop_plan_below(module, table, values, declared, n, seen, plan, depth).1;
            assert(plan1.is_prefix_of(all)) by {
                assert(plan1 =~= whole.take(plan1.len() as int));
                assert(plan1 =~= all.take(plan1.len() as int));
            }
            carrying_out_a_plan_leaves_nothing(
                module,
                table,
                values[i],
                Some(declared[i]),
                known_i,
                level,
                seen,
                plan,
                depth,
                all,
                table1,
            );
            carrying_out_a_plan_leaves_nothing_below(
                module,
                table,
                values,
                declared,
                known,
                level,
                i as nat,
                seen1,
                plan1,
                depth,
                all,
                table1,
            );
        }
    }
}

/// Destroying a value leaves it owning no live resource.
pub proof fn destruction_leaves_nothing_alive(
    module: Module,
    state: StateView,
    value: ValueView,
    state1: StateView,
)
    requires
        declared_apart(module),
        holds_resources(module, state.table),
        dropping(module, state, value) == Ok::<StateView, ErrorView>(state1),
    ensures
        owns_nothing_live(state1.table, value),
{
    let plan = destruction_destroys_each_once(module, state, value, state1);
    assert(plan.is_prefix_of(plan)) by {
        assert(plan =~= plan.take(plan.len() as int));
    }
    carrying_out_a_plan_leaves_nothing(
        module,
        state.table,
        value,
        None,
        Set::empty(),
        0,
        Set::empty(),
        Seq::empty(),
        0,
        plan,
        state1.table,
    );
}

/// Whether an application gives its item another number of arguments than
/// it declares, or applies what is not declared.
pub open spec fn misapplied(module: Module, ty: TyView) -> bool {
    ty matches TyView::Applied(item, args) && match module.type_params(item) {
        Some(params) => params.len() != args.len(),
        None => true,
    }
}

/// Whether `path` leads from its first type to the last, each type directly
/// inside the one before, and the last is a resource or misapplied.
pub open spec fn leads_to_a_reason(module: Module, path: Seq<TyView>) -> bool {
    &&& path.len() > 0
    &&& resource_type(module, path.last()) || misapplied(module, path.last())
    &&& forall|j: int|
        0 <= j < path.len() - 1 ==> inside(module, #[trigger] path[j]).contains(path[j + 1])
}

proof fn affine_path(
    module: Module,
    ty: TyView,
    visiting: Set<u32>,
    depth: nat,
) -> (path: Seq<TyView>)
    requires
        module.affine_within(ty, visiting, depth),
    ensures
        leads_to_a_reason(module, path),
        path[0] == ty,
    decreases MAX_GENERIC_DEPTH - depth, 0nat,
{
    let types = inside(module, ty);
    if resource_type(module, ty) || misapplied(module, ty) {
        seq![ty]
    } else {
        let next = match ty {
            TyView::Named(item, _) => visiting.insert(item.0),
            _ => visiting,
        };
        let (k, rest) = one_affine_path(module, types, 0, next, depth + 1);
        let path = seq![ty] + rest;
        assert forall|j: int| 0 <= j < path.len() - 1 implies inside(
            module,
            #[trigger] path[j],
        ).contains(path[j + 1]) by {
            if j == 0 {
                assert(path[1] == types[k]);
            } else {
                assert(path[j] == rest[j - 1]);
                assert(path[j + 1] == rest[j]);
            }
        }
        assert(path.last() == rest.last());
        path
    }
}

proof fn one_affine_path(
    module: Module,
    types: Seq<TyView>,
    i: nat,
    visiting: Set<u32>,
    depth: nat,
) -> (r: (int, Seq<TyView>))
    requires
        module.any_affine_within(types, i, visiting, depth),
    ensures
        i <= r.0 < types.len(),
        leads_to_a_reason(module, r.1),
        r.1[0] == types[r.0],
    decreases MAX_GENERIC_DEPTH - depth, 1 + types.len() - i,
{
    if module.affine_within(types[i as int], visiting, depth) {
        let path = affine_path(module, types[i as int], visiting, depth);
        (i as int, path)
    } else {
        one_affine_path(module, types, i + 1, visiting, depth)
    }
}

/// A type is affine for a reason: somewhere inside it, a resource is
/// declared, or an application does not fit its declaration.
pub proof fn affine_type_has_its_reason(module: Module, ty: TyView) -> (path: Seq<TyView>)
    requires
        module.affine(ty),
    ensures
        leads_to_a_reason(module, path),
        path[0] == ty,
{
    affine_path(module, ty, Set::empty(), 0)
}

} // verus!
