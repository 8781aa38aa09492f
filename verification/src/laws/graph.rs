use crate::ids::ResourceId;
use crate::laws::transfer::{carries, has_handle};
use crate::program::{Module, MAX_GENERIC_DEPTH};
use crate::table::TableView;
use crate::types::TyView;
use crate::validate::{owned_graph, validated, validated_from};
use crate::value::{ResourceHandle, ValueView};
use vstd::prelude::*;

verus! {

// ---------------------------------------------------------------------
// Well-formed graphs.
// ---------------------------------------------------------------------

/// Whether `value` reaches the resource numbered `id` within `hops`
/// steps from a resource into its own fields.
pub open spec fn reaches(table: TableView, value: ValueView, id: u32, hops: nat) -> bool
    decreases hops,
{
    ||| carries(value, id)
    ||| hops > 0 && exists|handle: ResourceHandle, k: int|
        #![trigger has_handle(value, handle), table.records[handle.id.0 as int].fields[k]]
        has_handle(value, handle) && 0 <= k < table.records[handle.id.0 as int].fields.len()
            && reaches(
            table,
            table.records[handle.id.0 as int].fields[k],
            id,
            (hops - 1) as nat,
        )
}

/// Checking a value forgets no resource that was met, and meets every
/// resource the value carries for the first time.
pub proof fn checking_meets_each_once(
    module: Module,
    table: TableView,
    value: ValueView,
    expected: Option<TyView>,
    seen: Set<u32>,
    depth: nat,
)
    ensures
        seen.subset_of(validated(module, table, value, expected, seen, depth).0),
        validated(module, table, value, expected, seen, depth).1 is Ok ==> forall|id: u32|
            #[trigger] carries(value, id) ==> !seen.contains(id) && validated(
                module,
                table,
                value,
                expected,
                seen,
                depth,
            ).0.contains(id),
    decreases MAX_GENERIC_DEPTH - depth, 0nat,
{
    if depth < MAX_GENERIC_DEPTH {
        match value {
            ValueView::Resource(handle) => {
                if table.record(handle) is Ok {
                    let record = table.record(handle)->Ok_0;
                    if module.record_field_types(record.item, Seq::empty()) is Ok {
                        let declared = module.record_field_types(record.item, Seq::empty())->Ok_0;
                        checking_all_meets_each_once(
                            module,
                            table,
                            record.fields,
                            declared,
                            0,
                            seen.insert(handle.id.0),
                            depth + 1,
                        );
                        assert(seen.insert(handle.id.0).contains(handle.id.0));
                    }
                }
            },
            ValueView::Record { item, type_args, fields } => {
                if module.record_field_types(item, type_args) is Ok {
                    let declared = module.record_field_types(item, type_args)->Ok_0;
                    checking_all_meets_each_once(
                        module,
                        table,
                        fields,
                        declared,
                        0,
                        seen,
                        depth + 1,
                    );
                    assert forall|id: u32| #[trigger] carries(value, id) implies exists|k: int|
                        0 <= k < fields.len() && #[trigger] carries(fields[k], id) by {
                        let k = choose|k: int|
                            0 <= k < fields.len() && carries(#[trigger] fields[k], id);
                        assert(carries(fields[k], id));
                    }
                }
            },
            ValueView::Variant { item, type_args, case, payload } => {
                if module.case_payload_types(item, type_args, case) is Ok {
                    let declared = module.case_payload_types(item, type_args, case)->Ok_0;
                    checking_all_meets_each_once(
                        module,
                        table,
                        payload,
                        declared,
                        0,
                        seen,
                        depth + 1,
                    );
                    assert forall|id: u32| #[trigger] carries(value, id) implies exists|k: int|
                        0 <= k < payload.len() && #[trigger] carries(payload[k], id) by {
                        let k = choose|k: int|
                            0 <= k < payload.len() && carries(#[trigger] payload[k], id);
                        assert(carries(payload[k], id));
                    }
                }
            },
            _ => {},
        }
    }
}

/// [`checking_meets_each_once`] of the values from position `i` on, no
/// two of which carry the same resource.
pub proof fn checking_all_meets_each_once(
    module: Module,
    table: TableView,
    values: Seq<ValueView>,
    declared: Seq<TyView>,
    i: nat,
    seen: Set<u32>,
    depth: nat,
)
    ensures
        seen.subset_of(validated_from(module, table, values, declared, i, seen, depth).0),
        validated_from(module, table, values, declared, i, seen, depth).1 is Ok ==> forall|
            k: int,
            id: u32,
        |
            i <= k < values.len() && #[trigger] carries(values[k], id) ==> !seen.contains(id)
                && validated_from(module, table, values, declared, i, seen, depth).0.contains(id),
        validated_from(module, table, values, declared, i, seen, depth).1 is Ok ==> forall|
            j: int,
            k: int,
            id: u32,
        |
            i <= j < k < values.len() && #[trigger] carries(values[j], id) ==> !#[trigger] carries(
                values[k],
                id,
            ),
    decreases MAX_GENERIC_DEPTH - depth, 1 + values.len() - i,
{
    if i < values.len() {
        let value = values[i as int];
        let (seen1, r) = validated(
            module,
            table,
            value,
            Some(declared[i as int]),
            seen,
            depth,
        );
        if depth < MAX_GENERIC_DEPTH {
            checking_meets_each_once(
                module,
                table,
                value,
                Some(declared[i as int]),
                seen,
                depth,
            );
        }
        if r is Ok {
            checking_all_meets_each_once(module, table, values, declared, i + 1, seen1, depth);
            let end = validated_from(module, table, values, declared, i, seen, depth);
            if end.1 is Ok {
                assert forall|k: int, id: u32|
                    i <= k < values.len() && #[trigger] carries(
                        values[k],
                        id,
                    ) implies !seen.contains(id) && end.0.contains(id) by {
                    if k == i {
                        assert(carries(value, id));
                        assert(seen1.contains(id));
                    } else {
                        assert(!seen1.contains(id));
                        if seen.contains(id) {
                            assert(seen1.contains(id));
                        }
                    }
                }
                assert forall|j: int, k: int, id: u32|
                    i <= j < k < values.len() && #[trigger] carries(
                        values[j],
                        id,
                    ) implies !#[trigger] carries(values[k], id) by {
                    if j == i {
                        assert(carries(value, id));
                        assert(seen1.contains(id));
                    }
                }
            }
        }
    }
}

/// A well-formed value carries no resource in two places.
pub proof fn well_formed_value_repeats_nothing(
    module: Module,
    table: TableView,
    value: ValueView,
    j: int,
    k: int,
    id: u32,
)
    requires
        owned_graph(module, table, value) is Ok,
        value is Record || value is Variant,
        0 <= j < k < crate::laws::transfer::children(value).len(),
        carries(crate::laws::transfer::children(value)[j], id),
    ensures
        !carries(crate::laws::transfer::children(value)[k], id),
{
    match value {
        ValueView::Record { item, type_args, fields } => {
            let declared = module.record_field_types(item, type_args)->Ok_0;
            checking_all_meets_each_once(module, table, fields, declared, 0, Set::empty(), 1);
            assert(carries(fields[j], id));
        },
        ValueView::Variant { item, type_args, case, payload } => {
            let declared = module.case_payload_types(item, type_args, case)->Ok_0;
            checking_all_meets_each_once(module, table, payload, declared, 0, Set::empty(), 1);
            assert(carries(payload[j], id));
        },
        _ => {},
    }
}

/// Each value of a list that was checked was checked, after what was met
/// before the list.
pub proof fn checked_at(
    module: Module,
    table: TableView,
    values: Seq<ValueView>,
    declared: Seq<TyView>,
    i: nat,
    seen: Set<u32>,
    depth: nat,
    k: int,
) -> (seen_k: Set<u32>)
    requires
        validated_from(module, table, values, declared, i, seen, depth).1 is Ok,
        i <= k < values.len(),
    ensures
        seen.subset_of(seen_k),
        validated(module, table, values[k], Some(declared[k]), seen_k, depth).1 is Ok,
        validated(module, table, values[k], Some(declared[k]), seen_k, depth).0.subset_of(
            validated_from(module, table, values, declared, i, seen, depth).0,
        ),
    decreases k - i,
{
    let (seen1, _) = validated(
        module,
        table,
        values[i as int],
        Some(declared[i as int]),
        seen,
        depth,
    );
    if i == k {
        checking_all_meets_each_once(module, table, values, declared, i + 1, seen1, depth);
        seen
    } else {
        checking_meets_each_once(
            module,
            table,
            values[i as int],
            Some(declared[i as int]),
            seen,
            depth,
        );
        checked_at(module, table, values, declared, i + 1, seen1, depth, k)
    }
}

/// Each field of a resource that a well-formed value carries was checked
/// after the resource itself was met.
proof fn fields_are_checked_later(
    module: Module,
    table: TableView,
    value: ValueView,
    expected: Option<TyView>,
    seen: Set<u32>,
    depth: nat,
    handle: ResourceHandle,
    k: int,
) -> (checked: (Option<TyView>, Set<u32>, nat))
    requires
        validated(module, table, value, expected, seen, depth).1 is Ok,
        has_handle(value, handle),
        0 <= k < table.records[handle.id.0 as int].fields.len(),
    ensures
        seen.subset_of(checked.1),
        checked.1.contains(handle.id.0),
        validated(
            module,
            table,
            table.records[handle.id.0 as int].fields[k],
            checked.0,
            checked.1,
            checked.2,
        ).1 is Ok,
        validated(
            module,
            table,
            table.records[handle.id.0 as int].fields[k],
            checked.0,
            checked.1,
            checked.2,
        ).0.subset_of(validated(module, table, value, expected, seen, depth).0),
    decreases MAX_GENERIC_DEPTH - depth,
{
    match value {
        ValueView::Resource(found) => {
            let record = table.record(found)->Ok_0;
            let declared = module.record_field_types(record.item, Seq::empty())->Ok_0;
            let more = seen.insert(handle.id.0);
            let seen_k = checked_at(
                module,
                table,
                record.fields,
                declared,
                0,
                more,
                depth + 1,
                k,
            );
            assert(more.contains(handle.id.0));
            (Some(declared[k]), seen_k, depth + 1)
        },
        ValueView::Record { item, type_args, fields } => {
            let j = choose|j: int|
                0 <= j < fields.len() && has_handle(#[trigger] fields[j], handle);
            let declared = module.record_field_types(item, type_args)->Ok_0;
            let seen_j = checked_at(module, table, fields, declared, 0, seen, depth + 1, j);
            fields_are_checked_later(
                module,
                table,
                fields[j],
                Some(declared[j]),
                seen_j,
                depth + 1,
                handle,
                k,
            )
        },
        ValueView::Variant { item, type_args, case, payload } => {
            let j = choose|j: int|
                0 <= j < payload.len() && has_handle(#[trigger] payload[j], handle);
            let declared = module.case_payload_types(item, type_args, case)->Ok_0;
            let seen_j = checked_at(module, table, payload, declared, 0, seen, depth + 1, j);
            fields_are_checked_later(
                module,
                table,
                payload[j],
                Some(declared[j]),
                seen_j,
                depth + 1,
                handle,
                k,
            )
        },
        _ => (expected, seen, depth),
    }
}

/// A well-formed value reaches nothing that was met before it, however
/// far away.
pub proof fn nothing_met_is_reached_again(
    module: Module,
    table: TableView,
    value: ValueView,
    expected: Option<TyView>,
    seen: Set<u32>,
    depth: nat,
    id: u32,
    hops: nat,
)
    requires
        validated(module, table, value, expected, seen, depth).1 is Ok,
        seen.contains(id),
    ensures
        !reaches(table, value, id, hops),
    decreases hops,
{
    checking_meets_each_once(module, table, value, expected, seen, depth);
    if reaches(table, value, id, hops) {
        assert(!carries(value, id));
        let (handle, k) = choose|handle: ResourceHandle, k: int|
            #![trigger has_handle(value, handle), table.records[handle.id.0 as int].fields[k]]
            has_handle(value, handle) && 0 <= k < table.records[handle.id.0 as int].fields.len()
                && reaches(
                table,
                table.records[handle.id.0 as int].fields[k],
                id,
                (hops - 1) as nat,
            );
        let (expected_k, seen_k, depth_k) = fields_are_checked_later(
            module,
            table,
            value,
            expected,
            seen,
            depth,
            handle,
            k,
        );
        nothing_met_is_reached_again(
            module,
            table,
            table.records[handle.id.0 as int].fields[k],
            expected_k,
            seen_k,
            depth_k,
            id,
            (hops - 1) as nat,
        );
    }
}

/// Checking a well-formed value meets every resource that the value
/// reaches, however far away.
pub proof fn what_is_reached_is_met(
    module: Module,
    table: TableView,
    value: ValueView,
    expected: Option<TyView>,
    seen: Set<u32>,
    depth: nat,
    id: u32,
    hops: nat,
)
    requires
        validated(module, table, value, expected, seen, depth).1 is Ok,
        reaches(table, value, id, hops),
    ensures
        validated(module, table, value, expected, seen, depth).0.contains(id),
    decreases hops,
{
    checking_meets_each_once(module, table, value, expected, seen, depth);
    if !carries(value, id) {
        let (handle, k) = choose|handle: ResourceHandle, k: int|
            #![trigger has_handle(value, handle), table.records[handle.id.0 as int].fields[k]]
            has_handle(value, handle) && 0 <= k < table.records[handle.id.0 as int].fields.len()
                && reaches(
                table,
                table.records[handle.id.0 as int].fields[k],
                id,
                (hops - 1) as nat,
            );
        let (expected_k, seen_k, depth_k) = fields_are_checked_later(
            module,
            table,
            value,
            expected,
            seen,
            depth,
            handle,
            k,
        );
        what_is_reached_is_met(
            module,
            table,
            table.records[handle.id.0 as int].fields[k],
            expected_k,
            seen_k,
            depth_k,
            id,
            (hops - 1) as nat,
        );
    }
}

/// Whether two of `values` reach the resource numbered `id` within `hops`
/// steps.
pub open spec fn two_reach(table: TableView, values: Seq<ValueView>, id: u32, hops: nat) -> bool {
    exists|j: int, k: int|
        #![trigger values[j], values[k]]
        0 <= j < k < values.len() && reaches(table, values[j], id, hops) && reaches(
            table,
            values[k],
            id,
            hops,
        )
}

/// Whether the resource numbered `id` is met twice on the way from
/// `value`, within `hops` steps from a resource into its own fields: on
/// two ways that part, or by coming back to it.
pub open spec fn met_twice(table: TableView, value: ValueView, id: u32, hops: nat) -> bool
    decreases hops, value,
{
    match value {
        ValueView::Resource(handle) => {
            let fields = table.records[handle.id.0 as int].fields;
            hops > 0 && {
                ||| two_reach(table, fields, id, (hops - 1) as nat)
                ||| exists|k: int|
                    0 <= k < fields.len() && {
                        ||| handle.id.0 == id && reaches(
                            table,
                            #[trigger] fields[k],
                            id,
                            (hops - 1) as nat,
                        )
                        ||| met_twice(table, fields[k], id, (hops - 1) as nat)
                    }
            }
        },
        ValueView::Record { fields, .. } => {
            ||| two_reach(table, fields, id, hops)
            ||| exists|k: int|
                0 <= k < fields.len() && met_twice(table, #[trigger] fields[k], id, hops)
        },
        ValueView::Variant { payload, .. } => {
            ||| two_reach(table, payload, id, hops)
            ||| exists|k: int|
                0 <= k < payload.len() && met_twice(table, #[trigger] payload[k], id, hops)
        },
        _ => false,
    }
}

proof fn only_one_reaches(
    module: Module,
    table: TableView,
    values: Seq<ValueView>,
    declared: Seq<TyView>,
    i: nat,
    seen: Set<u32>,
    depth: nat,
    j: int,
    k: int,
    id: u32,
    hops: nat,
)
    requires
        validated_from(module, table, values, declared, i, seen, depth).1 is Ok,
        i <= j < k < values.len(),
        reaches(table, values[j], id, hops),
    ensures
        !reaches(table, values[k], id, hops),
    decreases j - i,
{
    let value = values[i as int];
    let expected = Some(declared[i as int]);
    let (seen1, _) = validated(module, table, value, expected, seen, depth);
    if i == j {
        what_is_reached_is_met(module, table, value, expected, seen, depth, id, hops);
        let seen_k = checked_at(module, table, values, declared, i + 1, seen1, depth, k);
        nothing_met_is_reached_again(
            module,
            table,
            values[k],
            Some(declared[k]),
            seen_k,
            depth,
            id,
            hops,
        );
    } else {
        only_one_reaches(module, table, values, declared, i + 1, seen1, depth, j, k, id, hops);
    }
}

proof fn two_do_not_reach(
    module: Module,
    table: TableView,
    values: Seq<ValueView>,
    declared: Seq<TyView>,
    seen: Set<u32>,
    depth: nat,
    id: u32,
    hops: nat,
)
    requires
        validated_from(module, table, values, declared, 0, seen, depth).1 is Ok,
    ensures
        !two_reach(table, values, id, hops),
{
    if two_reach(table, values, id, hops) {
        let (j, k) = choose|j: int, k: int|
            #![trigger values[j], values[k]]
            0 <= j < k < values.len() && reaches(table, values[j], id, hops) && reaches(
                table,
                values[k],
                id,
                hops,
            );
        only_one_reaches(module, table, values, declared, 0, seen, depth, j, k, id, hops);
    }
}

/// From a well-formed value no resource is met twice, however far away.
pub proof fn nothing_is_met_twice(
    module: Module,
    table: TableView,
    value: ValueView,
    expected: Option<TyView>,
    seen: Set<u32>,
    depth: nat,
    id: u32,
    hops: nat,
)
    requires
        validated(module, table, value, expected, seen, depth).1 is Ok,
    ensures
        !met_twice(table, value, id, hops),
    decreases MAX_GENERIC_DEPTH - depth,
{
    match value {
        ValueView::Resource(handle) => {
            let record = table.record(handle)->Ok_0;
            let declared = module.record_field_types(record.item, Seq::empty())->Ok_0;
            let more = seen.insert(handle.id.0);
            let fields = record.fields;
            if hops > 0 {
                let nearer = (hops - 1) as nat;
                two_do_not_reach(module, table, fields, declared, more, depth + 1, id, nearer);
                assert forall|k: int| 0 <= k < fields.len() implies !(handle.id.0 == id && reaches(
                    table,
                    #[trigger] fields[k],
                    id,
                    nearer,
                )) && !met_twice(table, fields[k], id, nearer) by {
                    let seen_k = checked_at(
                        module,
                        table,
                        fields,
                        declared,
                        0,
                        more,
                        depth + 1,
                        k,
                    );
                    nothing_is_met_twice(
                        module,
                        table,
                        fields[k],
                        Some(declared[k]),
                        seen_k,
                        depth + 1,
                        id,
                        nearer,
                    );
                    if handle.id.0 == id {
                        assert(more.contains(id));
                        nothing_met_is_reached_again(
                            module,
                            table,
                            fields[k],
                            Some(declared[k]),
                            seen_k,
                            depth + 1,
                            id,
                            nearer,
                        );
                    }
                }
            }
        },
        ValueView::Record { item, type_args, fields } => {
            let declared = module.record_field_types(item, type_args)->Ok_0;
            two_do_not_reach(module, table, fields, declared, seen, depth + 1, id, hops);
            assert forall|k: int| 0 <= k < fields.len() implies !met_twice(
                table,
                #[trigger] fields[k],
                id,
                hops,
            ) by {
                let seen_k = checked_at(module, table, fields, declared, 0, seen, depth + 1, k);
                nothing_is_met_twice(
                    module,
                    table,
                    fields[k],
                    Some(declared[k]),
                    seen_k,
                    depth + 1,
                    id,
                    hops,
                );
            }
        },
        ValueView::Variant { item, type_args, case, payload } => {
            let declared = module.case_payload_types(item, type_args, case)->Ok_0;
            two_do_not_reach(module, table, payload, declared, seen, depth + 1, id, hops);
            assert forall|k: int| 0 <= k < payload.len() implies !met_twice(
                table,
                #[trigger] payload[k],
                id,
                hops,
            ) by {
                let seen_k = checked_at(module, table, payload, declared, 0, seen, depth + 1, k);
                nothing_is_met_twice(
                    module,
                    table,
                    payload[k],
                    Some(declared[k]),
                    seen_k,
                    depth + 1,
                    id,
                    hops,
                );
            }
        },
        _ => {},
    }
}

/// In a well-formed graph no resource owns itself, however far the way
/// round.
pub proof fn no_resource_owns_itself(
    module: Module,
    table: TableView,
    value: ValueView,
    handle: ResourceHandle,
    k: int,
    hops: nat,
)
    requires
        owned_graph(module, table, value) is Ok,
        has_handle(value, handle),
        0 <= k < table.records[handle.id.0 as int].fields.len(),
    ensures
        !reaches(table, table.records[handle.id.0 as int].fields[k], handle.id.0, hops),
{
    let (expected_k, seen_k, depth_k) = fields_are_checked_later(
        module,
        table,
        value,
        None,
        Set::empty(),
        0,
        handle,
        k,
    );
    nothing_met_is_reached_again(
        module,
        table,
        table.records[handle.id.0 as int].fields[k],
        expected_k,
        seen_k,
        depth_k,
        handle.id.0,
        hops,
    );
}

// ---------------------------------------------------------------------
// What is reached, in order of discovery.
// ---------------------------------------------------------------------

/// Whether `order` lists exactly what was seen, each once.
pub open spec fn lists_exactly(seen: Set<u32>, order: Seq<ResourceId>) -> bool {
    &&& forall|id: u32| seen.contains(id) <==> #[trigger] order.contains(ResourceId(id))
    &&& forall|j: int, k: int|
        0 <= j < k < order.len() ==> (#[trigger] order[j]) != (#[trigger] order[k])
}

proof fn listing_one_more(seen: Set<u32>, order: Seq<ResourceId>, id: ResourceId)
    requires
        lists_exactly(seen, order),
        !seen.contains(id.0),
    ensures
        lists_exactly(seen.insert(id.0), order.push(id)),
{
    let longer = order.push(id);
    assert forall|n: u32| seen.insert(id.0).contains(n) <==> #[trigger] longer.contains(
        ResourceId(n),
    ) by {
        if longer.contains(ResourceId(n)) {
            let k = choose|k: int| 0 <= k < longer.len() && longer[k] == ResourceId(n);
            if k < order.len() {
                assert(order[k] == ResourceId(n));
                assert(order.contains(ResourceId(n)));
            }
        }
        if n == id.0 {
            assert(longer[order.len() as int] == ResourceId(n));
        } else if seen.contains(n) {
            assert(order.contains(ResourceId(n)));
            let k = choose|k: int| 0 <= k < order.len() && order[k] == ResourceId(n);
            assert(longer[k] == ResourceId(n));
        }
    }
    assert forall|j: int, k: int| 0 <= j < k < longer.len() implies (#[trigger] longer[j]) != (
    #[trigger] longer[k]) by {
        if k == order.len() {
            assert(order.contains(order[j]));
            assert(ResourceId(order[j].0) == order[j]);
        }
    }
}

/// Collecting what a value reaches lists every resource once, in the
/// order it is met: what was listed stays where it is.
pub proof fn reached_is_listed_once(
    table: TableView,
    value: ValueView,
    seen: Set<u32>,
    order: Seq<ResourceId>,
    depth: nat,
)
    requires
        lists_exactly(seen, order),
    ensures
        lists_exactly(
            table.reach(value, seen, order, depth).0,
            table.reach(value, seen, order, depth).1,
        ),
        order.is_prefix_of(table.reach(value, seen, order, depth).1),
    decreases MAX_GENERIC_DEPTH - depth, 0nat,
{
    assert(order.is_prefix_of(order)) by {
        assert(order =~= order.take(order.len() as int));
    }
    if depth < MAX_GENERIC_DEPTH {
        match value {
            ValueView::Resource(handle) => {
                if !seen.contains(handle.id.0) {
                    listing_one_more(seen, order, handle.id);
                    let longer = order.push(handle.id);
                    assert(order =~= longer.take(order.len() as int));
                    if table.record(handle) is Ok {
                        let record = table.record(handle)->Ok_0;
                        all_reached_is_listed_once(
                            table,
                            record.fields,
                            0,
                            seen.insert(handle.id.0),
                            longer,
                            depth + 1,
                        );
                        let end = table.reach(value, seen, order, depth).1;
                        assert(order =~= end.take(order.len() as int));
                    }
                }
            },
            ValueView::Record { fields, .. } => {
                all_reached_is_listed_once(table, fields, 0, seen, order, depth + 1);
            },
            ValueView::Variant { payload, .. } => {
                all_reached_is_listed_once(table, payload, 0, seen, order, depth + 1);
            },
            _ => {},
        }
    }
}

proof fn all_reached_is_listed_once(
    table: TableView,
    values: Seq<ValueView>,
    i: nat,
    seen: Set<u32>,
    order: Seq<ResourceId>,
    depth: nat,
)
    requires
        lists_exactly(seen, order),
    ensures
        lists_exactly(
            table.reach_from(values, i, seen, order, depth).0,
            table.reach_from(values, i, seen, order, depth).1,
        ),
        order.is_prefix_of(table.reach_from(values, i, seen, order, depth).1),
    decreases MAX_GENERIC_DEPTH - depth, 1 + values.len() - i,
{
    assert(order.is_prefix_of(order)) by {
        assert(order =~= order.take(order.len() as int));
    }
    if i < values.len() {
        let (seen1, order1, r) = table.reach(values[i as int], seen, order, depth);
        if depth < MAX_GENERIC_DEPTH {
            reached_is_listed_once(table, values[i as int], seen, order, depth);
        }
        if r is Ok {
            all_reached_is_listed_once(table, values, i + 1, seen1, order1, depth);
            let end = table.reach_from(values, i, seen, order, depth).1;
            assert(order =~= end.take(order.len() as int));
        }
    }
}

} // verus!
