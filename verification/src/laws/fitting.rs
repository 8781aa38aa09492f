use crate::ids::{ItemId, Symbol, TypeParamId};
use crate::laws::dispatch::{closed_type, instance, resolved_is_closed, substitution_gives_the_instance};
use crate::laws::typing::instantiation_binds_each_parameter;
use crate::layout::{field_views, find_record, find_variant, param_ids, payload_views};
use crate::program::{CaseLayout, Module, RecordLayout, VariantLayout};
use crate::table::TableView;
use crate::type_ops::{instantiation, matched, matched_all, resolved_from, substituted_all};
use crate::types::{evidence_views, ty_views, Evidence, Ty, TyView};
use crate::validate::{
    argument_check, instance_matches, owned_graph, validated, validated_from,
};
use crate::value::{ErrorView, ValueView};
use vstd::prelude::*;

verus! {

broadcast use crate::types::group_type_views;

// ---------------------------------------------------------------------
// What a module declares.
// ---------------------------------------------------------------------

/// Whether `layout` is that of the first record that `item` declares.
pub open spec fn record_of(module: Module, item: ItemId, layout: RecordLayout) -> bool {
    exists|k: int|
        0 <= k < module.records@.len() && (#[trigger] module.records@[k]).0 == item
            && module.records@[k].1 == layout && forall|j: int|
            0 <= j < k ==> (#[trigger] module.records@[j]).0 != item
}

/// Whether `item` declares no record.
pub open spec fn no_record(module: Module, item: ItemId) -> bool {
    forall|k: int| 0 <= k < module.records@.len() ==> (#[trigger] module.records@[k]).0 != item
}

/// Whether `layout` is that of the first variant that `item` declares.
pub open spec fn variant_of(module: Module, item: ItemId, layout: VariantLayout) -> bool {
    exists|k: int|
        0 <= k < module.variants@.len() && (#[trigger] module.variants@[k]).0 == item
            && module.variants@[k].1 == layout && forall|j: int|
            0 <= j < k ==> (#[trigger] module.variants@[j]).0 != item
}

/// Whether `item` declares no variant.
pub open spec fn no_variant(module: Module, item: ItemId) -> bool {
    forall|k: int| 0 <= k < module.variants@.len() ==> (#[trigger] module.variants@[k]).0 != item
}

proof fn record_is_the_first(
    records: Seq<(ItemId, RecordLayout)>,
    item: ItemId,
    i: nat,
    layout: RecordLayout,
)
    ensures
        find_record(records, item, i) == Some(layout) <==> exists|k: int|
            i <= k < records.len() && (#[trigger] records[k]).0 == item && records[k].1 == layout
                && forall|j: int| i <= j < k ==> (#[trigger] records[j]).0 != item,
        find_record(records, item, i) is None <==> forall|k: int|
            i <= k < records.len() ==> (#[trigger] records[k]).0 != item,
    decreases records.len() - i,
{
    if i < records.len() {
        record_is_the_first(records, item, i + 1, layout);
        if records[i as int].0 == item {
            assert(records[i as int].0 == item);
        } else if exists|k: int|
            i <= k < records.len() && (#[trigger] records[k]).0 == item && records[k].1 == layout
                && forall|j: int| i <= j < k ==> (#[trigger] records[j]).0 != item {
            let k = choose|k: int|
                i <= k < records.len() && (#[trigger] records[k]).0 == item && records[k].1
                    == layout && forall|j: int| i <= j < k ==> (#[trigger] records[j]).0 != item;
            assert(k != i);
        }
    }
}

proof fn variant_is_the_first(
    variants: Seq<(ItemId, VariantLayout)>,
    item: ItemId,
    i: nat,
    layout: VariantLayout,
)
    ensures
        find_variant(variants, item, i) == Some(layout) <==> exists|k: int|
            i <= k < variants.len() && (#[trigger] variants[k]).0 == item && variants[k].1
                == layout && forall|j: int| i <= j < k ==> (#[trigger] variants[j]).0 != item,
        find_variant(variants, item, i) is None <==> forall|k: int|
            i <= k < variants.len() ==> (#[trigger] variants[k]).0 != item,
    decreases variants.len() - i,
{
    if i < variants.len() {
        variant_is_the_first(variants, item, i + 1, layout);
        if variants[i as int].0 == item {
            assert(variants[i as int].0 == item);
        } else if exists|k: int|
            i <= k < variants.len() && (#[trigger] variants[k]).0 == item && variants[k].1
                == layout && forall|j: int| i <= j < k ==> (#[trigger] variants[j]).0 != item {
            let k = choose|k: int|
                i <= k < variants.len() && (#[trigger] variants[k]).0 == item && variants[k].1
                    == layout && forall|j: int| i <= j < k ==> (#[trigger] variants[j]).0 != item;
            assert(k != i);
        }
    }
}

/// Whether no type parameter is declared twice.
pub open spec fn told_apart(params: Seq<TypeParamId>) -> bool {
    forall|j: int, k: int|
        0 <= j < k < params.len() ==> (#[trigger] params[j]) != (#[trigger] params[k])
}

/// Whether `subst` binds each of `params` to the argument at its position,
/// and nothing else.
pub open spec fn binds_to(
    params: Seq<TypeParamId>,
    args: Seq<TyView>,
    subst: Map<u32, TyView>,
) -> bool {
    &&& params.len() == args.len()
    &&& forall|j: int|
        0 <= j < params.len() ==> subst.contains_key((#[trigger] params[j]).0)
            && subst[params[j].0] == args[j]
    &&& forall|id: u32| #[trigger]
        subst.contains_key(id) ==> exists|j: int|
            0 <= j < params.len() && (#[trigger] params[j]).0 == id
}

proof fn parameters_mean_their_arguments(params: Seq<TypeParamId>, args: Seq<TyView>)
    requires
        told_apart(params),
    ensures
        match instantiation(params, args) {
            Some(subst) => binds_to(params, args, subst),
            None => params.len() != args.len(),
        },
{
    instantiation_binds_each_parameter(params, args);
}

/// Whether `types` are the instances of the declared types under `subst`.
pub open spec fn instances(
    declared: Seq<TyView>,
    subst: Map<u32, TyView>,
    types: Seq<TyView>,
) -> bool {
    &&& types.len() == declared.len()
    &&& forall|j: int|
        0 <= j < declared.len() ==> instance(#[trigger] declared[j], subst, types[j])
}

proof fn substituting_all_gives_the_instances(
    declared: Seq<TyView>,
    subst: Map<u32, TyView>,
    types: Seq<TyView>,
)
    ensures
        instances(declared, subst, types) <==> types == substituted_all(declared, subst),
{
    let all = substituted_all(declared, subst);
    assert forall|j: int| 0 <= j < declared.len() implies (instance(
        #[trigger] declared[j],
        subst,
        types[j],
    ) <==> types[j] == all[j]) by {
        substitution_gives_the_instance(declared[j], subst, types[j]);
    }
    if instances(declared, subst, types) {
        assert forall|j: int| 0 <= j < declared.len() implies types[j] == all[j] by {
            assert(instance(declared[j], subst, types[j]));
        }
        assert(types =~= all);
    }
}

/// The fields of a record are of the types its declaration gives them,
/// with each type parameter meaning the argument at its position. There is
/// nothing to tell where the number of arguments is another, or where
/// nothing declares the record.
pub proof fn fields_are_of_their_declared_types(
    module: Module,
    item: ItemId,
    args: Seq<TyView>,
    layout: RecordLayout,
)
    requires
        record_of(module, item, layout),
        told_apart(param_ids(layout.type_params@)),
    ensures
        match module.record_field_types(item, args) {
            Ok(types) => exists|subst: Map<u32, TyView>| #[trigger]
                binds_to(param_ids(layout.type_params@), args, subst) && instances(
                    field_views(layout.fields@),
                    subst,
                    types,
                ),
            Err(_) => args.len() != layout.type_params@.len(),
        },
{
    record_is_the_first(module.records@, item, 0, layout);
    parameters_mean_their_arguments(param_ids(layout.type_params@), args);
    match module.record_field_types(item, args) {
        Ok(types) => {
            let subst = instantiation(param_ids(layout.type_params@), args)->0;
            substituting_all_gives_the_instances(field_views(layout.fields@), subst, types);
            assert(binds_to(param_ids(layout.type_params@), args, subst));
        },
        Err(_) => {},
    }
}

/// What no record declares has no fields.
pub proof fn undeclared_record_has_no_fields(module: Module, item: ItemId, args: Seq<TyView>)
    requires
        no_record(module, item),
    ensures
        module.record_field_types(item, args) is Err,
{
    match module.record_layout(item) {
        Some(layout) => {
            record_is_the_first(module.records@, item, 0, layout);
        },
        None => {},
    }
}

/// The payload of a variant's case is of the types its declaration gives
/// it, with each type parameter meaning the argument at its position. The
/// item may not declare a record too.
pub proof fn payload_is_of_its_declared_types(
    module: Module,
    item: ItemId,
    args: Seq<TyView>,
    case: usize,
    layout: VariantLayout,
)
    requires
        variant_of(module, item, layout),
        no_record(module, item),
        told_apart(param_ids(layout.type_params@)),
    ensures
        match module.case_payload_types(item, args, case) {
            Ok(types) => case < layout.cases@.len() && exists|subst: Map<u32, TyView>| #[trigger]
                binds_to(param_ids(layout.type_params@), args, subst) && instances(
                    ty_views(layout.cases@[case as int].payload@),
                    subst,
                    types,
                ),
            Err(_) => args.len() != layout.type_params@.len() || case >= layout.cases@.len(),
        },
{
    variant_is_the_first(module.variants@, item, 0, layout);
    match module.record_layout(item) {
        Some(record) => {
            record_is_the_first(module.records@, item, 0, record);
        },
        None => {},
    }
    parameters_mean_their_arguments(param_ids(layout.type_params@), args);
    match module.case_payload_types(item, args, case) {
        Ok(types) => {
            let subst = instantiation(param_ids(layout.type_params@), args)->0;
            substituting_all_gives_the_instances(
                ty_views(layout.cases@[case as int].payload@),
                subst,
                types,
            );
            assert(binds_to(param_ids(layout.type_params@), args, subst));
        },
        Err(_) => {},
    }
}

/// What no variant declares has no cases.
pub proof fn undeclared_variant_has_no_cases(
    module: Module,
    item: ItemId,
    args: Seq<TyView>,
    case: usize,
)
    requires
        no_variant(module, item),
    ensures
        module.case_payload_types(item, args, case) is Err,
{
    match module.variant_layout(item) {
        Some(layout) => {
            variant_is_the_first(module.variants@, item, 0, layout);
        },
        None => {},
    }
}

/// An item is a resource exactly where some record that it declares is.
pub proof fn resource_is_declared_so(module: Module, item: ItemId)
    ensures
        module.resource(item) <==> exists|k: int|
            0 <= k < module.records@.len() && (#[trigger] module.records@[k]).0 == item
                && module.records@[k].1.affine,
{
}

proof fn payloads_of_all_cases(cases: Seq<CaseLayout>, i: nat, ty: TyView)
    ensures
        payload_views(cases, i).contains(ty) <==> exists|c: int, k: int|
            i <= c < cases.len() && 0 <= k < cases[c].payload@.len()
                && #[trigger] cases[c].payload@[k]@ == ty,
    decreases cases.len() - i,
{
    let all = payload_views(cases, i);
    if i < cases.len() {
        let here = ty_views(cases[i as int].payload@);
        let rest = payload_views(cases, i + 1);
        payloads_of_all_cases(cases, i + 1, ty);
        assert(all == here + rest);
        if all.contains(ty) {
            let m = choose|m: int| 0 <= m < all.len() && all[m] == ty;
            if m < here.len() {
                assert(cases[i as int].payload@[m]@ == ty);
            } else {
                assert(rest[m - here.len()] == ty);
            }
        }
        if exists|c: int, k: int|
            i <= c < cases.len() && 0 <= k < cases[c].payload@.len()
                && #[trigger] cases[c].payload@[k]@ == ty {
            let (c, k) = choose|c: int, k: int|
                i <= c < cases.len() && 0 <= k < cases[c].payload@.len()
                    && #[trigger] cases[c].payload@[k]@ == ty;
            if c == i {
                assert(here[k] == ty);
                assert(all[k] == ty);
            } else {
                assert(rest.contains(ty));
                let m = choose|m: int| 0 <= m < rest.len() && rest[m] == ty;
                assert(all[here.len() + m] == ty);
            }
        }
    }
}

/// The types inside an item are those of the fields of its record, or else
/// those in the payloads of all cases of its variant.
pub proof fn types_inside_are_declared(module: Module, item: ItemId, ty: TyView)
    ensures
        forall|layout: RecordLayout| #[trigger]
            record_of(module, item, layout) ==> (module.item_field_types(item).contains(ty)
                <==> exists|k: int|
                0 <= k < layout.fields@.len() && (#[trigger] layout.fields@[k]).1@ == ty),
        forall|layout: VariantLayout| #[trigger]
            variant_of(module, item, layout) && no_record(module, item) ==> (
            module.item_field_types(item).contains(ty) <==> exists|c: int, k: int|
                0 <= c < layout.cases@.len() && 0 <= k < layout.cases@[c].payload@.len()
                    && #[trigger] layout.cases@[c].payload@[k]@ == ty),
        no_record(module, item) && no_variant(module, item) ==> module.item_field_types(
            item,
        ).len() == 0,
{
    assert forall|layout: RecordLayout| #[trigger] record_of(module, item, layout) implies (
    module.item_field_types(item).contains(ty) <==> exists|k: int|
        0 <= k < layout.fields@.len() && (#[trigger] layout.fields@[k]).1@ == ty) by {
        record_is_the_first(module.records@, item, 0, layout);
        let types = module.item_field_types(item);
        assert(types == field_views(layout.fields@));
        if types.contains(ty) {
            let k = choose|k: int| 0 <= k < types.len() && types[k] == ty;
            assert(layout.fields@[k].1@ == ty);
        }
        if exists|k: int| 0 <= k < layout.fields@.len() && (#[trigger] layout.fields@[k]).1@ == ty {
            let k = choose|k: int|
                0 <= k < layout.fields@.len() && (#[trigger] layout.fields@[k]).1@ == ty;
            assert(types[k] == ty);
        }
    }
    match module.record_layout(item) {
        Some(record) => {
            record_is_the_first(module.records@, item, 0, record);
        },
        None => {
            assert forall|layout: VariantLayout| #[trigger]
                variant_of(module, item, layout) implies (module.item_field_types(item).contains(ty)
                <==> exists|c: int, k: int|
                0 <= c < layout.cases@.len() && 0 <= k < layout.cases@[c].payload@.len()
                    && #[trigger] layout.cases@[c].payload@[k]@ == ty) by {
                variant_is_the_first(module.variants@, item, 0, layout);
                payloads_of_all_cases(layout.cases@, 0, ty);
            }
            match module.variant_layout(item) {
                Some(layout) => {
                    variant_is_the_first(module.variants@, item, 0, layout);
                },
                None => {},
            }
        },
    }
}

// ---------------------------------------------------------------------
// What a position takes.
// ---------------------------------------------------------------------

/// Whether a type is one of whole numbers.
pub open spec fn whole_number(ty: TyView) -> bool {
    ||| ty is I8
    ||| ty is I16
    ||| ty is I32
    ||| ty is I64
    ||| ty is Isize
    ||| ty is U8
    ||| ty is U16
    ||| ty is U32
    ||| ty is U64
    ||| ty is Usize
}

/// Whether a value is of a type that no module declares.
pub open spec fn of_primitive(value: ValueView, ty: TyView) -> bool {
    match value {
        ValueView::Int(..) => whole_number(ty),
        ValueView::Float(..) => ty is F32 || ty is F64,
        ValueView::Bool(..) => ty is Bool,
        ValueView::Char(..) => ty is Char,
        ValueView::Str(..) => ty is Str,
        ValueView::Unit => ty is Unit,
        _ => false,
    }
}

/// Whether a type names `item` with exactly the arguments `args`.
pub open spec fn names_exactly(ty: TyView, item: ItemId, args: Seq<TyView>) -> bool {
    match ty {
        TyView::Named(named, _) => named == item && args.len() == 0,
        TyView::Applied(applied, given) => applied == item && given == args,
        _ => false,
    }
}

/// Whether the values fill positions of the declared types one after the
/// other, each after those before it met what they met.
pub open spec fn fill(
    module: Module,
    table: TableView,
    values: Seq<ValueView>,
    declared: Seq<TyView>,
    depth: nat,
    met: Seq<Set<u32>>,
) -> bool {
    &&& declared.len() == values.len()
    &&& met.len() == values.len() + 1
    &&& forall|k: int|
        0 <= k < values.len() ==> #[trigger] fills(
            module,
            table,
            values[k],
            declared[k],
            depth,
            met[k],
            met[k + 1],
        )
}

/// Whether a value fills a position of a declared type.
pub open spec fn fills(
    module: Module,
    table: TableView,
    value: ValueView,
    declared: TyView,
    depth: nat,
    before: Set<u32>,
    after: Set<u32>,
) -> bool {
    validated(module, table, value, Some(declared), before, depth).1 is Ok && after == validated(
        module,
        table,
        value,
        Some(declared),
        before,
        depth,
    ).0
}

pub(crate) proof fn filling_goes_in_order(
    module: Module,
    table: TableView,
    values: Seq<ValueView>,
    declared: Seq<TyView>,
    i: nat,
    seen: Set<u32>,
    depth: nat,
    before: Seq<Set<u32>>,
) -> (met: Seq<Set<u32>>)
    requires
        declared.len() == values.len(),
        i <= values.len(),
        before.len() == i + 1,
        before.last() == seen,
        forall|k: int|
            0 <= k < i ==> #[trigger] fills(
                module,
                table,
                values[k],
                declared[k],
                depth,
                before[k],
                before[k + 1],
            ),
    ensures
        before.is_prefix_of(met),
        validated_from(module, table, values, declared, i, seen, depth).1 is Ok ==> fill(
            module,
            table,
            values,
            declared,
            depth,
            met,
        ) && met.last() == validated_from(module, table, values, declared, i, seen, depth).0,
        validated_from(module, table, values, declared, i, seen, depth).1 is Err ==> 0 < met.len()
            <= values.len() && validated(
            module,
            table,
            values[met.len() - 1],
            Some(declared[met.len() - 1]),
            met.last(),
            depth,
        ).1 is Err && forall|k: int|
            0 <= k < met.len() - 1 ==> #[trigger] fills(
                module,
                table,
                values[k],
                declared[k],
                depth,
                met[k],
                met[k + 1],
            ),
    decreases values.len() - i,
{
    if i < values.len() {
        let (seen1, r) = validated(
            module,
            table,
            values[i as int],
            Some(declared[i as int]),
            seen,
            depth,
        );
        if r is Ok {
            let next = before.push(seen1);
            assert forall|k: int| 0 <= k < i + 1 implies #[trigger] fills(
                module,
                table,
                values[k],
                declared[k],
                depth,
                next[k],
                next[k + 1],
            ) by {
                if k < i {
                    assert(fills(
                        module,
                        table,
                        values[k],
                        declared[k],
                        depth,
                        before[k],
                        before[k + 1],
                    ));
                    assert(next[k] == before[k] && next[k + 1] == before[k + 1]);
                } else {
                    assert(next[k] == seen && next[k + 1] == seen1);
                }
            }
            let met = filling_goes_in_order(
                module,
                table,
                values,
                declared,
                i + 1,
                seen1,
                depth,
                next,
            );
            assert forall|k: int| 0 <= k < before.len() implies before[k] == met[k] by {
                assert(next[k] == met[k]);
            }
            met
        } else {
            before
        }
    } else {
        before
    }
}

/// A position takes a value exactly where the value is of the type
/// declared for it, and where what lies within it fills the positions
/// there, one after the other, on another level, of which there are no
/// more than so many:
/// - a number, a truth value, a character, a text and the unit, where
///   their types are declared;
/// - a record that is no resource and a variant, where their own item and
///   arguments are named;
/// - a handle that works, where the resource's item is named and the
///   resource was not met before; it counts as met from then on;
/// - what was moved or destroyed, where something that may own a resource
///   is declared.
pub proof fn position_takes_what_it_declares(
    module: Module,
    table: TableView,
    value: ValueView,
    ty: TyView,
    seen: Set<u32>,
    depth: nat,
) -> (met: Seq<Set<u32>>)
    ensures
        ({
            let (seen1, r) = validated(module, table, value, Some(ty), seen, depth);
            match value {
                ValueView::Moved => r is Ok <==> depth < 64 && module.affine(ty),
                ValueView::Dropped => r is Ok <==> depth < 64 && module.affine(ty),
                ValueView::Record { item, type_args, fields } => r is Ok <==> {
                    &&& depth < 64
                    &&& names_exactly(ty, item, type_args)
                    &&& !module.resource(item)
                    &&& module.record_field_types(item, type_args) matches Ok(declared) && fill(
                        module,
                        table,
                        fields,
                        declared,
                        depth + 1,
                        met,
                    )
                },
                ValueView::Variant { item, type_args, case, payload } => r is Ok <==> {
                    &&& depth < 64
                    &&& names_exactly(ty, item, type_args)
                    &&& module.case_payload_types(item, type_args, case) matches Ok(declared)
                        && fill(module, table, payload, declared, depth + 1, met)
                },
                ValueView::Resource(handle) => r is Ok <==> {
                    &&& depth < 64
                    &&& table.record(handle) is Ok
                    &&& names_exactly(ty, table.record(handle)->Ok_0.item, Seq::empty())
                    &&& !seen.contains(handle.id.0)
                    &&& module.record_field_types(
                        table.record(handle)->Ok_0.item,
                        Seq::empty(),
                    ) matches Ok(declared) && fill(
                        module,
                        table,
                        table.record(handle)->Ok_0.fields,
                        declared,
                        depth + 1,
                        met,
                    )
                },
                _ => r is Ok <==> depth < 64 && of_primitive(value, ty),
            }
        }),
        met.len() > 0,
        met[0] == match value {
            ValueView::Resource(handle) => seen.insert(handle.id.0),
            _ => seen,
        },
        validated(module, table, value, Some(ty), seen, depth).1 is Ok ==> validated(
            module,
            table,
            value,
            Some(ty),
            seen,
            depth,
        ).0 == match value {
            ValueView::Record { .. } => met.last(),
            ValueView::Variant { .. } => met.last(),
            ValueView::Resource(_) => met.last(),
            _ => seen,
        },
{
    match value {
        ValueView::Record { type_args, .. } => {
            if type_args.len() == 0 {
                assert(type_args =~= Seq::empty());
            }
        },
        ValueView::Variant { type_args, .. } => {
            if type_args.len() == 0 {
                assert(type_args =~= Seq::empty());
            }
        },
        _ => {},
    }
    let start = match value {
        ValueView::Resource(handle) => seen.insert(handle.id.0),
        _ => seen,
    };
    let values = match value {
        ValueView::Record { fields, .. } => fields,
        ValueView::Variant { payload, .. } => payload,
        ValueView::Resource(handle) => table.record(handle)->Ok_0.fields,
        _ => Seq::empty(),
    };
    let declared = match value {
        ValueView::Record { item, type_args, .. } => module.record_field_types(item, type_args),
        ValueView::Variant { item, type_args, case, .. } => module.case_payload_types(
            item,
            type_args,
            case,
        ),
        ValueView::Resource(handle) => module.record_field_types(
            table.record(handle)->Ok_0.item,
            Seq::empty(),
        ),
        _ => Err(ErrorView::DivisionByZero),
    };
    if declared is Ok && declared->Ok_0.len() == values.len() {
        let met = filling_goes_in_order(
            module,
            table,
            values,
            declared->Ok_0,
            0,
            start,
            depth + 1,
            seq![start],
        );
        assert(seq![start][0] == met[0]);
        met
    } else {
        seq![start]
    }
}

// ---------------------------------------------------------------------
// What a parameter, a slot and a result take.
// ---------------------------------------------------------------------

/// Whether `actual` is `pattern` with every type parameter in it replaced
/// by what `bindings` binds it to.
pub open spec fn pattern_of(
    pattern: TyView,
    bindings: Map<u32, TyView>,
    actual: TyView,
) -> bool
    decreases pattern,
{
    match pattern {
        TyView::Param(id, _) => bindings.contains_key(id.0) && bindings[id.0] == actual,
        TyView::Applied(item, args) => {
            &&& actual matches TyView::Applied(item1, args1)
            &&& item1 == item
            &&& args1.len() == args.len()
            &&& forall|k: int|
                0 <= k < args.len() ==> pattern_of(#[trigger] args[k], bindings, args1[k])
        },
        TyView::Var(_) => false,
        TyView::Never => false,
        TyView::Error => false,
        _ => actual == pattern,
    }
}

/// Whether each of `actual` is the pattern at its position, under the same
/// bindings.
pub open spec fn patterns_of(
    patterns: Seq<TyView>,
    bindings: Map<u32, TyView>,
    actual: Seq<TyView>,
) -> bool {
    &&& actual.len() == patterns.len()
    &&& forall|k: int|
        0 <= k < patterns.len() ==> pattern_of(#[trigger] patterns[k], bindings, actual[k])
}

/// Whether what `less` binds, `more` binds to the same.
pub open spec fn agrees_with(less: Map<u32, TyView>, more: Map<u32, TyView>) -> bool {
    forall|id: u32|
        #[trigger] less.contains_key(id) ==> more.contains_key(id) && more[id] == less[id]
}

proof fn pattern_stays(
    pattern: TyView,
    less: Map<u32, TyView>,
    more: Map<u32, TyView>,
    actual: TyView,
)
    requires
        pattern_of(pattern, less, actual),
        agrees_with(less, more),
    ensures
        pattern_of(pattern, more, actual),
    decreases pattern,
{
    match pattern {
        TyView::Applied(_, args) => {
            let args1 = actual->Applied_1;
            assert forall|k: int| 0 <= k < args.len() implies pattern_of(
                #[trigger] args[k],
                more,
                args1[k],
            ) by {
                assert(pattern_of(args[k], less, args1[k]));
                pattern_stays(args[k], less, more, args1[k]);
            }
        },
        _ => {},
    }
}

proof fn matching_binds_the_pattern(
    pattern: TyView,
    actual: TyView,
    bindings: Map<u32, TyView>,
    other: Map<u32, TyView>,
)
    ensures
        agrees_with(bindings, matched(pattern, actual, bindings).0),
        matched(pattern, actual, bindings).1 ==> pattern_of(
            pattern,
            matched(pattern, actual, bindings).0,
            actual,
        ),
        agrees_with(bindings, other) && pattern_of(pattern, other, actual) ==> matched(
            pattern,
            actual,
            bindings,
        ).1 && agrees_with(matched(pattern, actual, bindings).0, other),
    decreases pattern, 0nat,
{
    match pattern {
        TyView::Applied(item, args) => match actual {
            TyView::Applied(item1, args1) => {
                if item == item1 && args.len() == args1.len() {
                    matching_binds_the_patterns(args, args1, 0, bindings, other);
                    let after = matched_all(args, args1, 0, bindings);
                    if after.1 {
                        assert forall|k: int| 0 <= k < args.len() implies pattern_of(
                            #[trigger] args[k],
                            after.0,
                            args1[k],
                        ) by {}
                    }
                }
            },
            _ => {},
        },
        _ => {},
    }
}

proof fn matching_binds_the_patterns(
    patterns: Seq<TyView>,
    actual: Seq<TyView>,
    i: nat,
    bindings: Map<u32, TyView>,
    other: Map<u32, TyView>,
)
    requires
        actual.len() == patterns.len(),
    ensures
        agrees_with(bindings, matched_all(patterns, actual, i, bindings).0),
        matched_all(patterns, actual, i, bindings).1 ==> forall|k: int|
            i <= k < patterns.len() ==> pattern_of(
                #[trigger] patterns[k],
                matched_all(patterns, actual, i, bindings).0,
                actual[k],
            ),
        agrees_with(bindings, other) && (forall|k: int|
            i <= k < patterns.len() ==> pattern_of(#[trigger] patterns[k], other, actual[k]))
            ==> matched_all(patterns, actual, i, bindings).1 && agrees_with(
            matched_all(patterns, actual, i, bindings).0,
            other,
        ),
    decreases patterns, patterns.len() - i,
{
    if i < patterns.len() {
        let (next, agree) = matched(patterns[i as int], actual[i as int], bindings);
        matching_binds_the_pattern(patterns[i as int], actual[i as int], bindings, other);
        if agree {
            matching_binds_the_patterns(patterns, actual, i + 1, next, other);
            let after = matched_all(patterns, actual, i + 1, next);
            if after.1 {
                pattern_stays(patterns[i as int], next, after.0, actual[i as int]);
            }
        }
    }
}

/// Types match patterns exactly where one binding of the patterns' type
/// parameters makes them the same.
pub proof fn matching_finds_a_binding(patterns: Seq<TyView>, actual: Seq<TyView>)
    requires
        actual.len() == patterns.len(),
    ensures
        matched_all(patterns, actual, 0, Map::empty()).1 <==> exists|bindings: Map<u32, TyView>|
            #[trigger]
            patterns_of(patterns, bindings, actual),
{
    let after = matched_all(patterns, actual, 0, Map::empty());
    if after.1 {
        matching_binds_the_patterns(patterns, actual, 0, Map::empty(), Map::empty());
        assert(patterns_of(patterns, after.0, actual));
    }
    if exists|bindings: Map<u32, TyView>| #[trigger] patterns_of(patterns, bindings, actual) {
        let bindings = choose|bindings: Map<u32, TyView>| #[trigger]
            patterns_of(patterns, bindings, actual);
        matching_binds_the_patterns(patterns, actual, 0, Map::empty(), bindings);
    }
}

proof fn all_resolved_are_closed(types: Seq<TyView>, i: nat)
    ensures
        resolved_from(types, i) <==> forall|k: int|
            i <= k < types.len() ==> closed_type(#[trigger] types[k]),
    decreases types.len() - i,
{
    if i < types.len() {
        resolved_is_closed(types[i as int]);
        all_resolved_are_closed(types, i + 1);
    }
}

/// Whether a value of `item` with the arguments `args` is of the type that
/// applies `expected` to `given`: it is the same item, its arguments are
/// closed, and they are those of the type but for its parameters.
pub open spec fn applies(
    item: ItemId,
    args: Seq<TyView>,
    expected: ItemId,
    given: Seq<TyView>,
) -> bool {
    &&& item == expected
    &&& forall|k: int| 0 <= k < args.len() ==> closed_type(#[trigger] args[k])
    &&& exists|bindings: Map<u32, TyView>| #[trigger] patterns_of(given, bindings, args)
}

proof fn instance_applies(
    item: ItemId,
    args: Seq<TyView>,
    expected: ItemId,
    given: Seq<TyView>,
)
    ensures
        instance_matches(item, args, expected, given) <==> applies(item, args, expected, given),
{
    all_resolved_are_closed(args, 0);
    if args.len() == given.len() {
        matching_finds_a_binding(given, args);
    }
}

/// A parameter, a slot and a result take a value exactly where it is
/// well-formed and of the type declared: a number, a truth value, a
/// character, a text or the unit where that is declared; of the item that
/// is named; of the item and, but for type parameters, of the arguments
/// that are applied. A bare type parameter takes anything well-formed; a
/// type that was never resolved, nothing.
pub proof fn declared_type_decides(
    module: Module,
    table: TableView,
    value: ValueView,
    declared: TyView,
)
    ensures
        argument_check(module, table, value, declared) is Ok <==> owned_graph(
            module,
            table,
            value,
        ) is Ok && match declared {
            TyView::Param(..) => true,
            TyView::Var(_) => false,
            TyView::Never => false,
            TyView::Error => false,
            TyView::Named(expected, _) => match value {
                ValueView::Record { item, .. } => item == expected,
                ValueView::Variant { item, .. } => item == expected,
                ValueView::Resource(handle) => table.records[handle.id.0 as int].item == expected,
                _ => false,
            },
            TyView::Applied(expected, given) => match value {
                ValueView::Record { item, type_args, .. } => applies(
                    item,
                    type_args,
                    expected,
                    given,
                ),
                ValueView::Variant { item, type_args, .. } => applies(
                    item,
                    type_args,
                    expected,
                    given,
                ),
                ValueView::Resource(handle) => applies(
                    table.records[handle.id.0 as int].item,
                    Seq::empty(),
                    expected,
                    given,
                ),
                _ => false,
            },
            _ => of_primitive(value, declared),
        },
{
    match declared {
        TyView::Applied(expected, given) => match value {
            ValueView::Record { item, type_args, .. } => {
                instance_applies(item, type_args, expected, given);
            },
            ValueView::Variant { item, type_args, .. } => {
                instance_applies(item, type_args, expected, given);
            },
            ValueView::Resource(handle) => {
                instance_applies(
                    table.records[handle.id.0 as int].item,
                    Seq::empty(),
                    expected,
                    given,
                );
            },
            _ => {},
        },
        _ => {},
    }
}

// ---------------------------------------------------------------------
// Lists, and which values may own something.
// ---------------------------------------------------------------------

/// What a declaration lists is taken in its order.
pub proof fn declarations_are_read_in_order(
    params: Seq<(TypeParamId, Symbol)>,
    fields: Seq<(Symbol, Ty)>,
    types: Seq<Ty>,
    entries: Seq<Evidence>,
)
    ensures
        param_ids(params).len() == params.len(),
        forall|k: int| 0 <= k < params.len() ==> #[trigger] param_ids(params)[k] == params[k].0,
        field_views(fields).len() == fields.len(),
        forall|k: int| 0 <= k < fields.len() ==> #[trigger] field_views(fields)[k] == fields[k].1@,
        ty_views(types).len() == types.len(),
        forall|k: int| 0 <= k < types.len() ==> #[trigger] ty_views(types)[k] == types[k]@,
        evidence_views(entries).len() == entries.len(),
        forall|k: int|
            0 <= k < entries.len() ==> #[trigger] evidence_views(entries)[k] == entries[k]@,
{
}

proof fn some_type_is_affine(module: Module, types: Seq<TyView>, i: nat)
    ensures
        module.any_affine_within(types, i, Set::empty(), 0) <==> exists|k: int|
            i <= k < types.len() && module.affine(#[trigger] types[k]),
    decreases types.len() - i,
{
    if i < types.len() {
        some_type_is_affine(module, types, i + 1);
        if module.affine(types[i as int]) {
            assert(module.affine(types[i as int]));
        } else if exists|k: int| i <= k < types.len() && module.affine(#[trigger] types[k]) {
            let k = choose|k: int| i <= k < types.len() && module.affine(#[trigger] types[k]);
            assert(k != i);
        }
    }
}

/// A record and a variant may own something exactly where their item is a
/// resource, or some type inside them, under their own arguments, may. A
/// handle always may; a value that holds no other never does.
pub proof fn value_may_own_by_its_type(module: Module, value: ValueView)
    ensures
        match value {
            ValueView::Resource(_) => module.affine_value(value) == Ok::<bool, ErrorView>(true),
            ValueView::Record { item, type_args, .. } => module.affine_value(value)
                == module.affine_instance(item, type_args),
            ValueView::Variant { item, type_args, .. } => module.affine_value(value)
                == module.affine_instance(item, type_args),
            _ => module.affine_value(value) == Ok::<bool, ErrorView>(false),
        },
{
}

/// What an instance of an item may own: see [`value_may_own_by_its_type`].
pub proof fn instance_may_own_by_its_types(module: Module, item: ItemId, args: Seq<TyView>)
    ensures
        module.resource(item) ==> module.affine_instance(item, args) == Ok::<bool, ErrorView>(
            true,
        ),
        !module.resource(item) ==> match module.type_substitution(item, args) {
            None => module.affine_instance(item, args) is Err,
            Some(subst) => forall|types: Seq<TyView>| #[trigger]
                instances(module.item_field_types(item), subst, types) ==> (module.affine_instance(
                    item,
                    args,
                ) == Ok::<bool, ErrorView>(
                    exists|k: int| 0 <= k < types.len() && module.affine(#[trigger] types[k]),
                )),
        },
{
    match module.type_substitution(item, args) {
        Some(subst) => {
            assert forall|types: Seq<TyView>| #[trigger]
                instances(module.item_field_types(item), subst, types) && !module.resource(
                item,
            ) implies module.affine_instance(item, args) == Ok::<bool, ErrorView>(
                exists|k: int| 0 <= k < types.len() && module.affine(#[trigger] types[k]),
            ) by {
                substituting_all_gives_the_instances(module.item_field_types(item), subst, types);
                some_type_is_affine(module, types, 0);
            }
        },
        None => {},
    }
}

} // verus!
