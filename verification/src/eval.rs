use crate::idmap::IdSet;
use crate::ids::{ItemId, TypeParamId, ValueId};
use crate::interpreter::Interpreter;
use crate::layout::{declared_params, param_ids, typed};
use crate::ops::{
    arith, arithmetic, bitop, bitwise, complement, const_value, constant, div, division, eq,
    equality, neg, negation, not, ord, ordering, shift, shifted, ArithOp, BitOp, Order, ShiftOp,
};
use crate::ownership::{plan_transferring, transferred, PlanView, StorePlan};
use crate::program::{ExtendLayout, Function, Module, ValueKind};
use crate::table::TableView;
use crate::type_ops::{
    copy_evidence, copy_type, fully_resolved, matched, resolved, substitute, substituted,
    type_pattern_matches,
};
use crate::types::{evidence_views, ty_views, Evidence, EvidenceView, Substitution, Ty, TyView};
use crate::validate::validated;
use crate::value::{
    checked, evaluated, invalid, invalid_message, refusal, value_views, ErrorView, InterpreterError,
    Value, ValueView,
};
use crate::value_ops::{copy_value, get, kind_name, kind_text, read_value, Frame};
use vstd::prelude::*;
use vstd::string::StringExecFns;

verus! {

broadcast use {crate::types::group_type_views, crate::value::group_value_views};

/// The type arguments written at an instruction, resolved through the
/// running frame's instantiation from position `i` on, after the
/// resolved ones `done`.
pub open spec fn type_args_from(
    types: Seq<TyView>,
    subst: Map<u32, TyView>,
    i: nat,
    done: Seq<TyView>,
) -> Result<Seq<TyView>, ErrorView>
    decreases types.len() - i,
{
    if i >= types.len() {
        Ok(done)
    } else if resolved(substituted(types[i as int], subst)) {
        type_args_from(types, subst, i + 1, done.push(substituted(types[i as int], subst)))
    } else {
        Err(
            refusal(
                "a type argument is still unresolved after the running frame's own instantiation is applied"@,
            ),
        )
    }
}

/// The type arguments written at an instruction, resolved through the
/// running frame's instantiation.
pub open spec fn type_args_in(types: Seq<TyView>, subst: Map<u32, TyView>) -> Result<
    Seq<TyView>,
    ErrorView,
> {
    type_args_from(types, subst, 0, Seq::empty())
}

/// The values of `ids` from position `i` on, after the values `done`.
pub open spec fn read_from(
    frame: Map<u32, ValueView>,
    ids: Seq<ValueId>,
    i: nat,
    done: Seq<ValueView>,
) -> Result<Seq<ValueView>, ErrorView>
    decreases ids.len() - i,
{
    if i >= ids.len() {
        Ok(done)
    } else {
        match read_value(frame, ids[i as int]) {
            Err(e) => Err(e),
            Ok(value) => read_from(frame, ids, i + 1, done.push(value)),
        }
    }
}

/// The values of `ids`.
pub open spec fn read_values(frame: Map<u32, ValueView>, ids: Seq<ValueId>) -> Result<
    Seq<ValueView>,
    ErrorView,
> {
    read_from(frame, ids, 0, Seq::empty())
}

/// One evidence entry against the running frame's own evidence: a
/// concrete extension is what it is, a forwarded one is looked up.
pub open spec fn evidence_in(current: Seq<EvidenceView>, entry: EvidenceView) -> Result<
    EvidenceView,
    ErrorView,
> {
    match entry {
        EvidenceView::Extension { .. } => Ok(entry),
        EvidenceView::Forwarded(index) => if index < current.len() {
            Ok(current[index as int])
        } else {
            Err(refusal("forwarded capability evidence index out of range"@))
        },
    }
}

/// [`evidence_in`] of each entry from position `i` on, after `done`.
pub open spec fn evidence_from(
    current: Seq<EvidenceView>,
    entries: Seq<EvidenceView>,
    i: nat,
    done: Seq<EvidenceView>,
) -> Result<Seq<EvidenceView>, ErrorView>
    decreases entries.len() - i,
{
    if i >= entries.len() {
        Ok(done)
    } else {
        match evidence_in(current, entries[i as int]) {
            Err(e) => Err(e),
            Ok(entry) => evidence_from(current, entries, i + 1, done.push(entry)),
        }
    }
}

/// The first function declared as `item`, from position `i` on.
pub open spec fn find_function(functions: Seq<Function>, item: ItemId, i: nat) -> Option<Function>
    decreases functions.len() - i,
{
    if i >= functions.len() {
        None
    } else if functions[i as int].id == item {
        Some(functions[i as int])
    } else {
        find_function(functions, item, i + 1)
    }
}

/// The first extension declared as `item`, from position `i` on.
pub open spec fn find_extend(extends: Seq<(ItemId, ExtendLayout)>, item: ItemId, i: nat) -> Option<
    ExtendLayout,
>
    decreases extends.len() - i,
{
    if i >= extends.len() {
        None
    } else if extends[i as int].0 == item {
        Some(extends[i as int].1)
    } else {
        find_extend(extends, item, i + 1)
    }
}

/// A call that is ready to be made: the callee, its type arguments, its
/// arguments and its evidence.
pub struct CallView {
    pub callee: Function,
    pub type_args: Seq<TyView>,
    pub args: Seq<ValueView>,
    pub evidence: Seq<EvidenceView>,
}

/// What an ordinary call or an invocation resolves to in a frame.
pub open spec fn call_target(
    module: Module,
    frame: Map<u32, ValueView>,
    current: Seq<EvidenceView>,
    subst: Map<u32, TyView>,
    item: ItemId,
    type_args: Seq<TyView>,
    args: Seq<ValueId>,
    evidence: Seq<EvidenceView>,
    unknown: Seq<char>,
) -> Result<CallView, ErrorView> {
    match type_args_in(type_args, subst) {
        Err(e) => Err(e),
        Ok(call_type_args) => match read_values(frame, args) {
            Err(e) => Err(e),
            Ok(values) => match find_function(module.functions@, item, 0) {
                None => Err(refusal(unknown)),
                Some(callee) => match evidence_from(current, evidence, 0, Seq::empty()) {
                    Err(e) => Err(e),
                    Ok(call_evidence) => Ok(
                        CallView {
                            callee,
                            type_args: call_type_args,
                            args: values,
                            evidence: call_evidence,
                        },
                    ),
                },
            },
        },
    }
}

/// Matching an extension's protocol arguments, from position `i` on,
/// against those of a call: what its type parameters stand for.
pub open spec fn extension_match(
    declared: Seq<TyView>,
    actual: Seq<TyView>,
    i: nat,
    bindings: Map<u32, TyView>,
) -> Result<Map<u32, TyView>, ErrorView>
    decreases declared.len() - i,
{
    if i >= declared.len() {
        Ok(bindings)
    } else {
        let (next, agree) = matched(declared[i as int], actual[i as int], bindings);
        if agree {
            extension_match(declared, actual, i + 1, next)
        } else {
            Err(
                refusal(
                    "a protocol call's own type arguments do not match the extension selected for it"@,
                ),
            )
        }
    }
}

/// The types that an extension's parameters from position `i` on stand
/// for, after `done`.
pub open spec fn extension_args(
    params: Seq<TypeParamId>,
    bindings: Map<u32, TyView>,
    i: nat,
    done: Seq<TyView>,
) -> Result<Seq<TyView>, ErrorView>
    decreases params.len() - i,
{
    if i >= params.len() {
        Ok(done)
    } else if bindings.contains_key(params[i as int].0) {
        extension_args(params, bindings, i + 1, done.push(bindings[params[i as int].0]))
    } else {
        Err(
            refusal(
                "an extension's own type parameter was not determined by the protocol arguments at this call site"@,
            ),
        )
    }
}

/// What a protocol call resolves to: its evidence names an extension,
/// whose method at the given index is called with the type arguments the
/// call's protocol arguments determine.
pub open spec fn protocol_target(
    module: Module,
    frame: Map<u32, ValueView>,
    current: Seq<EvidenceView>,
    subst: Map<u32, TyView>,
    arguments: Seq<TyView>,
    method: usize,
    evidence: EvidenceView,
    args: Seq<ValueId>,
) -> Result<CallView, ErrorView> {
    match read_values(frame, args) {
        Err(e) => Err(e),
        Ok(values) => match evidence_in(current, evidence) {
            Err(e) => Err(e),
            Ok(EvidenceView::Forwarded(_)) => Err(
                refusal("protocol call evidence did not resolve to a concrete extension"@),
            ),
            Ok(EvidenceView::Extension { extend, nested }) => match find_extend(
                module.extends@,
                extend,
                0,
            ) {
                None => Err(refusal("protocol call evidence references an unknown extend"@)),
                Some(layout) => if method >= layout.methods@.len() {
                    Err(refusal("protocol call method index out of range for its extend"@))
                } else {
                    match method_type_args(layout, arguments, subst) {
                        Err(e) => Err(e),
                        Ok(type_args) => match find_function(
                            module.functions@,
                            layout.methods@[method as int],
                            0,
                        ) {
                            None => Err(
                                refusal(
                                    "protocol call's implementing function is not present in this module"@,
                                ),
                            ),
                            Some(callee) => Ok(
                                CallView { callee, type_args, args: values, evidence: nested },
                            ),
                        },
                    }
                },
            },
        },
    }
}

/// The type arguments an extension's method is called with.
pub open spec fn method_type_args(
    layout: ExtendLayout,
    arguments: Seq<TyView>,
    subst: Map<u32, TyView>,
) -> Result<Seq<TyView>, ErrorView> {
    let declared = ty_views(layout.protocol_arguments@);
    match type_args_in(arguments, subst) {
        Err(e) => Err(e),
        Ok(actual) => if declared.len() != actual.len() {
            Err(
                refusal(
                    "a protocol call's own type arguments do not match the arity its extension declares"@,
                ),
            )
        } else {
            match extension_match(declared, actual, 0, Map::empty()) {
                Err(e) => Err(e),
                Ok(bindings) => extension_args(
                    param_ids(layout.type_params@),
                    bindings,
                    0,
                    Seq::empty(),
                ),
            }
        },
    }
}

/// The check of each value from position `i` on against the type of the
/// field it is to fill.
pub open spec fn filling_check(
    module: Module,
    table: TableView,
    values: Seq<ValueView>,
    declared: Seq<TyView>,
    i: nat,
) -> Result<(), ErrorView>
    decreases values.len() - i,
{
    if i >= values.len() {
        Ok(())
    } else {
        match validated(
            module,
            table,
            values[i as int],
            Some(declared[i as int]),
            Set::empty(),
            0,
        ).1 {
            Err(e) => Err(e),
            Ok(_) => filling_check(module, table, values, declared, i + 1),
        }
    }
}

/// Planning the move of each value from position `i` on into one plan,
/// after the rebuilt values `done`.
pub open spec fn plan_values(
    module: Module,
    table: TableView,
    values: Seq<ValueView>,
    i: nat,
    done: Seq<ValueView>,
    plan: PlanView,
) -> (PlanView, Result<Seq<ValueView>, ErrorView>)
    decreases values.len() - i,
{
    if i >= values.len() {
        (plan, Ok(done))
    } else {
        let (plan1, r) = plan_transferring(module, table, values[i as int], plan, 0);
        match r {
            Err(e) => (plan1, Err(e)),
            Ok(rebuilt) => plan_values(module, table, values, i + 1, done.push(rebuilt), plan1),
        }
    }
}

/// Moving the values of `ids` into the fields `declared`: the table
/// afterwards and the fields. A refusal moves nothing.
pub open spec fn filled(
    module: Module,
    table: TableView,
    frame: Map<u32, ValueView>,
    declared: Seq<TyView>,
    ids: Seq<ValueId>,
    miscounted: Seq<char>,
) -> Result<(TableView, Seq<ValueView>), ErrorView> {
    if declared.len() != ids.len() {
        Err(refusal(miscounted))
    } else {
        match read_values(frame, ids) {
            Err(e) => Err(e),
            Ok(supplied) => match filling_check(module, table, supplied, declared, 0) {
                Err(e) => Err(e),
                Ok(_) => {
                    let (plan, r) = plan_values(
                        module,
                        table,
                        supplied,
                        0,
                        Seq::empty(),
                        PlanView::empty(),
                    );
                    match r {
                        Err(e) => Err(e),
                        Ok(fields) => Ok((table.advanced(plan.transitions, 0), fields)),
                    }
                },
            },
        }
    }
}

/// Constructing a record, or a resource where the declaration is one.
pub open spec fn record_created(
    module: Module,
    table: TableView,
    frame: Map<u32, ValueView>,
    subst: Map<u32, TyView>,
    item: ItemId,
    type_args: Seq<TyView>,
    field_ids: Seq<ValueId>,
) -> Result<(TableView, ValueView), ErrorView> {
    match type_args_in(type_args, subst) {
        Err(e) => Err(e),
        Ok(args) => match module.record_field_types(item, args) {
            Err(e) => Err(e),
            Ok(declared) => match filled(
                module,
                table,
                frame,
                declared,
                field_ids,
                "a runtime construction supplies a field count its declaration does not declare"@,
            ) {
                Err(e) => Err(e),
                Ok((table1, fields)) => if module.resource(item) {
                    Ok(
                        (
                            table1.with_resource(item, fields),
                            ValueView::Resource(table1.next_handle()),
                        ),
                    )
                } else {
                    Ok((table1, ValueView::Record { item, type_args: args, fields }))
                },
            },
        },
    }
}

/// Constructing a variant in one of its cases.
pub open spec fn variant_created(
    module: Module,
    table: TableView,
    frame: Map<u32, ValueView>,
    subst: Map<u32, TyView>,
    item: ItemId,
    case: usize,
    type_args: Seq<TyView>,
    payload_ids: Seq<ValueId>,
) -> Result<(TableView, ValueView), ErrorView> {
    match type_args_in(type_args, subst) {
        Err(e) => Err(e),
        Ok(args) => match module.case_payload_types(item, args, case) {
            Err(e) => Err(e),
            Ok(declared) => match filled(
                module,
                table,
                frame,
                declared,
                payload_ids,
                "a runtime construction supplies a payload count its active case does not declare"@,
            ) {
                Err(e) => Err(e),
                Ok((table1, payload)) => Ok(
                    (table1, ValueView::Variant { item, type_args: args, case, payload }),
                ),
            },
        },
    }
}

/// Selecting a field of a record or resource declared as `record`: a
/// read, so what is selected comes back as an observing view.
pub open spec fn field_selected(
    table: TableView,
    base: ValueView,
    record: ItemId,
    field: usize,
) -> Result<ValueView, ErrorView> {
    let selected = match base {
        ValueView::Record { item, fields, .. } if item == record => if field < fields.len() {
            Ok(fields[field as int])
        } else {
            Err(refusal("record field index out of range"@))
        },
        ValueView::Resource(handle) => match table.observe(handle) {
            Err(e) => Err(e),
            Ok(stored) => if stored.item != record {
                Err(
                    refusal(
                        "expected a resource value of the expected type, found a different resource"@,
                    ),
                )
            } else if field < stored.fields.len() {
                Ok(stored.fields[field as int])
            } else {
                Err(refusal("resource field index out of range"@))
            },
        },
        other => Err(
            refusal("expected a record value of the expected type, found "@ + kind_text(other)),
        ),
    };
    match selected {
        Err(e) => Err(e),
        Ok(value) => table.observing_view(value, None, 0),
    }
}

/// Reading a payload position of the active case.
pub open spec fn payload_selected(
    base: ValueView,
    variant: ItemId,
    case: usize,
    index: usize,
) -> Result<ValueView, ErrorView> {
    match base {
        ValueView::Variant { item, case: active, payload, .. } if item == variant && active
            == case => if index < payload.len() {
            Ok(payload[index as int])
        } else {
            Err(refusal("variant payload index out of range"@))
        },
        other => Err(
            refusal(
                "expected an active variant case matching this payload projection, found "@
                    + kind_text(other),
            ),
        ),
    }
}

/// The two operands of a binary operation.
pub open spec fn operands(frame: Map<u32, ValueView>, a: ValueId, b: ValueId) -> Result<
    (ValueView, ValueView),
    ErrorView,
> {
    match read_value(frame, a) {
        Err(e) => Err(e),
        Ok(x) => match read_value(frame, b) {
            Err(e) => Err(e),
            Ok(y) => Ok((x, y)),
        },
    }
}

/// A truth value, where there is one.
pub open spec fn truth(r: Result<bool, ErrorView>) -> Result<ValueView, ErrorView> {
    match r {
        Err(e) => Err(e),
        Ok(b) => Ok(ValueView::Bool(b)),
    }
}

/// Whether an order is, or is not, the given one.
pub open spec fn compared(r: Result<Order, ErrorView>, order: Order, is: bool) -> Result<
    ValueView,
    ErrorView,
> {
    match r {
        Err(e) => Err(e),
        Ok(found) => Ok(ValueView::Bool((found == order) == is)),
    }
}

/// What an operator gives on the values of a frame, for the kinds that
/// are operators.
pub open spec fn operator(kind: ValueKind, frame: Map<u32, ValueView>) -> Result<
    ValueView,
    ErrorView,
> {
    match kind {
        ValueKind::Alloc => Ok(ValueView::Unit),
        ValueKind::Const(c) => Ok(constant(c)),
        ValueKind::Load(id) => read_value(frame, id),
        ValueKind::Neg(a) => match read_value(frame, a) {
            Err(e) => Err(e),
            Ok(x) => negation(x),
        },
        ValueKind::Not(a) => match read_value(frame, a) {
            Err(e) => Err(e),
            Ok(x) => complement(x),
        },
        ValueKind::Add(a, b) => match operands(frame, a, b) {
            Err(e) => Err(e),
            Ok((x, y)) => arithmetic(ArithOp::Add, x, y),
        },
        ValueKind::Sub(a, b) => match operands(frame, a, b) {
            Err(e) => Err(e),
            Ok((x, y)) => arithmetic(ArithOp::Sub, x, y),
        },
        ValueKind::Mul(a, b) => match operands(frame, a, b) {
            Err(e) => Err(e),
            Ok((x, y)) => arithmetic(ArithOp::Mul, x, y),
        },
        ValueKind::Div(a, b) => match operands(frame, a, b) {
            Err(e) => Err(e),
            Ok((x, y)) => division(x, y, false),
        },
        ValueKind::Rem(a, b) => match operands(frame, a, b) {
            Err(e) => Err(e),
            Ok((x, y)) => division(x, y, true),
        },
        ValueKind::And(a, b) => match operands(frame, a, b) {
            Err(e) => Err(e),
            Ok((x, y)) => bitwise(BitOp::And, x, y),
        },
        ValueKind::Or(a, b) => match operands(frame, a, b) {
            Err(e) => Err(e),
            Ok((x, y)) => bitwise(BitOp::Or, x, y),
        },
        ValueKind::Xor(a, b) => match operands(frame, a, b) {
            Err(e) => Err(e),
            Ok((x, y)) => bitwise(BitOp::Xor, x, y),
        },
        ValueKind::Shl(a, b) => match operands(frame, a, b) {
            Err(e) => Err(e),
            Ok((x, y)) => shifted(ShiftOp::Left, x, y),
        },
        ValueKind::Shr(a, b) => match operands(frame, a, b) {
            Err(e) => Err(e),
            Ok((x, y)) => shifted(ShiftOp::Right, x, y),
        },
        ValueKind::Eq(a, b) => match operands(frame, a, b) {
            Err(e) => Err(e),
            Ok((x, y)) => truth(equality(x, y)),
        },
        ValueKind::Ne(a, b) => match operands(frame, a, b) {
            Err(e) => Err(e),
            Ok((x, y)) => match equality(x, y) {
                Err(e) => Err(e),
                Ok(equal) => Ok(ValueView::Bool(!equal)),
            },
        },
        ValueKind::Lt(a, b) => match operands(frame, a, b) {
            Err(e) => Err(e),
            Ok((x, y)) => compared(ordering(x, y), Order::Less, true),
        },
        ValueKind::Le(a, b) => match operands(frame, a, b) {
            Err(e) => Err(e),
            Ok((x, y)) => compared(ordering(x, y), Order::Greater, false),
        },
        ValueKind::Gt(a, b) => match operands(frame, a, b) {
            Err(e) => Err(e),
            Ok((x, y)) => compared(ordering(x, y), Order::Greater, true),
        },
        ValueKind::Ge(a, b) => match operands(frame, a, b) {
            Err(e) => Err(e),
            Ok((x, y)) => compared(ordering(x, y), Order::Less, false),
        },
        _ => Err(refusal("a value kind that is not an operator"@)),
    }
}

/// What a value kind gives that calls no function: the table afterwards
/// and the value. A refusal changes nothing.
pub open spec fn computed(
    module: Module,
    table: TableView,
    kind: ValueKind,
    frame: Map<u32, ValueView>,
    subst: Map<u32, TyView>,
) -> Result<(TableView, ValueView), ErrorView> {
    match kind {
        ValueKind::Move { source } => match read_value(frame, source) {
            Err(e) => Err(e),
            Ok(value) => transferred(module, table, value),
        },
        ValueKind::DeferCapture { source } => match read_value(frame, source) {
            Err(e) => Err(e),
            Ok(value) => transferred(module, table, value),
        },
        ValueKind::PlaceRead { .. } => Err(
            refusal(
                "ValueKind::PlaceRead must be evaluated by call_function directly, never through eval"@,
            ),
        ),
        ValueKind::ObservePlace { .. } => Err(
            refusal(
                "ValueKind::ObservePlace must be evaluated by call_function directly, never through eval"@,
            ),
        ),
        ValueKind::RecordCreate(item, type_args, field_ids) => record_created(
            module,
            table,
            frame,
            subst,
            item,
            ty_views(type_args@),
            field_ids@,
        ),
        ValueKind::RecordField { base, record, field } => match read_value(frame, base) {
            Err(e) => Err(e),
            Ok(value) => match field_selected(table, value, record, field) {
                Err(e) => Err(e),
                Ok(selected) => Ok((table, selected)),
            },
        },
        ValueKind::VariantCreate { variant, case, type_args, payload } => variant_created(
            module,
            table,
            frame,
            subst,
            variant,
            case,
            ty_views(type_args@),
            payload@,
        ),
        ValueKind::VariantPayload { base, variant, case, index } => match read_value(frame, base) {
            Err(e) => Err(e),
            Ok(value) => match payload_selected(value, variant, case, index) {
                Err(e) => Err(e),
                Ok(selected) => Ok((table, selected)),
            },
        },
        other => match operator(other, frame) {
            Err(e) => Err(e),
            Ok(value) => Ok((table, value)),
        },
    }
}

/// Resolves one evidence entry against the running frame's own evidence.
pub fn resolve_evidence(current_evidence: &Vec<Evidence>, entry: &Evidence) -> (r: Result<
    Evidence,
    InterpreterError,
>)
    ensures
        match r {
            Ok(evidence) => evidence_in(evidence_views(current_evidence@), entry@) == Ok::<
                EvidenceView,
                ErrorView,
            >(evidence@),
            Err(e) => evidence_in(evidence_views(current_evidence@), entry@) == Err::<
                EvidenceView,
                ErrorView,
            >(e@),
        },
{
    match entry {
        Evidence::Extension { .. } => Ok(copy_evidence(entry)),
        Evidence::Forwarded(index) => {
            assert(evidence_views(current_evidence@).len() == current_evidence@.len());
            if *index < current_evidence.len() {
                Ok(copy_evidence(&current_evidence[*index]))
            } else {
                Err(invalid("forwarded capability evidence index out of range"))
            }
        },
    }
}

/// Resolves each evidence entry of a call.
pub fn resolve_evidence_list(current_evidence: &Vec<Evidence>, entries: &Vec<Evidence>) -> (r:
    Result<Vec<Evidence>, InterpreterError>)
    ensures
        match r {
            Ok(out) => evidence_from(
                evidence_views(current_evidence@),
                evidence_views(entries@),
                0,
                Seq::empty(),
            ) == Ok::<Seq<EvidenceView>, ErrorView>(evidence_views(out@)),
            Err(e) => evidence_from(
                evidence_views(current_evidence@),
                evidence_views(entries@),
                0,
                Seq::empty(),
            ) == Err::<Seq<EvidenceView>, ErrorView>(e@),
        },
{
    let mut out: Vec<Evidence> = Vec::new();
    let mut i: usize = 0;
    assert(evidence_views(out@) =~= Seq::empty());
    while i < entries.len()
        invariant
            i <= entries@.len(),
            evidence_from(
                evidence_views(current_evidence@),
                evidence_views(entries@),
                0,
                Seq::empty(),
            ) == evidence_from(
                evidence_views(current_evidence@),
                evidence_views(entries@),
                i as nat,
                evidence_views(out@),
            ),
        decreases entries@.len() - i,
    {
        match resolve_evidence(current_evidence, &entries[i]) {
            Err(e) => {
                return Err(e);
            },
            Ok(entry) => {
                let ghost before = out@;
                out.push(entry);
                assert(evidence_views(out@) =~= evidence_views(before).push(entry@));
            },
        }
        i = i + 1;
    }
    Ok(out)
}

/// Reads the values of `ids`.
pub fn get_all(values: &Frame, ids: &Vec<ValueId>) -> (r: Result<Vec<Value>, InterpreterError>)
    ensures
        match r {
            Ok(out) => read_values(values@, ids@) == Ok::<Seq<ValueView>, ErrorView>(
                value_views(out@),
            ),
            Err(e) => read_values(values@, ids@) == Err::<Seq<ValueView>, ErrorView>(e@),
        },
{
    let mut out: Vec<Value> = Vec::new();
    let mut i: usize = 0;
    assert(value_views(out@) =~= Seq::empty());
    while i < ids.len()
        invariant
            i <= ids@.len(),
            read_values(values@, ids@) == read_from(values@, ids@, i as nat, value_views(out@)),
        decreases ids@.len() - i,
    {
        match get(values, &ids[i]) {
            Err(e) => {
                return Err(e);
            },
            Ok(value) => {
                out.push(value);
            },
        }
        i = i + 1;
    }
    Ok(out)
}

/// A call that is ready to be made.
pub struct PreparedCall<'a> {
    pub callee: &'a Function,
    pub type_args: Vec<Ty>,
    pub args: Vec<Value>,
    pub evidence: Vec<Evidence>,
}

impl<'a> View for PreparedCall<'a> {
    type V = CallView;

    open spec fn view(&self) -> CallView {
        CallView {
            callee: *self.callee,
            type_args: ty_views(self.type_args@),
            args: value_views(self.args@),
            evidence: evidence_views(self.evidence@),
        }
    }
}

/// A prepared call or the refusal of one, as a mathematical value.
pub open spec fn prepared(r: Result<PreparedCall<'_>, InterpreterError>) -> Result<
    CallView,
    ErrorView,
> {
    match r {
        Ok(call) => Ok(call@),
        Err(e) => Err(e@),
    }
}

/// The function declared as `item`.
pub fn function_named<'m>(module: &'m Module, item: ItemId) -> (r: Option<&'m Function>)
    ensures
        match r {
            Some(function) => find_function(module.functions@, item, 0) == Some(*function),
            None => find_function(module.functions@, item, 0) is None,
        },
{
    let mut i: usize = 0;
    while i < module.functions.len()
        invariant
            i <= module.functions@.len(),
            find_function(module.functions@, item, 0) == find_function(
                module.functions@,
                item,
                i as nat,
            ),
        decreases module.functions@.len() - i,
    {
        if module.functions[i].id == item {
            return Some(&module.functions[i]);
        }
        i = i + 1;
    }
    None
}

/// The extension declared as `item`.
fn extend_named<'m>(module: &'m Module, item: ItemId) -> (r: Option<&'m ExtendLayout>)
    ensures
        match r {
            Some(extend) => find_extend(module.extends@, item, 0) == Some(*extend),
            None => find_extend(module.extends@, item, 0) is None,
        },
{
    let mut i: usize = 0;
    while i < module.extends.len()
        invariant
            i <= module.extends@.len(),
            find_extend(module.extends@, item, 0) == find_extend(module.extends@, item, i as nat),
        decreases module.extends@.len() - i,
    {
        if module.extends[i].0 == item {
            return Some(&module.extends[i].1);
        }
        i = i + 1;
    }
    None
}

impl<'a> Interpreter<'a> {
    /// Resolves the type arguments written at an instruction through the
    /// running frame's instantiation, and requires the result to be
    /// concrete.
    pub fn resolve_type_args(&self, type_args: &Vec<Ty>, frame_subst: &Substitution) -> (r: Result<
        Vec<Ty>,
        InterpreterError,
    >)
        ensures
            typed(r) == type_args_in(ty_views(type_args@), frame_subst@),
    {
        let mut out: Vec<Ty> = Vec::new();
        let mut i: usize = 0;
        assert(ty_views(out@) =~= Seq::empty());
        while i < type_args.len()
            invariant
                i <= type_args@.len(),
                type_args_in(ty_views(type_args@), frame_subst@) == type_args_from(
                    ty_views(type_args@),
                    frame_subst@,
                    i as nat,
                    ty_views(out@),
                ),
            decreases type_args@.len() - i,
        {
            let resolved = substitute(&type_args[i], frame_subst);
            if !fully_resolved(&resolved) {
                return Err(
                    invalid(
                        "a type argument is still unresolved after the running frame's own instantiation is applied",
                    ),
                );
            }
            let ghost before = out@;
            out.push(resolved);
            assert(ty_views(out@) =~= ty_views(before).push(resolved@));
            i = i + 1;
        }
        Ok(out)
    }

    /// Resolves a call in a frame.
    pub fn prepare_call(
        &self,
        values: &Frame,
        current_evidence: &Vec<Evidence>,
        frame_subst: &Substitution,
        item: ItemId,
        type_args: &Vec<Ty>,
        args: &Vec<ValueId>,
        evidence: &Vec<Evidence>,
        unknown: &str,
    ) -> (r: Result<PreparedCall<'a>, InterpreterError>)
        ensures
            prepared(r) == call_target(
                *self.module,
                values@,
                evidence_views(current_evidence@),
                frame_subst@,
                item,
                ty_views(type_args@),
                args@,
                evidence_views(evidence@),
                unknown@,
            ),
    {
        let call_type_args = match self.resolve_type_args(type_args, frame_subst) {
            Err(e) => {
                return Err(e);
            },
            Ok(types) => types,
        };
        let arg_values = match get_all(values, args) {
            Err(e) => {
                return Err(e);
            },
            Ok(arg_values) => arg_values,
        };
        let callee = match function_named(self.module, item) {
            None => {
                return Err(invalid(unknown));
            },
            Some(callee) => callee,
        };
        match resolve_evidence_list(current_evidence, evidence) {
            Err(e) => Err(e),
            Ok(call_evidence) => Ok(
                PreparedCall {
                    callee,
                    type_args: call_type_args,
                    args: arg_values,
                    evidence: call_evidence,
                },
            ),
        }
    }

    /// The type arguments an extension's method is called with,
    /// recovered by matching the extension's protocol arguments against
    /// those of the call.
    fn method_type_args(
        &self,
        layout: &ExtendLayout,
        arguments: &Vec<Ty>,
        frame_subst: &Substitution,
    ) -> (r: Result<Vec<Ty>, InterpreterError>)
        ensures
            typed(r) == method_type_args(*layout, ty_views(arguments@), frame_subst@),
    {
        let actual = match self.resolve_type_args(arguments, frame_subst) {
            Err(e) => {
                return Err(e);
            },
            Ok(actual) => actual,
        };
        let declared = &layout.protocol_arguments;
        assert(ty_views(declared@).len() == declared@.len());
        assert(ty_views(actual@).len() == actual@.len());
        if declared.len() != actual.len() {
            return Err(
                invalid(
                    "a protocol call's own type arguments do not match the arity its extension declares",
                ),
            );
        }
        let mut bindings = Substitution::new();
        let mut i: usize = 0;
        while i < declared.len()
            invariant
                i <= declared@.len(),
                declared@.len() == actual@.len(),
                extension_match(ty_views(declared@), ty_views(actual@), 0, Map::empty())
                    == extension_match(
                    ty_views(declared@),
                    ty_views(actual@),
                    i as nat,
                    bindings@,
                ),
                declared == layout.protocol_arguments,
                type_args_in(ty_views(arguments@), frame_subst@) == Ok::<Seq<TyView>, ErrorView>(
                    ty_views(actual@),
                ),
            decreases declared@.len() - i,
        {
            if !type_pattern_matches(&declared[i], &actual[i], &mut bindings) {
                return Err(
                    invalid(
                        "a protocol call's own type arguments do not match the extension selected for it",
                    ),
                );
            }
            i = i + 1;
        }
        let params = declared_params(&layout.type_params);
        let mut out: Vec<Ty> = Vec::new();
        let mut j: usize = 0;
        assert(ty_views(out@) =~= Seq::empty());
        while j < params.len()
            invariant
                j <= params@.len(),
                extension_args(params@, bindings@, 0, Seq::empty()) == extension_args(
                    params@,
                    bindings@,
                    j as nat,
                    ty_views(out@),
                ),
                method_type_args(*layout, ty_views(arguments@), frame_subst@) == extension_args(
                    params@,
                    bindings@,
                    0,
                    Seq::empty(),
                ),
            decreases params@.len() - j,
        {
            match bindings.get(&params[j]) {
                None => {
                    return Err(
                        invalid(
                            "an extension's own type parameter was not determined by the protocol arguments at this call site",
                        ),
                    );
                },
                Some(bound) => {
                    let ghost before = out@;
                    let ty = copy_type(bound);
                    out.push(ty);
                    assert(ty_views(out@) =~= ty_views(before).push(ty@));
                },
            }
            j = j + 1;
        }
        Ok(out)
    }

    /// Resolves a protocol call in a frame: by its evidence to an
    /// extension, and by the method's index to a function.
    pub fn prepare_protocol_call(
        &self,
        values: &Frame,
        current_evidence: &Vec<Evidence>,
        frame_subst: &Substitution,
        arguments: &Vec<Ty>,
        method: usize,
        evidence: &Evidence,
        args: &Vec<ValueId>,
    ) -> (r: Result<PreparedCall<'a>, InterpreterError>)
        ensures
            prepared(r) == protocol_target(
                *self.module,
                values@,
                evidence_views(current_evidence@),
                frame_subst@,
                ty_views(arguments@),
                method,
                evidence@,
                args@,
            ),
    {
        let arg_values = match get_all(values, args) {
            Err(e) => {
                return Err(e);
            },
            Ok(arg_values) => arg_values,
        };
        let resolved = match resolve_evidence(current_evidence, evidence) {
            Err(e) => {
                return Err(e);
            },
            Ok(resolved) => resolved,
        };
        match resolved {
            Evidence::Forwarded(_) => Err(
                invalid("protocol call evidence did not resolve to a concrete extension"),
            ),
            Evidence::Extension { extend, nested } => {
                let layout = match extend_named(self.module, extend) {
                    None => {
                        return Err(
                            invalid("protocol call evidence references an unknown extend"),
                        );
                    },
                    Some(layout) => layout,
                };
                if method >= layout.methods.len() {
                    return Err(invalid("protocol call method index out of range for its extend"));
                }
                let type_args = match self.method_type_args(layout, arguments, frame_subst) {
                    Err(e) => {
                        return Err(e);
                    },
                    Ok(type_args) => type_args,
                };
                match function_named(self.module, layout.methods[method]) {
                    None => Err(
                        invalid(
                            "protocol call's implementing function is not present in this module",
                        ),
                    ),
                    Some(callee) => Ok(
                        PreparedCall { callee, type_args, args: arg_values, evidence: nested },
                    ),
                }
            },
        }
    }

    /// Moves the values of `ids` into the fields `declared`, as one
    /// transaction over all of them.
    fn fill(
        &mut self,
        values: &Frame,
        declared: &Vec<Ty>,
        ids: &Vec<ValueId>,
        miscounted: &str,
    ) -> (r: Result<Vec<Value>, InterpreterError>)
        ensures
            match r {
                Ok(fields) => filled(
                    *old(self).module,
                    old(self)@.table,
                    values@,
                    ty_views(declared@),
                    ids@,
                    miscounted@,
                ) == Ok::<(TableView, Seq<ValueView>), ErrorView>(
                    (final(self)@.table, value_views(fields@)),
                ),
                Err(e) => filled(
                    *old(self).module,
                    old(self)@.table,
                    values@,
                    ty_views(declared@),
                    ids@,
                    miscounted@,
                ) == Err::<(TableView, Seq<ValueView>), ErrorView>(e@) && final(self)@.table
                    == old(self)@.table,
            },
            final(self)@.events == old(self)@.events,
            final(self).module == old(self).module,
            final(self).call_depth == old(self).call_depth,
    {
        assert(ty_views(declared@).len() == declared@.len());
        if declared.len() != ids.len() {
            return Err(invalid(miscounted));
        }
        let supplied = match get_all(values, ids) {
            Err(e) => {
                return Err(e);
            },
            Ok(supplied) => supplied,
        };
        proof {
            lemma_read_len(values@, ids@, 0, Seq::empty());
        }
        assert(value_views(supplied@).len() == supplied@.len());
        match self.validate_filling(&supplied, declared) {
            Err(e) => {
                return Err(e);
            },
            Ok(_) => {},
        }
        let mut plan = StorePlan::new();
        match self.plan_all(&supplied, &mut plan) {
            Err(e) => Err(e),
            Ok(fields) => {
                self.commit_transfer(&plan);
                Ok(fields)
            },
        }
    }

    /// Checks each value against the type of the field it is to fill.
    fn validate_filling(&self, supplied: &Vec<Value>, declared: &Vec<Ty>) -> (r: Result<
        (),
        InterpreterError,
    >)
        requires
            supplied@.len() == declared@.len(),
        ensures
            checked(r) == filling_check(
                *self.module,
                self@.table,
                value_views(supplied@),
                ty_views(declared@),
                0,
            ),
    {
        let mut i: usize = 0;
        while i < supplied.len()
            invariant
                i <= supplied@.len(),
                supplied@.len() == declared@.len(),
                filling_check(
                    *self.module,
                    self@.table,
                    value_views(supplied@),
                    ty_views(declared@),
                    0,
                ) == filling_check(
                    *self.module,
                    self@.table,
                    value_views(supplied@),
                    ty_views(declared@),
                    i as nat,
                ),
            decreases supplied@.len() - i,
        {
            let mut seen = IdSet::new();
            match self.validate_value_against_ty(&supplied[i], Some(&declared[i]), &mut seen, 0) {
                Err(e) => {
                    return Err(e);
                },
                Ok(_) => {},
            }
            i = i + 1;
        }
        Ok(())
    }

    /// Plans the move of every value into one plan.
    fn plan_all(&self, supplied: &Vec<Value>, plan: &mut StorePlan) -> (r: Result<
        Vec<Value>,
        InterpreterError,
    >)
        ensures
            ({
                let (plan1, planned) = plan_values(
                    *self.module,
                    self@.table,
                    value_views(supplied@),
                    0,
                    Seq::empty(),
                    old(plan)@,
                );
                &&& final(plan)@ == plan1
                &&& match r {
                    Ok(fields) => planned == Ok::<Seq<ValueView>, ErrorView>(value_views(fields@)),
                    Err(e) => planned == Err::<Seq<ValueView>, ErrorView>(e@),
                }
            }),
            old(plan)@.within(self@.table) ==> final(plan)@.within(self@.table),
    {
        let mut fields: Vec<Value> = Vec::new();
        let mut i: usize = 0;
        assert(value_views(fields@) =~= Seq::empty());
        while i < supplied.len()
            invariant
                i <= supplied@.len(),
                plan_values(
                    *self.module,
                    self@.table,
                    value_views(supplied@),
                    0,
                    Seq::empty(),
                    old(plan)@,
                ) == plan_values(
                    *self.module,
                    self@.table,
                    value_views(supplied@),
                    i as nat,
                    value_views(fields@),
                    plan@,
                ),
                old(plan)@.within(self@.table) ==> plan@.within(self@.table),
            decreases supplied@.len() - i,
        {
            match self.plan_transfer(&supplied[i], plan, 0) {
                Err(e) => {
                    return Err(e);
                },
                Ok(value) => {
                    fields.push(value);
                },
            }
            i = i + 1;
        }
        Ok(fields)
    }

    /// Selects a field of a record or resource.
    fn select_field(&self, base: &Value, record: ItemId, field: usize) -> (r: Result<
        Value,
        InterpreterError,
    >)
        ensures
            evaluated(r) == field_selected(self@.table, base@, record, field),
    {
        let mismatch = match base {
            Value::Record { item, fields, .. } => {
                if *item == record {
                    assert(value_views(fields@).len() == fields@.len());
                    if field >= fields.len() {
                        return Err(invalid("record field index out of range"));
                    }
                    return self.to_observer_if_resource(&fields[field]);
                }
                base
            },
            Value::Resource(handle) => {
                let stored = match self.resources.observe(*handle) {
                    Err(e) => {
                        return Err(e);
                    },
                    Ok(stored) => stored,
                };
                if stored.item != record {
                    return Err(
                        invalid(
                            "expected a resource value of the expected type, found a different resource",
                        ),
                    );
                }
                if field >= stored.fields.len() {
                    return Err(invalid("resource field index out of range"));
                }
                return self.to_observer_if_resource(&stored.fields[field]);
            },
            other => other,
        };
        let mut message = "expected a record value of the expected type, found ".to_owned();
        message.append(kind_name(mismatch));
        Err(invalid_message(message))
    }

    /// What a value kind gives that calls no function.
    pub fn compute(&mut self, kind: &ValueKind, values: &Frame, frame_subst: &Substitution) -> (r:
        Result<Value, InterpreterError>)
        ensures
            match r {
                Ok(value) => computed(
                    *old(self).module,
                    old(self)@.table,
                    *kind,
                    values@,
                    frame_subst@,
                ) == Ok::<(TableView, ValueView), ErrorView>((final(self)@.table, value@)),
                Err(e) => computed(
                    *old(self).module,
                    old(self)@.table,
                    *kind,
                    values@,
                    frame_subst@,
                ) == Err::<(TableView, ValueView), ErrorView>(e@) && final(self)@.table
                    == old(self)@.table,
            },
            final(self)@.events == old(self)@.events,
            final(self).module == old(self).module,
            final(self).call_depth == old(self).call_depth,
    {
        match kind {
            ValueKind::Move { source } => match get(values, source) {
                Err(e) => Err(e),
                Ok(value) => self.transfer_if_resource(&value),
            },
            ValueKind::DeferCapture { source } => match get(values, source) {
                Err(e) => Err(e),
                Ok(value) => self.transfer_if_resource(&value),
            },
            ValueKind::PlaceRead { .. } => Err(
                invalid(
                    "ValueKind::PlaceRead must be evaluated by call_function directly, never through eval",
                ),
            ),
            ValueKind::ObservePlace { .. } => Err(
                invalid(
                    "ValueKind::ObservePlace must be evaluated by call_function directly, never through eval",
                ),
            ),
            ValueKind::RecordCreate(item, type_args, field_ids) => {
                let type_args = match self.resolve_type_args(type_args, frame_subst) {
                    Err(e) => {
                        return Err(e);
                    },
                    Ok(type_args) => type_args,
                };
                let declared = match self.record_field_types(*item, &type_args) {
                    Err(e) => {
                        return Err(e);
                    },
                    Ok(declared) => declared,
                };
                let fields = match self.fill(
                    values,
                    &declared,
                    field_ids,
                    "a runtime construction supplies a field count its declaration does not declare",
                ) {
                    Err(e) => {
                        return Err(e);
                    },
                    Ok(fields) => fields,
                };
                if self.is_resource(*item) {
                    let handle = self.resources.construct(*item, fields);
                    Ok(Value::Resource(handle))
                } else {
                    Ok(Value::Record { item: *item, type_args, fields })
                }
            },
            ValueKind::RecordField { base, record, field } => match get(values, base) {
                Err(e) => Err(e),
                Ok(value) => self.select_field(&value, *record, *field),
            },
            ValueKind::VariantCreate { variant, case, type_args, payload } => {
                let type_args = match self.resolve_type_args(type_args, frame_subst) {
                    Err(e) => {
                        return Err(e);
                    },
                    Ok(type_args) => type_args,
                };
                let declared = match self.case_payload_types(*variant, &type_args, *case) {
                    Err(e) => {
                        return Err(e);
                    },
                    Ok(declared) => declared,
                };
                match self.fill(
                    values,
                    &declared,
                    payload,
                    "a runtime construction supplies a payload count its active case does not declare",
                ) {
                    Err(e) => Err(e),
                    Ok(payload) => Ok(
                        Value::Variant { item: *variant, type_args, case: *case, payload },
                    ),
                }
            },
            ValueKind::VariantPayload { base, variant, case, index } => match get(values, base) {
                Err(e) => Err(e),
                Ok(value) => select_payload(&value, *variant, *case, *index),
            },
            other => operate(other, values),
        }
    }
}

/// Reads a payload position of the active case.
fn select_payload(base: &Value, variant: ItemId, case: usize, index: usize) -> (r: Result<
    Value,
    InterpreterError,
>)
    ensures
        evaluated(r) == payload_selected(base@, variant, case, index),
{
    match base {
        Value::Variant { item, case: active, payload, .. } => {
            if *item == variant && *active == case {
                assert(value_views(payload@).len() == payload@.len());
                if index >= payload.len() {
                    return Err(invalid("variant payload index out of range"));
                }
                return Ok(copy_value(&payload[index]));
            }
        },
        _ => {},
    }
    let mut message =
        "expected an active variant case matching this payload projection, found ".to_owned();
    message.append(kind_name(base));
    Err(invalid_message(message))
}

/// Reads the two operands of a binary operation.
fn get_operands(values: &Frame, a: &ValueId, b: &ValueId) -> (r: Result<
    (Value, Value),
    InterpreterError,
>)
    ensures
        match r {
            Ok((x, y)) => operands(values@, *a, *b) == Ok::<(ValueView, ValueView), ErrorView>(
                (x@, y@),
            ),
            Err(e) => operands(values@, *a, *b) == Err::<(ValueView, ValueView), ErrorView>(e@),
        },
{
    match get(values, a) {
        Err(e) => Err(e),
        Ok(x) => match get(values, b) {
            Err(e) => Err(e),
            Ok(y) => Ok((x, y)),
        },
    }
}

/// Whether an order is, or is not, the given one.
fn compare(r: Result<Order, InterpreterError>, order: Order, is: bool) -> (v: Result<
    Value,
    InterpreterError,
>)
    ensures
        evaluated(v) == compared(
            match r {
                Ok(found) => Ok(found),
                Err(e) => Err(e@),
            },
            order,
            is,
        ),
{
    match r {
        Err(e) => Err(e),
        Ok(found) => Ok(Value::Bool((found == order) == is)),
    }
}

/// What an operator gives on the values of a frame.
fn operate(kind: &ValueKind, values: &Frame) -> (r: Result<Value, InterpreterError>)
    ensures
        evaluated(r) == operator(*kind, values@),
{
    match kind {
        ValueKind::Alloc => Ok(Value::Unit),
        ValueKind::Const(c) => Ok(const_value(c)),
        ValueKind::Load(id) => get(values, id),
        ValueKind::Neg(a) => match get(values, a) {
            Err(e) => Err(e),
            Ok(x) => neg(&x),
        },
        ValueKind::Not(a) => match get(values, a) {
            Err(e) => Err(e),
            Ok(x) => not(&x),
        },
        ValueKind::Add(a, b) => match get_operands(values, a, b) {
            Err(e) => Err(e),
            Ok((x, y)) => arith(ArithOp::Add, &x, &y),
        },
        ValueKind::Sub(a, b) => match get_operands(values, a, b) {
            Err(e) => Err(e),
            Ok((x, y)) => arith(ArithOp::Sub, &x, &y),
        },
        ValueKind::Mul(a, b) => match get_operands(values, a, b) {
            Err(e) => Err(e),
            Ok((x, y)) => arith(ArithOp::Mul, &x, &y),
        },
        ValueKind::Div(a, b) => match get_operands(values, a, b) {
            Err(e) => Err(e),
            Ok((x, y)) => div(&x, &y, false),
        },
        ValueKind::Rem(a, b) => match get_operands(values, a, b) {
            Err(e) => Err(e),
            Ok((x, y)) => div(&x, &y, true),
        },
        ValueKind::And(a, b) => match get_operands(values, a, b) {
            Err(e) => Err(e),
            Ok((x, y)) => bitop(BitOp::And, &x, &y),
        },
        ValueKind::Or(a, b) => match get_operands(values, a, b) {
            Err(e) => Err(e),
            Ok((x, y)) => bitop(BitOp::Or, &x, &y),
        },
        ValueKind::Xor(a, b) => match get_operands(values, a, b) {
            Err(e) => Err(e),
            Ok((x, y)) => bitop(BitOp::Xor, &x, &y),
        },
        ValueKind::Shl(a, b) => match get_operands(values, a, b) {
            Err(e) => Err(e),
            Ok((x, y)) => shift(ShiftOp::Left, &x, &y),
        },
        ValueKind::Shr(a, b) => match get_operands(values, a, b) {
            Err(e) => Err(e),
            Ok((x, y)) => shift(ShiftOp::Right, &x, &y),
        },
        ValueKind::Eq(a, b) => match get_operands(values, a, b) {
            Err(e) => Err(e),
            Ok((x, y)) => match eq(&x, &y) {
                Err(e) => Err(e),
                Ok(equal) => Ok(Value::Bool(equal)),
            },
        },
        ValueKind::Ne(a, b) => match get_operands(values, a, b) {
            Err(e) => Err(e),
            Ok((x, y)) => match eq(&x, &y) {
                Err(e) => Err(e),
                Ok(equal) => Ok(Value::Bool(!equal)),
            },
        },
        ValueKind::Lt(a, b) => match get_operands(values, a, b) {
            Err(e) => Err(e),
            Ok((x, y)) => compare(ord(&x, &y), Order::Less, true),
        },
        ValueKind::Le(a, b) => match get_operands(values, a, b) {
            Err(e) => Err(e),
            Ok((x, y)) => compare(ord(&x, &y), Order::Greater, false),
        },
        ValueKind::Gt(a, b) => match get_operands(values, a, b) {
            Err(e) => Err(e),
            Ok((x, y)) => compare(ord(&x, &y), Order::Greater, true),
        },
        ValueKind::Ge(a, b) => match get_operands(values, a, b) {
            Err(e) => Err(e),
            Ok((x, y)) => compare(ord(&x, &y), Order::Less, false),
        },
        _ => Err(invalid("a value kind that is not an operator")),
    }
}

/// Reading a list of values gives as many values.
proof fn lemma_read_len(
    frame: Map<u32, ValueView>,
    ids: Seq<ValueId>,
    i: nat,
    done: Seq<ValueView>,
)
    requires
        i <= ids.len(),
    ensures
        read_from(frame, ids, i, done) matches Ok(values) ==> values.len() == done.len()
            + ids.len() - i,
    decreases ids.len() - i,
{
    if i < ids.len() {
        match read_value(frame, ids[i as int]) {
            Ok(value) => lemma_read_len(frame, ids, i + 1, done.push(value)),
            Err(_) => {},
        }
    }
}

} // verus!
