use crate::eval::{
    call_target, evidence_from, evidence_in, find_extend, find_function, method_type_args,
    protocol_target, read_from, type_args_from, CallView,
};
use crate::frame::{called, entered, evaluation, OutcomeView};
use crate::ids::{ItemId, ValueId};
use crate::interpreter::{Event, StateView};
use crate::laws::call::entered_call_is_recorded;
use crate::laws::history::sound_state;
use crate::laws::typing::protocol_arguments_determine_the_extension;
use crate::program::{ExtendLayout, Function, Module, ValueKind, MAX_CALL_DEPTH};
use crate::type_ops::{resolved, resolved_from, substituted, substituted_all};
use crate::types::{evidence_views, ty_views, Evidence, EvidenceView, Ty, TyView};
use crate::value::{ErrorView, ValueView};
use vstd::prelude::*;

verus! {

broadcast use crate::types::group_type_views;

// ---------------------------------------------------------------------
// Types.
// ---------------------------------------------------------------------

/// Whether `made` is `ty` with every type parameter that `subst` binds
/// replaced by what it is bound to, at any depth.
pub open spec fn instance(ty: TyView, subst: Map<u32, TyView>, made: TyView) -> bool
    decreases ty,
{
    match ty {
        TyView::Param(id, _) => made == if subst.contains_key(id.0) {
            subst[id.0]
        } else {
            ty
        },
        TyView::Applied(item, args) => {
            &&& made matches TyView::Applied(item1, args1)
            &&& item1 == item
            &&& args1.len() == args.len()
            &&& forall|k: int| 0 <= k < args.len() ==> instance(#[trigger] args[k], subst, args1[k])
        },
        _ => made == ty,
    }
}

/// Whether nothing is open in a type: it holds no type parameter, no
/// variable and no placeholder, at any depth.
pub open spec fn closed_type(ty: TyView) -> bool
    decreases ty,
{
    match ty {
        TyView::Param(..) => false,
        TyView::Var(_) => false,
        TyView::Never => false,
        TyView::Error => false,
        TyView::Applied(_, args) => forall|k: int|
            0 <= k < args.len() ==> closed_type(#[trigger] args[k]),
        _ => true,
    }
}

/// Substituting gives the one instance of a type.
pub proof fn substitution_gives_the_instance(ty: TyView, subst: Map<u32, TyView>, made: TyView)
    ensures
        instance(ty, subst, made) <==> made == substituted(ty, subst),
    decreases ty,
{
    match ty {
        TyView::Applied(item, args) => {
            let all = substituted_all(args, subst);
            match made {
                TyView::Applied(item1, args1) => {
                    if args1.len() == args.len() {
                        assert forall|k: int| 0 <= k < args.len() implies (instance(
                            #[trigger] args[k],
                            subst,
                            args1[k],
                        ) <==> args1[k] == all[k]) by {
                            substitution_gives_the_instance(args[k], subst, args1[k]);
                        }
                        if instance(ty, subst, made) {
                            assert forall|k: int| 0 <= k < args.len() implies args1[k]
                                == all[k] by {
                                assert(instance(args[k], subst, args1[k]));
                            }
                            assert(args1 =~= all);
                        }
                        if made == substituted(ty, subst) {
                            assert(args1 == all);
                        }
                    }
                },
                _ => {},
            }
        },
        _ => {},
    }
}

/// A type counts as resolved exactly where nothing is open in it.
pub proof fn resolved_is_closed(ty: TyView)
    ensures
        resolved(ty) <==> closed_type(ty),
    decreases ty, 0nat,
{
    match ty {
        TyView::Applied(_, args) => {
            resolved_from_is_closed(args, 0);
        },
        _ => {},
    }
}

proof fn resolved_from_is_closed(types: Seq<TyView>, i: nat)
    ensures
        resolved_from(types, i) <==> forall|k: int|
            i <= k < types.len() ==> closed_type(#[trigger] types[k]),
    decreases types, types.len() - i,
{
    if i < types.len() {
        resolved_is_closed(types[i as int]);
        resolved_from_is_closed(types, i + 1);
    }
}

// ---------------------------------------------------------------------
// Operands.
// ---------------------------------------------------------------------

/// Whether `read` is what the frame holds under `ids`, in their order.
pub open spec fn in_order(
    values: Map<u32, ValueView>,
    ids: Seq<ValueId>,
    read: Seq<ValueView>,
) -> bool {
    &&& read.len() == ids.len()
    &&& forall|k: int|
        0 <= k < ids.len() ==> values.contains_key((#[trigger] ids[k]).0) && read[k]
            == values[ids[k].0]
}

/// Whether `function` is the first of `functions` that `item` declares.
pub open spec fn declared_by(functions: Seq<Function>, item: ItemId, function: Function) -> bool {
    exists|k: int|
        0 <= k < functions.len() && #[trigger] functions[k] == function && function.id == item
            && forall|j: int| 0 <= j < k ==> (#[trigger] functions[j]).id != item
}

/// Whether `layout` is what the first extension of `extends` that `item`
/// declares is laid out as.
pub open spec fn extends_by(
    extends: Seq<(ItemId, ExtendLayout)>,
    item: ItemId,
    layout: ExtendLayout,
) -> bool {
    exists|k: int|
        0 <= k < extends.len() && (#[trigger] extends[k]).0 == item && extends[k].1 == layout
            && forall|j: int| 0 <= j < k ==> (#[trigger] extends[j]).0 != item
}

/// Whether an evidence entry stands for `given` where `current` is the
/// evidence at hand: an extension for itself, a forwarded entry for the
/// one it counts.
pub open spec fn resolves_to(
    current: Seq<EvidenceView>,
    entry: EvidenceView,
    given: EvidenceView,
) -> bool {
    match entry {
        EvidenceView::Extension { .. } => given == entry,
        EvidenceView::Forwarded(index) => index < current.len() && given == current[index as int],
    }
}

pub proof fn reading_keeps_the_order(
    values: Map<u32, ValueView>,
    ids: Seq<ValueId>,
    i: nat,
    done: Seq<ValueView>,
    read: Seq<ValueView>,
)
    requires
        i <= ids.len(),
        done.len() == i,
        forall|k: int|
            0 <= k < i ==> values.contains_key((#[trigger] ids[k]).0) && done[k]
                == values[ids[k].0],
    ensures
        read_from(values, ids, i, done) == Ok::<Seq<ValueView>, ErrorView>(read) <==> in_order(
            values,
            ids,
            read,
        ),
    decreases ids.len() - i,
{
    if i < ids.len() {
        if values.contains_key(ids[i as int].0) {
            reading_keeps_the_order(values, ids, i + 1, done.push(values[ids[i as int].0]), read);
        }
    } else if in_order(values, ids, read) {
        assert forall|k: int| 0 <= k < ids.len() implies done[k] == read[k] by {
            assert(values.contains_key(ids[k].0));
        }
        assert(done =~= read);
    }
}

pub proof fn function_is_the_first(functions: Seq<Function>, item: ItemId, i: nat, function: Function)
    ensures
        find_function(functions, item, i) == Some(function) <==> exists|k: int|
            i <= k < functions.len() && #[trigger] functions[k] == function && function.id == item
                && forall|j: int| i <= j < k ==> (#[trigger] functions[j]).id != item,
    decreases functions.len() - i,
{
    if i < functions.len() {
        function_is_the_first(functions, item, i + 1, function);
        if functions[i as int].id == item {
            assert(functions[i as int].id == item);
        } else if exists|k: int|
            i <= k < functions.len() && #[trigger] functions[k] == function && function.id == item
                && forall|j: int| i <= j < k ==> (#[trigger] functions[j]).id != item {
            let k = choose|k: int|
                i <= k < functions.len() && #[trigger] functions[k] == function && function.id
                    == item && forall|j: int| i <= j < k ==> (#[trigger] functions[j]).id != item;
            assert(k != i);
        }
    }
}

proof fn extension_is_the_first(
    extends: Seq<(ItemId, ExtendLayout)>,
    item: ItemId,
    i: nat,
    layout: ExtendLayout,
)
    ensures
        find_extend(extends, item, i) == Some(layout) <==> exists|k: int|
            i <= k < extends.len() && (#[trigger] extends[k]).0 == item && extends[k].1 == layout
                && forall|j: int| i <= j < k ==> (#[trigger] extends[j]).0 != item,
    decreases extends.len() - i,
{
    if i < extends.len() {
        extension_is_the_first(extends, item, i + 1, layout);
        if extends[i as int].0 == item {
            assert(extends[i as int].0 == item);
        } else if exists|k: int|
            i <= k < extends.len() && (#[trigger] extends[k]).0 == item && extends[k].1 == layout
                && forall|j: int| i <= j < k ==> (#[trigger] extends[j]).0 != item {
            let k = choose|k: int|
                i <= k < extends.len() && (#[trigger] extends[k]).0 == item && extends[k].1
                    == layout && forall|j: int| i <= j < k ==> (#[trigger] extends[j]).0 != item;
            assert(k != i);
        }
    }
}

/// Whether every entry of `entries` stands for the one at its position in
/// `given`.
pub open spec fn resolve_to(
    current: Seq<EvidenceView>,
    entries: Seq<EvidenceView>,
    given: Seq<EvidenceView>,
) -> bool {
    &&& given.len() == entries.len()
    &&& forall|k: int|
        0 <= k < entries.len() ==> resolves_to(current, #[trigger] entries[k], given[k])
}

proof fn evidence_is_resolved(
    current: Seq<EvidenceView>,
    entries: Seq<EvidenceView>,
    i: nat,
    done: Seq<EvidenceView>,
    given: Seq<EvidenceView>,
)
    requires
        i <= entries.len(),
        done.len() == i,
        forall|k: int| 0 <= k < i ==> resolves_to(current, #[trigger] entries[k], done[k]),
    ensures
        evidence_from(current, entries, i, done) == Ok::<Seq<EvidenceView>, ErrorView>(given)
            <==> resolve_to(current, entries, given),
    decreases entries.len() - i,
{
    if i < entries.len() {
        let entry = entries[i as int];
        match evidence_in(current, entry) {
            Ok(found) => {
                assert(resolves_to(current, entry, found));
                evidence_is_resolved(current, entries, i + 1, done.push(found), given);
            },
            Err(_) => {
                if resolve_to(current, entries, given) {
                    assert(resolves_to(current, entries[i as int], given[i as int]));
                }
            },
        }
    } else if resolve_to(current, entries, given) {
        assert forall|k: int| 0 <= k < entries.len() implies done[k] == given[k] by {
            assert(resolves_to(current, entries[k], done[k]));
            assert(resolves_to(current, entries[k], given[k]));
        }
        assert(done =~= given);
    }
}

/// Whether `args` are the instances of `types` under `subst`, with nothing
/// open in them.
pub open spec fn closed_instances(
    types: Seq<TyView>,
    subst: Map<u32, TyView>,
    args: Seq<TyView>,
) -> bool {
    &&& args.len() == types.len()
    &&& forall|k: int|
        0 <= k < types.len() ==> instance(#[trigger] types[k], subst, args[k]) && closed_type(
            args[k],
        )
}

pub proof fn type_arguments_are_instances(
    types: Seq<TyView>,
    subst: Map<u32, TyView>,
    i: nat,
    done: Seq<TyView>,
    args: Seq<TyView>,
)
    requires
        i <= types.len(),
        done.len() == i,
        forall|k: int|
            0 <= k < i ==> instance(#[trigger] types[k], subst, done[k]) && closed_type(done[k]),
    ensures
        type_args_from(types, subst, i, done) == Ok::<Seq<TyView>, ErrorView>(args)
            <==> closed_instances(types, subst, args),
    decreases types.len() - i,
{
    if i < types.len() {
        let made = substituted(types[i as int], subst);
        substitution_gives_the_instance(types[i as int], subst, made);
        resolved_is_closed(made);
        if resolved(made) {
            type_arguments_are_instances(types, subst, i + 1, done.push(made), args);
        } else if closed_instances(types, subst, args) {
            assert(instance(types[i as int], subst, args[i as int]));
            substitution_gives_the_instance(types[i as int], subst, args[i as int]);
        }
    } else if closed_instances(types, subst, args) {
        assert forall|k: int| 0 <= k < types.len() implies done[k] == args[k] by {
            assert(instance(types[k], subst, args[k]));
            substitution_gives_the_instance(types[k], subst, done[k]);
            substitution_gives_the_instance(types[k], subst, args[k]);
        }
        assert(done =~= args);
    }
}

// ---------------------------------------------------------------------
// Calls.
// ---------------------------------------------------------------------

/// Whether `call` is the call that a call's operands describe: of the
/// function its item declares, with what the frame holds of its arguments
/// in their order, the closed instances of its type arguments, and what
/// its evidence stands for in the frame.
pub open spec fn described(
    module: Module,
    values: Map<u32, ValueView>,
    current: Seq<EvidenceView>,
    subst: Map<u32, TyView>,
    item: ItemId,
    type_args: Seq<TyView>,
    args: Seq<ValueId>,
    entries: Seq<EvidenceView>,
    call: CallView,
) -> bool {
    &&& declared_by(module.functions@, item, call.callee)
    &&& closed_instances(type_args, subst, call.type_args)
    &&& in_order(values, args, call.args)
    &&& resolve_to(current, entries, call.evidence)
}

/// Whether a caller that handles no failure gets `r` of a call that came
/// to `outcome`: what it returned, or a refusal.
pub open spec fn hands_back(
    outcome: Result<OutcomeView, ErrorView>,
    r: Result<ValueView, ErrorView>,
) -> bool {
    match outcome {
        Ok(OutcomeView::Returned(value)) => r == Ok::<ValueView, ErrorView>(value),
        Ok(OutcomeView::Raised(_)) => r is Err,
        Err(e) => r == Err::<ValueView, ErrorView>(e),
    }
}

/// A call is prepared exactly as its operands describe it.
pub proof fn call_is_prepared_as_described(
    module: Module,
    values: Map<u32, ValueView>,
    current: Seq<EvidenceView>,
    subst: Map<u32, TyView>,
    item: ItemId,
    type_args: Seq<TyView>,
    args: Seq<ValueId>,
    entries: Seq<EvidenceView>,
    unknown: Seq<char>,
    call: CallView,
)
    ensures
        call_target(module, values, current, subst, item, type_args, args, entries, unknown)
            == Ok::<CallView, ErrorView>(call) <==> described(
            module,
            values,
            current,
            subst,
            item,
            type_args,
            args,
            entries,
            call,
        ),
{
    type_arguments_are_instances(type_args, subst, 0, Seq::empty(), call.type_args);
    reading_keeps_the_order(values, args, 0, Seq::empty(), call.args);
    function_is_the_first(module.functions@, item, 0, call.callee);
    evidence_is_resolved(current, entries, 0, Seq::empty(), call.evidence);
}

/// A call instruction makes the one call that its operands describe, and
/// gives what that call returned; where they describe none, nothing
/// happens and it is refused, as it is where the call raised a failure.
/// What was called is recorded next.
pub proof fn call_calls_what_it_names(
    module: Module,
    state: StateView,
    values: Map<u32, ValueView>,
    current: Seq<EvidenceView>,
    subst: Map<u32, TyView>,
    item: ItemId,
    type_args: Vec<Ty>,
    args: Vec<ValueId>,
    entries: Vec<Evidence>,
    depth: nat,
) -> (made: Option<CallView>)
    ensures
        forall|call: CallView|
            #[trigger] described(
                module,
                values,
                current,
                subst,
                item,
                ty_views(type_args@),
                args@,
                evidence_views(entries@),
                call,
            ) <==> made == Some(call),
        ({
            let (state1, r) = evaluation(
                module,
                state,
                ValueKind::Call(item, type_args, args, entries),
                values,
                current,
                subst,
                depth,
            );
            match made {
                None => state1 == state && r is Err,
                Some(call) => {
                    &&& state1 == called(module, state, call, depth).0
                    &&& hands_back(called(module, state, call, depth).1, r)
                    &&& r is Ok && sound_state(module, state) ==> state.events.len()
                        < state1.events.len() && state1.events[state.events.len() as int]
                        == Event::Call(item)
                },
            }
        }),
{
    let types = ty_views(type_args@);
    let given = evidence_views(entries@);
    let unknown = "call to a function not present in this module"@;
    let made = only_described_call(
        module,
        values,
        current,
        subst,
        item,
        types,
        args@,
        given,
        unknown,
    );
    match made {
        Some(call) => {
            made_call_is_recorded(module, state, call, depth);
        },
        None => {},
    }
    made
}

/// There is at most one call that operands describe, and it is the one
/// that is prepared.
pub proof fn only_described_call(
    module: Module,
    values: Map<u32, ValueView>,
    current: Seq<EvidenceView>,
    subst: Map<u32, TyView>,
    item: ItemId,
    type_args: Seq<TyView>,
    args: Seq<ValueId>,
    entries: Seq<EvidenceView>,
    unknown: Seq<char>,
) -> (made: Option<CallView>)
    ensures
        forall|call: CallView|
            #[trigger] described(
                module,
                values,
                current,
                subst,
                item,
                type_args,
                args,
                entries,
                call,
            ) <==> made == Some(call),
        match made {
            Some(call) => call_target(
                module,
                values,
                current,
                subst,
                item,
                type_args,
                args,
                entries,
                unknown,
            ) == Ok::<CallView, ErrorView>(call) && call.callee.id == item,
            None => call_target(
                module,
                values,
                current,
                subst,
                item,
                type_args,
                args,
                entries,
                unknown,
            ) is Err,
        },
{
    let made = match call_target(
        module,
        values,
        current,
        subst,
        item,
        type_args,
        args,
        entries,
        unknown,
    ) {
        Ok(call) => Some(call),
        Err(_) => None,
    };
    assert forall|call: CallView|
        #[trigger] described(
            module,
            values,
            current,
            subst,
            item,
            type_args,
            args,
            entries,
            call,
        ) <==> made == Some(call) by {
        call_is_prepared_as_described(
            module,
            values,
            current,
            subst,
            item,
            type_args,
            args,
            entries,
            unknown,
            call,
        );
    }
    match made {
        Some(call) => {
            assert(described(
                module,
                values,
                current,
                subst,
                item,
                type_args,
                args,
                entries,
                call,
            ));
        },
        None => {},
    }
    made
}

proof fn made_call_is_recorded(module: Module, state: StateView, call: CallView, depth: nat)
    ensures
        called(module, state, call, depth).1 is Ok && sound_state(module, state) ==> {
            let events = called(module, state, call, depth).0.events;
            &&& state.events.len() < events.len()
            &&& events[state.events.len() as int] == Event::Call(call.callee.id)
        },
{
    if called(module, state, call, depth).1 is Ok && sound_state(module, state) {
        assert(depth < MAX_CALL_DEPTH);
        assert(entered(module, state.table, call) is Ok);
        entered_call_is_recorded(module, state, call, depth);
    }
}

// ---------------------------------------------------------------------
// Protocol calls.
// ---------------------------------------------------------------------

/// Whether `call` is the call of a protocol's method that its operands
/// describe: of the function that the extension its evidence stands for
/// lists at the method's position, with what the frame holds of its
/// arguments in their order, and the evidence nested in that extension.
pub open spec fn dispatched(
    module: Module,
    values: Map<u32, ValueView>,
    current: Seq<EvidenceView>,
    method: usize,
    entry: EvidenceView,
    args: Seq<ValueId>,
    layout: ExtendLayout,
    call: CallView,
) -> bool {
    &&& exists|given: EvidenceView|
        resolves_to(current, entry, given) && (given matches EvidenceView::Extension {
            extend,
            nested,
        } && extends_by(module.extends@, extend, layout) && call.evidence == nested)
    &&& method < layout.methods@.len()
    &&& declared_by(module.functions@, layout.methods@[method as int], call.callee)
    &&& in_order(values, args, call.args)
}

/// Whether `type_args` are what `bindings` gives the parameters of an
/// extension, and under `bindings` the protocol arguments that it declares
/// are the ones a call gives, position by position.
pub open spec fn determined_by(
    layout: ExtendLayout,
    arguments: Seq<TyView>,
    subst: Map<u32, TyView>,
    type_args: Seq<TyView>,
    bindings: Map<u32, TyView>,
) -> bool {
    &&& type_args.len() == layout.type_params@.len()
    &&& forall|j: int|
        0 <= j < type_args.len() ==> #[trigger] bindings.contains_key(layout.type_params@[j].0.0)
            && type_args[j] == bindings[layout.type_params@[j].0.0]
    &&& layout.protocol_arguments@.len() == arguments.len()
    &&& forall|j: int, made: TyView|
        0 <= j < arguments.len() ==> (#[trigger] instance(arguments[j], subst, made) <==> instance(
            layout.protocol_arguments@[j]@,
            bindings,
            made,
        ))
}

proof fn method_arguments_are_determined(
    layout: ExtendLayout,
    arguments: Seq<TyView>,
    subst: Map<u32, TyView>,
    type_args: Seq<TyView>,
)
    requires
        method_type_args(layout, arguments, subst) == Ok::<Seq<TyView>, ErrorView>(type_args),
    ensures
        exists|bindings: Map<u32, TyView>| #[trigger]
            determined_by(layout, arguments, subst, type_args, bindings),
{
    let bindings = protocol_arguments_determine_the_extension(layout, arguments, subst, type_args);
    assert forall|j: int| 0 <= j < type_args.len() implies #[trigger] bindings.contains_key(
        layout.type_params@[j].0.0,
    ) && type_args[j] == bindings[layout.type_params@[j].0.0] by {
        let param = layout.type_params@[j];
    }
    assert forall|j: int, made: TyView| 0 <= j < arguments.len() implies (#[trigger] instance(
        arguments[j],
        subst,
        made,
    ) <==> instance(layout.protocol_arguments@[j]@, bindings, made)) by {
        let declared = ty_views(layout.protocol_arguments@)[j];
        assert(declared == layout.protocol_arguments@[j]@);
        substitution_gives_the_instance(arguments[j], subst, made);
        substitution_gives_the_instance(declared, bindings, made);
    }
    assert(determined_by(layout, arguments, subst, type_args, bindings));
}

/// A protocol call calls the method at its position: where it is carried
/// out, its evidence stands for an extension that lists more methods than
/// that, and the function called is the one that extension lists there.
/// It gives what that function returned. Where its operands describe no
/// call nothing happens; and they describe one wherever they say which
/// function to call, with which values, and the extension's parameters
/// are determined.
pub proof fn protocol_call_calls_the_method_at_its_position(
    module: Module,
    state: StateView,
    values: Map<u32, ValueView>,
    current: Seq<EvidenceView>,
    subst: Map<u32, TyView>,
    protocol: ItemId,
    arguments: Vec<Ty>,
    method: usize,
    entry: Evidence,
    args: Vec<ValueId>,
    depth: nat,
) -> (made: Option<(ExtendLayout, CallView)>)
    ensures
        forall|layout: ExtendLayout, call: CallView|
            #![trigger dispatched(module, values, current, method, entry@, args@, layout, call)]
            dispatched(module, values, current, method, entry@, args@, layout, call)
                && method_type_args(layout, ty_views(arguments@), subst) == Ok::<
                Seq<TyView>,
                ErrorView,
            >(call.type_args) ==> made == Some((layout, call)),
        ({
            let (state1, r) = evaluation(
                module,
                state,
                ValueKind::ProtocolCall { protocol, arguments, method, evidence: entry, args },
                values,
                current,
                subst,
                depth,
            );
            match made {
                None => state1 == state && r is Err,
                Some((layout, call)) => {
                    &&& dispatched(
                        module,
                        values,
                        current,
                        method,
                        entry@,
                        args@,
                        layout,
                        call,
                    )
                    &&& exists|bindings: Map<u32, TyView>| #[trigger]
                        determined_by(
                            layout,
                            ty_views(arguments@),
                            subst,
                            call.type_args,
                            bindings,
                        )
                    &&& call.callee.id == layout.methods@[method as int]
                    &&& state1 == called(module, state, call, depth).0
                    &&& hands_back(called(module, state, call, depth).1, r)
                    &&& r is Ok && sound_state(module, state) ==> state.events.len()
                        < state1.events.len() && state1.events[state.events.len() as int]
                        == Event::Call(layout.methods@[method as int])
                },
            }
        }),
{
    let types = ty_views(arguments@);
    let target = protocol_target(module, values, current, subst, types, method, entry@, args@);
    let made = match target {
        Ok(call) => Some(
            (
                find_extend(
                    module.extends@,
                    evidence_in(current, entry@)->Ok_0->Extension_extend,
                    0,
                )->0,
                call,
            ),
        ),
        Err(_) => None,
    };
    match made {
        Some((layout, call)) => {
            let given = evidence_in(current, entry@)->Ok_0;
            assert(resolves_to(current, entry@, given));
            extension_is_the_first(module.extends@, given->Extension_extend, 0, layout);
            function_is_the_first(
                module.functions@,
                layout.methods@[method as int],
                0,
                call.callee,
            );
            reading_keeps_the_order(values, args@, 0, Seq::empty(), call.args);
            method_arguments_are_determined(layout, types, subst, call.type_args);
            made_call_is_recorded(module, state, call, depth);
        },
        None => {},
    }
    assert forall|layout: ExtendLayout, call: CallView|
        #![trigger dispatched(module, values, current, method, entry@, args@, layout, call)]
        dispatched(module, values, current, method, entry@, args@, layout, call)
            && method_type_args(layout, types, subst) == Ok::<Seq<TyView>, ErrorView>(
            call.type_args,
        ) implies made == Some((layout, call)) by {
        let given = choose|given: EvidenceView|
            resolves_to(current, entry@, given) && (given matches EvidenceView::Extension {
                extend,
                nested,
            } && extends_by(module.extends@, extend, layout) && call.evidence == nested);
        extension_is_the_first(module.extends@, given->Extension_extend, 0, layout);
        function_is_the_first(module.functions@, layout.methods@[method as int], 0, call.callee);
        reading_keeps_the_order(values, args@, 0, Seq::empty(), call.args);
    }
    made
}

} // verus!
