use crate::eval::{extension_args, extension_match, method_type_args, type_args_from, type_args_in};
use crate::ids::{ItemId, TypeParamId};
use crate::layout::param_ids;
use crate::program::{ExtendLayout, Module};
use crate::type_ops::{
    instantiation, matched, matched_all, paired, resolved, substituted, substituted_all,
};
use crate::types::{ty_views, TyView};
use crate::value::ErrorView;
use vstd::prelude::*;

verus! {

broadcast use crate::types::group_type_views;

// ---------------------------------------------------------------------
// Which types are affine.
// ---------------------------------------------------------------------

/// A declared resource is affine, named or applied.
pub proof fn resource_is_affine(module: Module, ty: TyView, item: ItemId)
    requires
        module.resource(item),
        ty matches TyView::Named(named, _) ==> named == item,
        ty matches TyView::Applied(applied, _) ==> applied == item,
        ty is Named || ty is Applied,
    ensures
        module.affine(ty),
{
}

/// An application that does not fit its declaration counts as affine: an
/// unknown declaration does, and so does another number of arguments
/// than declared.
pub proof fn ill_fitting_application_is_affine(module: Module, item: ItemId, args: Seq<TyView>)
    requires
        match module.type_params(item) {
            None => true,
            Some(params) => params.len() != args.len(),
        },
    ensures
        module.affine(TyView::Applied(item, args)),
{
}

/// A type that names no declaration is not affine.
pub proof fn primitive_is_not_affine(module: Module, ty: TyView)
    requires
        !(ty is Named),
        !(ty is Applied),
    ensures
        !module.affine(ty),
{
}

// ---------------------------------------------------------------------
// Type arguments.
// ---------------------------------------------------------------------

proof fn resolving_the_rest(
    types: Seq<TyView>,
    subst: Map<u32, TyView>,
    i: nat,
    done: Seq<TyView>,
    args: Seq<TyView>,
)
    requires
        type_args_from(types, subst, i, done) == Ok::<Seq<TyView>, ErrorView>(args),
        done.len() == i <= types.len(),
        forall|j: int|
            0 <= j < i ==> resolved(#[trigger] done[j]) && done[j] == substituted(types[j], subst),
    ensures
        args.len() == types.len(),
        forall|j: int|
            0 <= j < types.len() ==> resolved(#[trigger] args[j]) && args[j] == substituted(
                types[j],
                subst,
            ),
    decreases types.len() - i,
{
    if i < types.len() {
        resolving_the_rest(types, subst, i + 1, done.push(substituted(types[i as int], subst)), args);
    }
}

/// The type arguments of a call are concrete all the way down: those
/// written at it under the running frame's instantiation, one for one.
pub proof fn type_arguments_are_concrete(
    types: Seq<TyView>,
    subst: Map<u32, TyView>,
    args: Seq<TyView>,
)
    requires
        type_args_in(types, subst) == Ok::<Seq<TyView>, ErrorView>(args),
    ensures
        args.len() == types.len(),
        forall|j: int|
            0 <= j < types.len() ==> resolved(#[trigger] args[j]) && args[j] == substituted(
                types[j],
                subst,
            ),
{
    resolving_the_rest(types, subst, 0, Seq::empty(), args);
}

// ---------------------------------------------------------------------
// Matching type patterns.
// ---------------------------------------------------------------------

/// Whether `more` binds all that `bindings` binds, to the same.
pub open spec fn extends_bindings(bindings: Map<u32, TyView>, more: Map<u32, TyView>) -> bool {
    forall|id: u32|
        bindings.contains_key(id) ==> #[trigger] more.contains_key(id) && more[id] == bindings[id]
}

/// Whether everything that a type mentions as a parameter is bound.
pub open spec fn binds_all_of(ty: TyView, bindings: Map<u32, TyView>) -> bool
    decreases ty,
{
    match ty {
        TyView::Param(id, _) => bindings.contains_key(id.0),
        TyView::Applied(_, args) => forall|i: int|
            0 <= i < args.len() ==> binds_all_of(#[trigger] args[i], bindings),
        _ => true,
    }
}

/// More bindings than all change nothing.
proof fn further_bindings_change_nothing(
    ty: TyView,
    bindings: Map<u32, TyView>,
    more: Map<u32, TyView>,
)
    requires
        binds_all_of(ty, bindings),
        extends_bindings(bindings, more),
    ensures
        binds_all_of(ty, more),
        substituted(ty, more) == substituted(ty, bindings),
    decreases ty,
{
    if let TyView::Applied(item, args) = ty {
        assert forall|i: int| 0 <= i < args.len() implies binds_all_of(#[trigger] args[i], more)
            && substituted(args[i], more) == substituted(args[i], bindings) by {
            further_bindings_change_nothing(args[i], bindings, more);
        }
        assert(substituted_all(args, more) =~= substituted_all(args, bindings));
    }
}

/// A type pattern agrees with a type only where replacing the pattern's
/// parameters by what they came to stand for gives that type. What was
/// bound before stays bound to the same, so that a parameter that occurs
/// twice stands for one type.
pub proof fn matching_is_sound(pattern: TyView, actual: TyView, bindings: Map<u32, TyView>)
    ensures
        extends_bindings(bindings, matched(pattern, actual, bindings).0),
        matched(pattern, actual, bindings).1 ==> binds_all_of(
            pattern,
            matched(pattern, actual, bindings).0,
        ) && substituted(pattern, matched(pattern, actual, bindings).0) == actual,
    decreases pattern, 0nat,
{
    if let TyView::Applied(item, args) = pattern {
        if let TyView::Applied(item2, args2) = actual {
            if item == item2 && args.len() == args2.len() {
                matching_all_is_sound(args, args2, 0, bindings);
                let (next, agree) = matched_all(args, args2, 0, bindings);
                if agree {
                    assert(substituted_all(args, next) =~= args2);
                }
            }
        }
    }
}

/// [`matching_is_sound`], position by position.
pub proof fn matching_all_is_sound(
    patterns: Seq<TyView>,
    actual: Seq<TyView>,
    i: nat,
    bindings: Map<u32, TyView>,
)
    requires
        patterns.len() == actual.len(),
    ensures
        extends_bindings(bindings, matched_all(patterns, actual, i, bindings).0),
        matched_all(patterns, actual, i, bindings).1 ==> forall|j: int|
            i <= j < patterns.len() ==> {
                &&& binds_all_of(
                    #[trigger] patterns[j],
                    matched_all(patterns, actual, i, bindings).0,
                )
                &&& substituted(patterns[j], matched_all(patterns, actual, i, bindings).0)
                    == actual[j]
            },
    decreases patterns, patterns.len() - i,
{
    if i < patterns.len() {
        let (next, agree) = matched(patterns[i as int], actual[i as int], bindings);
        matching_is_sound(patterns[i as int], actual[i as int], bindings);
        if agree {
            matching_all_is_sound(patterns, actual, i + 1, next);
            let end = matched_all(patterns, actual, i, bindings).0;
            further_bindings_change_nothing(patterns[i as int], next, end);
        }
    }
}

proof fn matching_an_extension_is_sound(
    declared: Seq<TyView>,
    actual: Seq<TyView>,
    i: nat,
    bindings: Map<u32, TyView>,
    end: Map<u32, TyView>,
)
    requires
        extension_match(declared, actual, i, bindings) == Ok::<Map<u32, TyView>, ErrorView>(end),
    ensures
        extends_bindings(bindings, end),
        forall|j: int|
            i <= j < declared.len() ==> binds_all_of(#[trigger] declared[j], end) && substituted(
                declared[j],
                end,
            ) == actual[j],
    decreases declared.len() - i,
{
    if i < declared.len() {
        let (next, _) = matched(declared[i as int], actual[i as int], bindings);
        matching_is_sound(declared[i as int], actual[i as int], bindings);
        matching_an_extension_is_sound(declared, actual, i + 1, next, end);
        further_bindings_change_nothing(declared[i as int], next, end);
    }
}

proof fn looking_up_the_rest(
    params: Seq<TypeParamId>,
    bindings: Map<u32, TyView>,
    i: nat,
    done: Seq<TyView>,
    args: Seq<TyView>,
)
    requires
        extension_args(params, bindings, i, done) == Ok::<Seq<TyView>, ErrorView>(args),
        done.len() == i <= params.len(),
        forall|j: int|
            0 <= j < i ==> bindings.contains_key((#[trigger] params[j]).0) && done[j]
                == bindings[params[j].0],
    ensures
        args.len() == params.len(),
        forall|j: int|
            0 <= j < params.len() ==> bindings.contains_key((#[trigger] params[j]).0) && args[j]
                == bindings[params[j].0],
    decreases params.len() - i,
{
    if i < params.len() {
        looking_up_the_rest(
            params,
            bindings,
            i + 1,
            done.push(bindings[params[i as int].0]),
            args,
        );
    }
}

/// A protocol call's own arguments determine what the parameters of the
/// extension it resolves to stand for: under them the extension's
/// protocol arguments are the call's.
pub proof fn protocol_arguments_determine_the_extension(
    layout: ExtendLayout,
    arguments: Seq<TyView>,
    subst: Map<u32, TyView>,
    args: Seq<TyView>,
) -> (bindings: Map<u32, TyView>)
    requires
        method_type_args(layout, arguments, subst) == Ok::<Seq<TyView>, ErrorView>(args),
    ensures
        args.len() == layout.type_params@.len(),
        forall|j: int|
            0 <= j < args.len() ==> bindings.contains_key((#[trigger] layout.type_params@[j]).0.0)
                && args[j] == bindings[layout.type_params@[j].0.0],
        layout.protocol_arguments@.len() == arguments.len(),
        forall|j: int|
            0 <= j < arguments.len() ==> substituted(
                #[trigger] ty_views(layout.protocol_arguments@)[j],
                bindings,
            ) == substituted(arguments[j], subst),
{
    let declared = ty_views(layout.protocol_arguments@);
    let actual = type_args_in(arguments, subst)->Ok_0;
    type_arguments_are_concrete(arguments, subst, actual);
    let bindings = extension_match(declared, actual, 0, Map::empty())->Ok_0;
    matching_an_extension_is_sound(declared, actual, 0, Map::empty(), bindings);
    looking_up_the_rest(param_ids(layout.type_params@), bindings, 0, Seq::empty(), args);
    assert forall|j: int| 0 <= j < args.len() implies bindings.contains_key(
        (#[trigger] layout.type_params@[j]).0.0,
    ) && args[j] == bindings[layout.type_params@[j].0.0] by {
        assert(param_ids(layout.type_params@)[j] == layout.type_params@[j].0);
    }
    assert forall|j: int| 0 <= j < arguments.len() implies substituted(
        #[trigger] declared[j],
        bindings,
    ) == substituted(arguments[j], subst) by {
        assert(substituted(declared[j], bindings) == actual[j]);
        assert(resolved(actual[j]));
    }
    bindings
}

// ---------------------------------------------------------------------
// Instantiations.
// ---------------------------------------------------------------------

proof fn pairing_binds_each(params: Seq<TypeParamId>, args: Seq<TyView>, n: nat)
    requires
        n <= params.len() == args.len(),
        forall|j: int, k: int|
            0 <= j < k < params.len() ==> (#[trigger] params[j]) != (#[trigger] params[k]),
    ensures
        forall|j: int|
            0 <= j < n ==> paired(params, args, n).contains_key((#[trigger] params[j]).0)
                && paired(params, args, n)[params[j].0] == args[j],
        forall|id: u32| #[trigger]
            paired(params, args, n).contains_key(id) ==> exists|j: int|
                0 <= j < n && (#[trigger] params[j]).0 == id,
    decreases n,
{
    if n > 0 {
        let m = (n - 1) as nat;
        pairing_binds_each(params, args, m);
        assert forall|j: int| 0 <= j < n implies paired(params, args, n).contains_key(
            (#[trigger] params[j]).0,
        ) && paired(params, args, n)[params[j].0] == args[j] by {
            if j < m {
                assert(params[j] != params[m as int]);
                assert(params[j].0 != params[m as int].0);
            }
        }
        assert forall|id: u32| #[trigger]
            paired(params, args, n).contains_key(id) implies exists|j: int|
            0 <= j < n && (#[trigger] params[j]).0 == id by {
            if id == params[m as int].0 {
                assert(params[m as int].0 == id);
            } else {
                assert(paired(params, args, m).contains_key(id));
            }
        }
    }
}

/// An instantiation gives each declared parameter its own argument, and
/// binds nothing else; with another number of arguments than parameters
/// there is none.
pub proof fn instantiation_binds_each_parameter(params: Seq<TypeParamId>, args: Seq<TyView>)
    requires
        forall|j: int, k: int|
            0 <= j < k < params.len() ==> (#[trigger] params[j]) != (#[trigger] params[k]),
    ensures
        instantiation(params, args) is Some <==> params.len() == args.len(),
        instantiation(params, args) matches Some(subst) ==> {
            &&& forall|j: int|
                0 <= j < params.len() ==> subst.contains_key((#[trigger] params[j]).0)
                    && subst[params[j].0] == args[j]
            &&& forall|id: u32| #[trigger]
                subst.contains_key(id) ==> exists|j: int|
                    0 <= j < params.len() && (#[trigger] params[j]).0 == id
        },
{
    if params.len() == args.len() {
        pairing_binds_each(params, args, params.len());
    }
}

} // verus!
