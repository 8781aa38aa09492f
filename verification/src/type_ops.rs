use crate::idmap::IdMap;
use crate::ids::TypeParamId;
use crate::types::{evidence_views, ty_views, Evidence, Substitution, Ty, TyView};
use vstd::prelude::*;

verus! {

broadcast use crate::types::group_type_views;

/// An independent copy of a list of types.
pub fn copy_types(types: &Vec<Ty>) -> (r: Vec<Ty>)
    ensures
        ty_views(r@) == ty_views(types@),
    decreases types,
{
    let mut copied: Vec<Ty> = Vec::new();
    let mut i: usize = 0;
    while i < types.len()
        invariant
            i <= types@.len(),
            copied@.len() == i,
            forall|j: int| 0 <= j < i ==> (#[trigger] copied@[j])@ == types@[j]@,
        decreases types@.len() - i,
    {
        let one = copy_type(&types[i]);
        copied.push(one);
        i = i + 1;
    }
    assert(ty_views(copied@) =~= ty_views(types@));
    copied
}

/// An independent copy of a type.
pub fn copy_type(ty: &Ty) -> (r: Ty)
    ensures
        r@ == ty@,
    decreases ty,
{
    match ty {
        Ty::I8 => Ty::I8,
        Ty::I16 => Ty::I16,
        Ty::I32 => Ty::I32,
        Ty::I64 => Ty::I64,
        Ty::Isize => Ty::Isize,
        Ty::U8 => Ty::U8,
        Ty::U16 => Ty::U16,
        Ty::U32 => Ty::U32,
        Ty::U64 => Ty::U64,
        Ty::Usize => Ty::Usize,
        Ty::F32 => Ty::F32,
        Ty::F64 => Ty::F64,
        Ty::Bool => Ty::Bool,
        Ty::Char => Ty::Char,
        Ty::Str => Ty::Str,
        Ty::Unit => Ty::Unit,
        Ty::Named(item, name) => Ty::Named(*item, *name),
        Ty::Applied(item, args) => Ty::Applied(*item, copy_types(args)),
        Ty::Param(id, name) => Ty::Param(*id, *name),
        Ty::Var(id) => Ty::Var(*id),
        Ty::Never => Ty::Never,
        Ty::Error => Ty::Error,
    }
}

impl Clone for Ty {
    fn clone(&self) -> (r: Ty)
        ensures
            r@ == self@,
    {
        copy_type(self)
    }
}

/// Whether two lists of types are equal.
pub fn same_types(a: &Vec<Ty>, b: &Vec<Ty>) -> (r: bool)
    ensures
        r == (ty_views(a@) == ty_views(b@)),
    decreases a,
{
    if a.len() != b.len() {
        assert(ty_views(a@).len() != ty_views(b@).len());
        return false;
    }
    let mut i: usize = 0;
    while i < a.len()
        invariant
            i <= a@.len(),
            a@.len() == b@.len(),
            forall|j: int| 0 <= j < i ==> (#[trigger] a@[j])@ == b@[j]@,
        decreases a@.len() - i,
    {
        if !same_type(&a[i], &b[i]) {
            assert(ty_views(a@)[i as int] != ty_views(b@)[i as int]);
            return false;
        }
        i = i + 1;
    }
    assert(ty_views(a@) =~= ty_views(b@));
    true
}

/// Whether two types are equal.
pub fn same_type(a: &Ty, b: &Ty) -> (r: bool)
    ensures
        r == (a@ == b@),
    decreases a,
{
    match (a, b) {
        (Ty::I8, Ty::I8) => true,
        (Ty::I16, Ty::I16) => true,
        (Ty::I32, Ty::I32) => true,
        (Ty::I64, Ty::I64) => true,
        (Ty::Isize, Ty::Isize) => true,
        (Ty::U8, Ty::U8) => true,
        (Ty::U16, Ty::U16) => true,
        (Ty::U32, Ty::U32) => true,
        (Ty::U64, Ty::U64) => true,
        (Ty::Usize, Ty::Usize) => true,
        (Ty::F32, Ty::F32) => true,
        (Ty::F64, Ty::F64) => true,
        (Ty::Bool, Ty::Bool) => true,
        (Ty::Char, Ty::Char) => true,
        (Ty::Str, Ty::Str) => true,
        (Ty::Unit, Ty::Unit) => true,
        (Ty::Never, Ty::Never) => true,
        (Ty::Error, Ty::Error) => true,
        (Ty::Named(item, name), Ty::Named(item2, name2)) => *item == *item2 && *name == *name2,
        (Ty::Applied(item, args), Ty::Applied(item2, args2)) => {
            *item == *item2 && same_types(args, args2)
        },
        (Ty::Param(id, name), Ty::Param(id2, name2)) => *id == *id2 && *name == *name2,
        (Ty::Var(id), Ty::Var(id2)) => *id == *id2,
        _ => false,
    }
}

impl PartialEq for Ty {
    fn eq(&self, other: &Ty) -> (r: bool) {
        same_type(self, other)
    }
}

impl vstd::std_specs::cmp::PartialEqSpecImpl for Ty {
    open spec fn obeys_eq_spec() -> bool {
        true
    }

    open spec fn eq_spec(&self, other: &Ty) -> bool {
        self@ == other@
    }
}

/// An independent copy of a list of evidence entries.
pub fn copy_evidence_list(entries: &Vec<Evidence>) -> (r: Vec<Evidence>)
    ensures
        evidence_views(r@) == evidence_views(entries@),
    decreases entries,
{
    let mut copied: Vec<Evidence> = Vec::new();
    let mut i: usize = 0;
    while i < entries.len()
        invariant
            i <= entries@.len(),
            copied@.len() == i,
            forall|j: int| 0 <= j < i ==> (#[trigger] copied@[j])@ == entries@[j]@,
        decreases entries@.len() - i,
    {
        let one = copy_evidence(&entries[i]);
        copied.push(one);
        i = i + 1;
    }
    assert(evidence_views(copied@) =~= evidence_views(entries@));
    copied
}

/// An independent copy of an evidence entry.
pub fn copy_evidence(entry: &Evidence) -> (r: Evidence)
    ensures
        r@ == entry@,
    decreases entry,
{
    match entry {
        Evidence::Extension { extend, nested } => Evidence::Extension {
            extend: *extend,
            nested: copy_evidence_list(nested),
        },
        Evidence::Forwarded(index) => Evidence::Forwarded(*index),
    }
}

impl Clone for Evidence {
    fn clone(&self) -> (r: Evidence)
        ensures
            r@ == self@,
    {
        copy_evidence(self)
    }
}

/// Whether a type is concrete all the way down.
pub open spec fn resolved(ty: TyView) -> bool
    decreases ty, 0nat,
{
    match ty {
        TyView::Param(..) | TyView::Var(_) | TyView::Never | TyView::Error => false,
        TyView::Applied(_, args) => resolved_from(args, 0),
        _ => true,
    }
}

/// Whether every type of a list is concrete, from position `i` on.
pub open spec fn resolved_from(types: Seq<TyView>, i: nat) -> bool
    decreases types, types.len() - i,
{
    i < types.len() ==> resolved(types[i as int]) && resolved_from(types, i + 1)
}

/// Whether every one of `types` is concrete.
pub fn all_resolved(types: &Vec<Ty>) -> (r: bool)
    ensures
        r == resolved_from(ty_views(types@), 0),
    decreases types,
{
    let mut i: usize = 0;
    while i < types.len()
        invariant
            i <= types@.len(),
            resolved_from(ty_views(types@), 0) == resolved_from(ty_views(types@), i as nat),
        decreases types@.len() - i,
    {
        if !fully_resolved(&types[i]) {
            return false;
        }
        i = i + 1;
    }
    true
}

/// Whether a runtime type argument is concrete all the way down.
pub fn fully_resolved(ty: &Ty) -> (r: bool)
    ensures
        r == resolved(ty@),
    decreases ty,
{
    match ty {
        Ty::Param(..) | Ty::Var(_) | Ty::Never | Ty::Error => false,
        Ty::Applied(_, arguments) => all_resolved(arguments),
        _ => true,
    }
}

impl Substitution {
    /// The substitution that binds nothing.
    pub fn new() -> (r: Substitution)
        ensures
            r@ == Map::<u32, TyView>::empty(),
    {
        let r = Substitution { bindings: IdMap::new() };
        assert(r@ =~= Map::<u32, TyView>::empty());
        r
    }

    /// Binds `param` to `ty`.
    pub fn insert(&mut self, param: TypeParamId, ty: Ty)
        ensures
            final(self)@ == old(self)@.insert(param.0, ty@),
    {
        self.bindings.insert(param.0, ty);
        assert(self@ =~= old(self)@.insert(param.0, ty@));
    }

    /// What `param` is bound to.
    pub fn get(&self, param: &TypeParamId) -> (r: Option<&Ty>)
        ensures
            r matches Some(ty) ==> self@.contains_key(param.0) && self@[param.0] == ty@,
            r is None ==> !self@.contains_key(param.0),
    {
        self.bindings.get(param.0)
    }
}

/// `ty` with every bound parameter replaced by what it is bound to.
pub open spec fn substituted(ty: TyView, subst: Map<u32, TyView>) -> TyView
    decreases ty,
{
    match ty {
        TyView::Param(id, _) => if subst.contains_key(id.0) {
            subst[id.0]
        } else {
            ty
        },
        TyView::Applied(item, args) => TyView::Applied(item, substituted_all(args, subst)),
        _ => ty,
    }
}

/// [`substituted`], on every type of a list.
pub open spec fn substituted_all(types: Seq<TyView>, subst: Map<u32, TyView>) -> Seq<TyView>
    decreases types,
{
    Seq::new(
        types.len(),
        |i: int|
            if 0 <= i < types.len() {
                substituted(types[i], subst)
            } else {
                TyView::Error
            },
    )
}

/// Replaces every bound parameter in each of `types`.
pub fn substitute_all(types: &Vec<Ty>, subst: &Substitution) -> (r: Vec<Ty>)
    ensures
        ty_views(r@) == substituted_all(ty_views(types@), subst@),
    decreases types,
{
    let mut out: Vec<Ty> = Vec::new();
    let mut i: usize = 0;
    while i < types.len()
        invariant
            i <= types@.len(),
            out@.len() == i,
            forall|j: int| 0 <= j < i ==> (#[trigger] out@[j])@ == substituted(types@[j]@, subst@),
        decreases types@.len() - i,
    {
        let one = substitute(&types[i], subst);
        out.push(one);
        i = i + 1;
    }
    assert(ty_views(out@) =~= substituted_all(ty_views(types@), subst@));
    out
}

/// Replaces every bound parameter in `ty`.
pub fn substitute(ty: &Ty, subst: &Substitution) -> (r: Ty)
    ensures
        r@ == substituted(ty@, subst@),
    decreases ty,
{
    match ty {
        Ty::Param(id, _) => match subst.get(id) {
            Some(bound) => copy_type(bound),
            None => copy_type(ty),
        },
        Ty::Applied(item, args) => Ty::Applied(*item, substitute_all(args, subst)),
        _ => copy_type(ty),
    }
}

/// The first `n` parameters bound to the first `n` arguments; of a
/// repeated parameter the last binding counts.
pub open spec fn paired(params: Seq<TypeParamId>, args: Seq<TyView>, n: nat) -> Map<u32, TyView>
    decreases n,
{
    if n == 0 {
        Map::empty()
    } else {
        paired(params, args, (n - 1) as nat).insert(params[n - 1].0, args[n - 1])
    }
}

/// The substitution an instantiation gives: none when the number of
/// arguments differs from the number of parameters.
pub open spec fn instantiation(params: Seq<TypeParamId>, args: Seq<TyView>) -> Option<
    Map<u32, TyView>,
> {
    if params.len() == args.len() {
        Some(paired(params, args, params.len()))
    } else {
        None
    }
}

/// Pairs declared parameters with type arguments, refusing rather than
/// truncating when their numbers differ.
pub fn checked_substitution(params: &Vec<TypeParamId>, args: &Vec<Ty>) -> (r: Option<Substitution>)
    ensures
        r matches Some(subst) ==> instantiation(params@, ty_views(args@)) == Some(subst@),
        r is None ==> instantiation(params@, ty_views(args@)) is None,
{
    if params.len() != args.len() {
        return None;
    }
    let mut subst = Substitution::new();
    let mut i: usize = 0;
    while i < params.len()
        invariant
            i <= params@.len(),
            params@.len() == args@.len(),
            subst@ == paired(params@, ty_views(args@), i as nat),
        decreases params@.len() - i,
    {
        subst.insert(params[i], copy_type(&args[i]));
        i = i + 1;
    }
    Some(subst)
}

/// Matches a type pattern against a type, each parameter of the pattern
/// standing for whatever it meets first; the bindings that result, and
/// whether the two agree.
pub open spec fn matched(
    expected: TyView,
    actual: TyView,
    bindings: Map<u32, TyView>,
) -> (Map<u32, TyView>, bool)
    decreases expected, 0nat,
{
    match expected {
        TyView::Param(id, _) => if bindings.contains_key(id.0) {
            (bindings, bindings[id.0] == actual)
        } else {
            (bindings.insert(id.0, actual), true)
        },
        TyView::Applied(item, args) => match actual {
            TyView::Applied(item2, args2) => if item == item2 && args.len() == args2.len() {
                matched_all(args, args2, 0, bindings)
            } else {
                (bindings, false)
            },
            _ => (bindings, false),
        },
        TyView::Var(_) | TyView::Never | TyView::Error => (bindings, false),
        _ => (bindings, expected == actual),
    }
}

/// [`matched`], position by position from `i` on, until one disagrees.
pub open spec fn matched_all(
    expected: Seq<TyView>,
    actual: Seq<TyView>,
    i: nat,
    bindings: Map<u32, TyView>,
) -> (Map<u32, TyView>, bool)
    decreases expected, expected.len() - i,
{
    if i >= expected.len() {
        (bindings, true)
    } else {
        let (next, agree) = matched(expected[i as int], actual[i as int], bindings);
        if agree {
            matched_all(expected, actual, i + 1, next)
        } else {
            (next, false)
        }
    }
}

/// Matches two lists of types, position by position.
pub fn type_patterns_match(
    expected: &Vec<Ty>,
    actual: &Vec<Ty>,
    bindings: &mut Substitution,
) -> (r: bool)
    requires
        expected@.len() == actual@.len(),
    ensures
        (final(bindings)@, r) == matched_all(
            ty_views(expected@),
            ty_views(actual@),
            0,
            old(bindings)@,
        ),
    decreases expected,
{
    let mut i: usize = 0;
    while i < expected.len()
        invariant
            i <= expected@.len(),
            expected@.len() == actual@.len(),
            matched_all(ty_views(expected@), ty_views(actual@), i as nat, bindings@) == matched_all(
                ty_views(expected@),
                ty_views(actual@),
                0,
                old(bindings)@,
            ),
        decreases expected@.len() - i,
    {
        if !type_pattern_matches(&expected[i], &actual[i], bindings) {
            return false;
        }
        i = i + 1;
    }
    true
}

/// Matches a partially symbolic type pattern against a concrete runtime
/// type. Repeated parameters must resolve consistently.
pub fn type_pattern_matches(expected: &Ty, actual: &Ty, bindings: &mut Substitution) -> (r: bool)
    ensures
        (final(bindings)@, r) == matched(expected@, actual@, old(bindings)@),
    decreases expected,
{
    match expected {
        Ty::Param(id, _) => {
            match bindings.get(id) {
                Some(bound) => {
                    return same_type(bound, actual);
                },
                None => {},
            }
            bindings.insert(*id, copy_type(actual));
            true
        },
        Ty::Applied(expected_item, expected_args) => match actual {
            Ty::Applied(actual_item, actual_args) => {
                assert(expected@ == TyView::Applied(*expected_item, ty_views(expected_args@)));
                assert(actual@ == TyView::Applied(*actual_item, ty_views(actual_args@)));
                *expected_item == *actual_item && expected_args.len() == actual_args.len()
                    && type_patterns_match(expected_args, actual_args, bindings)
            },
            _ => false,
        },
        Ty::Var(_) | Ty::Never | Ty::Error => false,
        _ => same_type(expected, actual),
    }
}

} // verus!
