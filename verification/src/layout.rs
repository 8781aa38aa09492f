use crate::idmap::IdSet;
use crate::ids::{ItemId, Symbol, TypeParamId};
use crate::interpreter::Interpreter;
use crate::program::{CaseLayout, Module, RecordLayout, VariantLayout, MAX_GENERIC_DEPTH};
use crate::type_ops::{
    checked_substitution, copy_type, instantiation, substitute_all, substituted_all,
};
use crate::types::{ty_views, Substitution, Ty, TyView};
use crate::value::{invalid, refusal, ErrorView, InterpreterError, Value, ValueView};
use vstd::prelude::*;

verus! {

broadcast use {crate::types::group_type_views, crate::value::group_value_views};

/// The first record declared as `item`, from position `i` on.
pub open spec fn find_record(
    records: Seq<(ItemId, RecordLayout)>,
    item: ItemId,
    i: nat,
) -> Option<RecordLayout>
    decreases records.len() - i,
{
    if i >= records.len() {
        None
    } else if records[i as int].0 == item {
        Some(records[i as int].1)
    } else {
        find_record(records, item, i + 1)
    }
}

/// The first variant declared as `item`, from position `i` on.
pub open spec fn find_variant(
    variants: Seq<(ItemId, VariantLayout)>,
    item: ItemId,
    i: nat,
) -> Option<VariantLayout>
    decreases variants.len() - i,
{
    if i >= variants.len() {
        None
    } else if variants[i as int].0 == item {
        Some(variants[i as int].1)
    } else {
        find_variant(variants, item, i + 1)
    }
}

/// The declared types of a record's fields.
pub open spec fn field_views(fields: Seq<(Symbol, Ty)>) -> Seq<TyView> {
    Seq::new(fields.len(), |i: int| fields[i].1.view())
}

/// The declared type parameters, without their names.
pub open spec fn param_ids(params: Seq<(TypeParamId, Symbol)>) -> Seq<TypeParamId> {
    Seq::new(params.len(), |i: int| params[i].0)
}

/// The payload types of every case from position `i` on, one case after
/// the other.
pub open spec fn payload_views(cases: Seq<CaseLayout>, i: nat) -> Seq<TyView>
    decreases cases.len() - i,
{
    if i >= cases.len() {
        Seq::empty()
    } else {
        ty_views(cases[i as int].payload@) + payload_views(cases, i + 1)
    }
}

impl Module {
    /// The record declared as `item`.
    pub open spec fn record_layout(self, item: ItemId) -> Option<RecordLayout> {
        find_record(self.records@, item, 0)
    }

    /// The variant declared as `item`.
    pub open spec fn variant_layout(self, item: ItemId) -> Option<VariantLayout> {
        find_variant(self.variants@, item, 0)
    }

    /// Whether `item` names a declared resource.
    pub open spec fn resource(self, item: ItemId) -> bool {
        exists|i: int|
            0 <= i < self.records@.len() && (#[trigger] self.records@[i]).0 == item
                && self.records@[i].1.affine
    }

    /// Every field type of the record, or every payload type of the
    /// variant, that `item` declares; none for an unknown item.
    pub open spec fn item_field_types(self, item: ItemId) -> Seq<TyView> {
        match self.record_layout(item) {
            Some(record) => field_views(record.fields@),
            None => match self.variant_layout(item) {
                Some(variant) => payload_views(variant.cases@, 0),
                None => Seq::empty(),
            },
        }
    }

    /// The declared type parameters of `item`.
    pub open spec fn type_params(self, item: ItemId) -> Option<Seq<TypeParamId>> {
        match self.record_layout(item) {
            Some(record) => Some(param_ids(record.type_params@)),
            None => match self.variant_layout(item) {
                Some(variant) => Some(param_ids(variant.type_params@)),
                None => None,
            },
        }
    }

    /// `item`'s type parameters bound to `args`: nothing for an unknown
    /// item or a number of arguments other than the declared one.
    pub open spec fn type_substitution(self, item: ItemId, args: Seq<TyView>) -> Option<
        Map<u32, TyView>,
    > {
        match self.type_params(item) {
            Some(params) => instantiation(params, args),
            None => None,
        }
    }

    /// [`Self::type_substitution`] as a hard requirement.
    pub open spec fn checked_substitution(self, item: ItemId, args: Seq<TyView>) -> Result<
        Map<u32, TyView>,
        ErrorView,
    > {
        match self.type_substitution(item, args) {
            Some(subst) => Ok(subst),
            None => Err(
                refusal(
                    "a runtime aggregate carries type arguments that disagree with its own declaration's parameter list"@,
                ),
            ),
        }
    }

    /// The field types of the record `item`, at one instantiation.
    pub open spec fn record_field_types(self, item: ItemId, args: Seq<TyView>) -> Result<
        Seq<TyView>,
        ErrorView,
    > {
        match self.record_layout(item) {
            None => Err(
                refusal("a runtime aggregate names a record this module never declared"@),
            ),
            Some(record) => match self.checked_substitution(item, args) {
                Err(e) => Err(e),
                Ok(subst) => Ok(substituted_all(field_views(record.fields@), subst)),
            },
        }
    }

    /// The payload types of one case of the variant `item`, at one
    /// instantiation.
    pub open spec fn case_payload_types(
        self,
        item: ItemId,
        args: Seq<TyView>,
        case: usize,
    ) -> Result<Seq<TyView>, ErrorView> {
        match self.variant_layout(item) {
            None => Err(
                refusal("a runtime aggregate names a variant this module never declared"@),
            ),
            Some(variant) => if case >= variant.cases@.len() {
                Err(
                    refusal(
                        "a runtime variant value names a case out of range for its own declaration"@,
                    ),
                )
            } else {
                match self.checked_substitution(item, args) {
                    Err(e) => Err(e),
                    Ok(subst) => Ok(
                        substituted_all(ty_views(variant.cases@[case as int].payload@), subst),
                    ),
                }
            },
        }
    }

    /// Whether a value of type `ty` may own a resource, however deeply.
    ///
    /// An instantiation is judged by its own arguments, and one whose
    /// arguments do not fit its declaration counts as owning. A
    /// declaration met again inside itself contributes nothing there.
    pub open spec fn affine_within(self, ty: TyView, visiting: Set<u32>, depth: nat) -> bool
        decreases MAX_GENERIC_DEPTH - depth, 0nat,
    {
        if depth >= MAX_GENERIC_DEPTH {
            false
        } else {
            match ty {
                TyView::Applied(item, args) => self.resource(item) || match self.type_substitution(
                    item,
                    args,
                ) {
                    None => true,
                    Some(subst) => self.any_affine_within(
                        substituted_all(self.item_field_types(item), subst),
                        0,
                        visiting,
                        depth + 1,
                    ),
                },
                TyView::Named(item, _) => self.resource(item) || (!visiting.contains(item.0)
                    && self.any_affine_within(
                    self.item_field_types(item),
                    0,
                    visiting.insert(item.0),
                    depth + 1,
                )),
                _ => false,
            }
        }
    }

    /// Whether one of the types from position `i` on is affine.
    pub open spec fn any_affine_within(
        self,
        types: Seq<TyView>,
        i: nat,
        visiting: Set<u32>,
        depth: nat,
    ) -> bool
        decreases MAX_GENERIC_DEPTH - depth, 1 + types.len() - i,
    {
        i < types.len() && (self.affine_within(types[i as int], visiting, depth)
            || self.any_affine_within(types, i + 1, visiting, depth))
    }

    /// Whether a value of type `ty` may own a resource.
    pub open spec fn affine(self, ty: TyView) -> bool {
        self.affine_within(ty, Set::empty(), 0)
    }

    /// Whether a runtime value may own a resource, judged by its own
    /// declaration and type arguments.
    pub open spec fn affine_value(self, value: ValueView) -> Result<bool, ErrorView> {
        match value {
            ValueView::Resource(_) => Ok(true),
            ValueView::Record { item, type_args, .. } => self.affine_instance(item, type_args),
            ValueView::Variant { item, type_args, .. } => self.affine_instance(item, type_args),
            _ => Ok(false),
        }
    }

    /// Whether an instance of `item` may own a resource.
    pub open spec fn affine_instance(self, item: ItemId, args: Seq<TyView>) -> Result<
        bool,
        ErrorView,
    > {
        if self.resource(item) {
            Ok(true)
        } else {
            match self.checked_substitution(item, args) {
                Err(e) => Err(e),
                Ok(subst) => Ok(
                    self.any_affine_within(
                        substituted_all(self.item_field_types(item), subst),
                        0,
                        Set::empty(),
                        0,
                    ),
                ),
            }
        }
    }
}

/// A list of types, as a mathematical value.
pub open spec fn typed(r: Result<Vec<Ty>, InterpreterError>) -> Result<Seq<TyView>, ErrorView> {
    match r {
        Ok(types) => Ok(ty_views(types@)),
        Err(e) => Err(e@),
    }
}

/// The ids of declared type parameters.
pub fn declared_params(params: &Vec<(TypeParamId, Symbol)>) -> (r: Vec<TypeParamId>)
    ensures
        r@ == param_ids(params@),
{
    let mut ids: Vec<TypeParamId> = Vec::new();
    let mut i: usize = 0;
    while i < params.len()
        invariant
            i <= params@.len(),
            ids@.len() == i,
            forall|j: int| 0 <= j < i ==> #[trigger] ids@[j] == params@[j].0,
        decreases params@.len() - i,
    {
        ids.push(params[i].0);
        i = i + 1;
    }
    assert(ids@ =~= param_ids(params@));
    ids
}

/// The declared types of a record's fields.
fn declared_fields(fields: &Vec<(Symbol, Ty)>) -> (r: Vec<Ty>)
    ensures
        ty_views(r@) == field_views(fields@),
{
    let mut types: Vec<Ty> = Vec::new();
    let mut i: usize = 0;
    while i < fields.len()
        invariant
            i <= fields@.len(),
            types@.len() == i,
            forall|j: int| 0 <= j < i ==> (#[trigger] types@[j])@ == fields@[j].1@,
        decreases fields@.len() - i,
    {
        types.push(copy_type(&fields[i].1));
        i = i + 1;
    }
    assert(ty_views(types@) =~= field_views(fields@));
    types
}

/// The payload types of every case, one case after the other.
fn declared_payloads(cases: &Vec<CaseLayout>) -> (r: Vec<Ty>)
    ensures
        ty_views(r@) == payload_views(cases@, 0),
{
    let mut types: Vec<Ty> = Vec::new();
    let mut i: usize = 0;
    assert(ty_views(types@) =~= Seq::empty());
    assert(ty_views(types@) + payload_views(cases@, 0) =~= payload_views(cases@, 0));
    while i < cases.len()
        invariant
            i <= cases@.len(),
            payload_views(cases@, 0) == ty_views(types@) + payload_views(cases@, i as nat),
        decreases cases@.len() - i,
    {
        let payload = &cases[i].payload;
        let ghost before = types@;
        let mut j: usize = 0;
        while j < payload.len()
            invariant
                j <= payload@.len(),
                types@.len() == before.len() + j,
                forall|k: int| 0 <= k < before.len() ==> (#[trigger] types@[k]) == before[k],
                forall|k: int|
                    before.len() <= k < before.len() + j ==> (#[trigger] types@[k])@ == payload@[k
                        - before.len()]@,
            decreases payload@.len() - j,
        {
            types.push(copy_type(&payload[j]));
            j = j + 1;
        }
        assert(ty_views(types@) =~= ty_views(before) + ty_views(payload@));
        assert(ty_views(types@) + payload_views(cases@, (i + 1) as nat) =~= ty_views(before)
            + payload_views(cases@, i as nat));
        i = i + 1;
    }
    assert(ty_views(types@) + payload_views(cases@, i as nat) =~= ty_views(types@));
    types
}

impl<'a> Interpreter<'a> {
    /// The record declared as `item`.
    pub fn record_layout(&self, item: ItemId) -> (r: Option<&RecordLayout>)
        ensures
            match r {
                Some(record) => self.module.record_layout(item) == Some(*record),
                None => self.module.record_layout(item) is None,
            },
    {
        let records = &self.module.records;
        let mut i: usize = 0;
        while i < records.len()
            invariant
                i <= records@.len(),
                records == self.module.records,
                find_record(records@, item, i as nat) == find_record(records@, item, 0),
            decreases records@.len() - i,
        {
            if records[i].0 == item {
                return Some(&records[i].1);
            }
            i = i + 1;
        }
        None
    }

    /// The variant declared as `item`.
    pub fn variant_layout(&self, item: ItemId) -> (r: Option<&VariantLayout>)
        ensures
            match r {
                Some(variant) => self.module.variant_layout(item) == Some(*variant),
                None => self.module.variant_layout(item) is None,
            },
    {
        let variants = &self.module.variants;
        let mut i: usize = 0;
        while i < variants.len()
            invariant
                i <= variants@.len(),
                variants == self.module.variants,
                find_variant(variants@, item, i as nat) == find_variant(variants@, item, 0),
            decreases variants@.len() - i,
        {
            if variants[i].0 == item {
                return Some(&variants[i].1);
            }
            i = i + 1;
        }
        None
    }

    /// Whether `item` names a declared resource.
    pub fn is_resource(&self, item: ItemId) -> (r: bool)
        ensures
            r == self.module.resource(item),
    {
        let records = &self.module.records;
        let mut i: usize = 0;
        while i < records.len()
            invariant
                i <= records@.len(),
                records == self.module.records,
                forall|j: int|
                    0 <= j < i ==> !((#[trigger] self.module.records@[j]).0 == item
                        && self.module.records@[j].1.affine),
            decreases records@.len() - i,
        {
            if records[i].0 == item && records[i].1.affine {
                return true;
            }
            i = i + 1;
        }
        false
    }

    /// Every field type of the record, or every payload type of the
    /// variant, that `item` declares; none for an unknown item.
    pub fn item_field_types(&self, item: ItemId) -> (r: Vec<Ty>)
        ensures
            ty_views(r@) == self.module.item_field_types(item),
    {
        match self.record_layout(item) {
            Some(record) => declared_fields(&record.fields),
            None => match self.variant_layout(item) {
                Some(variant) => declared_payloads(&variant.cases),
                None => {
                    let none: Vec<Ty> = Vec::new();
                    assert(ty_views(none@) =~= Seq::empty());
                    none
                },
            },
        }
    }

    /// `item`'s type parameters paired with `args`: nothing, rather than
    /// a partial substitution, for an unknown item or a number of
    /// arguments other than the declared one.
    pub fn type_substitution(&self, item: ItemId, args: &Vec<Ty>) -> (r: Option<Substitution>)
        ensures
            match r {
                Some(subst) => self.module.type_substitution(item, ty_views(args@)) == Some(subst@),
                None => self.module.type_substitution(item, ty_views(args@)) is None,
            },
    {
        match self.record_layout(item) {
            Some(record) => checked_substitution(&declared_params(&record.type_params), args),
            None => match self.variant_layout(item) {
                Some(variant) => checked_substitution(
                    &declared_params(&variant.type_params),
                    args,
                ),
                None => None,
            },
        }
    }

    /// [`Self::type_substitution`] as a hard requirement.
    pub fn checked_substitution(&self, item: ItemId, type_args: &Vec<Ty>) -> (r: Result<
        Substitution,
        InterpreterError,
    >)
        ensures
            match r {
                Ok(subst) => self.module.checked_substitution(item, ty_views(type_args@)) == Ok::<
                    Map<u32, TyView>,
                    ErrorView,
                >(subst@),
                Err(e) => self.module.checked_substitution(item, ty_views(type_args@)) == Err::<
                    Map<u32, TyView>,
                    ErrorView,
                >(e@),
            },
    {
        match self.type_substitution(item, type_args) {
            Some(subst) => Ok(subst),
            None => Err(
                invalid(
                    "a runtime aggregate carries type arguments that disagree with its own declaration's parameter list",
                ),
            ),
        }
    }

    /// The declared field types of the record `item`, with `type_args`
    /// substituted in.
    pub fn record_field_types(&self, item: ItemId, type_args: &Vec<Ty>) -> (r: Result<
        Vec<Ty>,
        InterpreterError,
    >)
        ensures
            typed(r) == self.module.record_field_types(item, ty_views(type_args@)),
    {
        match self.record_layout(item) {
            None => Err(invalid("a runtime aggregate names a record this module never declared")),
            Some(record) => match self.checked_substitution(item, type_args) {
                Err(e) => Err(e),
                Ok(subst) => Ok(substitute_all(&declared_fields(&record.fields), &subst)),
            },
        }
    }

    /// The declared payload types of the active case, with `type_args`
    /// substituted in.
    pub fn case_payload_types(&self, item: ItemId, type_args: &Vec<Ty>, case: usize) -> (r: Result<
        Vec<Ty>,
        InterpreterError,
    >)
        ensures
            typed(r) == self.module.case_payload_types(item, ty_views(type_args@), case),
    {
        match self.variant_layout(item) {
            None => Err(invalid("a runtime aggregate names a variant this module never declared")),
            Some(variant) => {
                if case >= variant.cases.len() {
                    return Err(
                        invalid(
                            "a runtime variant value names a case out of range for its own declaration",
                        ),
                    );
                }
                match self.checked_substitution(item, type_args) {
                    Err(e) => Err(e),
                    Ok(subst) => Ok(substitute_all(&variant.cases[case].payload, &subst)),
                }
            },
        }
    }

    /// Whether one of `types` is affine.
    fn any_affine_visiting(&self, types: &Vec<Ty>, visiting: &mut IdSet, depth: usize) -> (r: bool)
        ensures
            r == self.module.any_affine_within(
                ty_views(types@),
                0,
                old(visiting)@,
                depth as nat,
            ),
            final(visiting)@ == old(visiting)@,
        decreases MAX_GENERIC_DEPTH - depth, 1nat,
    {
        let mut i: usize = 0;
        while i < types.len()
            invariant
                i <= types@.len(),
                visiting@ == old(visiting)@,
                self.module.any_affine_within(ty_views(types@), 0, visiting@, depth as nat)
                    == self.module.any_affine_within(
                    ty_views(types@),
                    i as nat,
                    visiting@,
                    depth as nat,
                ),
            decreases types@.len() - i,
        {
            if self.is_affine_visiting(&types[i], visiting, depth) {
                return true;
            }
            i = i + 1;
        }
        false
    }

    /// Whether `ty` is affine, inside the declarations `visiting`.
    pub fn is_affine_visiting(&self, ty: &Ty, visiting: &mut IdSet, depth: usize) -> (r: bool)
        ensures
            r == self.module.affine_within(ty@, old(visiting)@, depth as nat),
            final(visiting)@ == old(visiting)@,
        decreases MAX_GENERIC_DEPTH - depth, 0nat,
    {
        if depth >= MAX_GENERIC_DEPTH {
            return false;
        }
        match ty {
            Ty::Applied(item, args) => {
                if self.is_resource(*item) {
                    return true;
                }
                match self.type_substitution(*item, args) {
                    None => true,
                    Some(subst) => {
                        let types = substitute_all(&self.item_field_types(*item), &subst);
                        self.any_affine_visiting(&types, visiting, depth + 1)
                    },
                }
            },
            Ty::Named(item, _) => {
                if self.is_resource(*item) {
                    return true;
                }
                if !visiting.insert(item.0) {
                    assert(visiting@ =~= old(visiting)@);
                    return false;
                }
                let types = self.item_field_types(*item);
                let result = self.any_affine_visiting(&types, visiting, depth + 1);
                visiting.remove(item.0);
                assert(visiting@ =~= old(visiting)@);
                result
            },
            _ => false,
        }
    }

    /// Whether `ty` is transitively affine: whether a value of it may
    /// own a resource.
    pub fn is_affine(&self, ty: &Ty) -> (r: bool)
        ensures
            r == self.module.affine(ty@),
    {
        let mut visiting = IdSet::new();
        self.is_affine_visiting(ty, &mut visiting, 0)
    }

    /// Whether this runtime value is transitively affine, judged by its
    /// own declaration and concrete type arguments.
    pub fn is_affine_value(&self, value: &Value) -> (r: Result<bool, InterpreterError>)
        ensures
            match r {
                Ok(answer) => self.module.affine_value(value@) == Ok::<bool, ErrorView>(answer),
                Err(e) => self.module.affine_value(value@) == Err::<bool, ErrorView>(e@),
            },
    {
        let (item, type_args) = match value {
            Value::Resource(_) => {
                return Ok(true);
            },
            Value::Record { item, type_args, .. } => (*item, type_args),
            Value::Variant { item, type_args, .. } => (*item, type_args),
            _ => {
                return Ok(false);
            },
        };
        if self.is_resource(item) {
            return Ok(true);
        }
        match self.checked_substitution(item, type_args) {
            Err(e) => Err(e),
            Ok(subst) => {
                let types = substitute_all(&self.item_field_types(item), &subst);
                let mut visiting = IdSet::new();
                Ok(self.any_affine_visiting(&types, &mut visiting, 0))
            },
        }
    }
}

} // verus!
