use crate::idmap::IdSet;
use crate::ids::ItemId;
use crate::interpreter::Interpreter;
use crate::ownership::value_too_deep;
use crate::program::{Module, MAX_GENERIC_DEPTH};
use crate::table::TableView;
use crate::type_ops::{
    all_resolved, copy_types, matched_all, resolved_from, same_types, type_patterns_match,
};
use crate::types::{ty_views, Substitution, Ty, TyView};
use crate::value::{
    checked, invalid, refusal, value_views, ErrorView, InterpreterError, Value, ValueView,
};
use crate::value_ops::tombstone;
use vstd::prelude::*;

verus! {

broadcast use {crate::types::group_type_views, crate::value::group_value_views};

/// What a position's declared type is worth mathematically.
pub open spec fn expected_view(expected: Option<&Ty>) -> Option<TyView> {
    match expected {
        Some(ty) => Some(ty@),
        None => None,
    }
}

/// The declaration a position requires of an aggregate or resource in
/// it: none at the root of a graph, which declares itself.
pub open spec fn requirement(expected: Option<TyView>) -> Result<
    Option<(ItemId, Seq<TyView>)>,
    ErrorView,
> {
    match expected {
        None => Ok(None),
        Some(TyView::Named(item, _)) => Ok(Some((item, Seq::empty()))),
        Some(TyView::Applied(item, args)) => Ok(Some((item, args))),
        Some(TyView::Param(..)) | Some(TyView::Var(_)) | Some(TyView::Never) => Err(
            refusal("a runtime value fills a position whose declared type was never resolved"@),
        ),
        Some(_) => Err(
            refusal(
                "a runtime aggregate or resource stands in a position whose declared type owns nothing"@,
            ),
        ),
    }
}

/// Whether what a position requires, if anything, is `item` at `args`.
pub open spec fn meets(
    required: Option<(ItemId, Seq<TyView>)>,
    item: ItemId,
    args: Seq<TyView>,
) -> bool {
    match required {
        None => true,
        Some((required_item, required_args)) => required_item == item && required_args == args,
    }
}

/// Whether `value` is a primitive of the primitive type `ty`.
pub open spec fn of_kind(value: ValueView, ty: TyView) -> bool {
    match ty {
        TyView::I8 | TyView::I16 | TyView::I32 | TyView::I64 | TyView::Isize | TyView::U8
        | TyView::U16 | TyView::U32 | TyView::U64 | TyView::Usize => value is Int,
        TyView::F32 | TyView::F64 => value is Float,
        TyView::Bool => value is Bool,
        TyView::Char => value is Char,
        TyView::Str => value is Str,
        TyView::Unit => value is Unit,
        _ => false,
    }
}

/// Whether `value` is an inhabitant of the type its position declares,
/// all the way down; and the resources met on the way, none of them
/// twice.
pub open spec fn validated(
    module: Module,
    table: TableView,
    value: ValueView,
    expected: Option<TyView>,
    seen: Set<u32>,
    depth: nat,
) -> (Set<u32>, Result<(), ErrorView>)
    decreases MAX_GENERIC_DEPTH - depth, 0nat,
{
    if depth >= MAX_GENERIC_DEPTH {
        (seen, Err(value_too_deep()))
    } else {
        match value {
            ValueView::Moved | ValueView::Dropped => (seen, tombstone_check(module, expected)),
            ValueView::Record { item, type_args, fields } => match requirement(expected) {
                Err(e) => (seen, Err(e)),
                Ok(required) => if !meets(required, item, type_args) {
                    (
                        seen,
                        Err(
                            refusal(
                                "a runtime record names a different declaration or instantiation than its position declares"@,
                            ),
                        ),
                    )
                } else if module.resource(item) {
                    (
                        seen,
                        Err(
                            refusal(
                                "a runtime record value claims a declaration that is a `resource`, which is only ever represented by a handle"@,
                            ),
                        ),
                    )
                } else {
                    match module.record_field_types(item, type_args) {
                        Err(e) => (seen, Err(e)),
                        Ok(declared) => if declared.len() != fields.len() {
                            (
                                seen,
                                Err(
                                    refusal(
                                        "a runtime record value's own field count disagrees with its declaration"@,
                                    ),
                                ),
                            )
                        } else {
                            validated_from(module, table, fields, declared, 0, seen, depth + 1)
                        },
                    }
                },
            },
            ValueView::Variant { item, type_args, case, payload } => match requirement(expected) {
                Err(e) => (seen, Err(e)),
                Ok(required) => if !meets(required, item, type_args) {
                    (
                        seen,
                        Err(
                            refusal(
                                "a runtime variant names a different declaration or instantiation than its position declares"@,
                            ),
                        ),
                    )
                } else {
                    match module.case_payload_types(item, type_args, case) {
                        Err(e) => (seen, Err(e)),
                        Ok(declared) => if declared.len() != payload.len() {
                            (
                                seen,
                                Err(
                                    refusal(
                                        "a runtime variant value's own payload count disagrees with its active case's declaration"@,
                                    ),
                                ),
                            )
                        } else {
                            validated_from(module, table, payload, declared, 0, seen, depth + 1)
                        },
                    }
                },
            },
            ValueView::Resource(handle) => match table.record(handle) {
                Err(e) => (seen, Err(e)),
                Ok(record) => match requirement(expected) {
                    Err(e) => (seen, Err(e)),
                    Ok(required) => if !meets(required, record.item, Seq::empty()) {
                        (
                            seen,
                            Err(
                                refusal(
                                    "a runtime resource handle names a different declaration than its position declares"@,
                                ),
                            ),
                        )
                    } else if seen.contains(handle.id.0) {
                        (
                            seen,
                            Err(
                                refusal(
                                    "a runtime value graph reaches the same resource identity twice, either duplicated or through a cycle"@,
                                ),
                            ),
                        )
                    } else {
                        match module.record_field_types(record.item, Seq::empty()) {
                            Err(e) => (seen.insert(handle.id.0), Err(e)),
                            Ok(declared) => if declared.len() != record.fields.len() {
                                (
                                    seen.insert(handle.id.0),
                                    Err(
                                        refusal(
                                            "a runtime resource's own field count disagrees with its declaration"@,
                                        ),
                                    ),
                                )
                            } else {
                                validated_from(
                                    module,
                                    table,
                                    record.fields,
                                    declared,
                                    0,
                                    seen.insert(handle.id.0),
                                    depth + 1,
                                )
                            },
                        }
                    },
                },
            },
            primitive => (seen, primitive_check(primitive, expected)),
        }
    }
}

/// [`validated`] for each value at position `i` or later, against the
/// type declared for that position.
pub open spec fn validated_from(
    module: Module,
    table: TableView,
    values: Seq<ValueView>,
    declared: Seq<TyView>,
    i: nat,
    seen: Set<u32>,
    depth: nat,
) -> (Set<u32>, Result<(), ErrorView>)
    decreases MAX_GENERIC_DEPTH - depth, 1 + values.len() - i,
{
    if i >= values.len() {
        (seen, Ok(()))
    } else {
        let (seen1, r) = validated(
            module,
            table,
            values[i as int],
            Some(declared[i as int]),
            seen,
            depth,
        );
        match r {
            Err(e) => (seen1, Err(e)),
            Ok(_) => validated_from(module, table, values, declared, i + 1, seen1, depth),
        }
    }
}

/// A tombstone stands only where something could have been owned.
pub open spec fn tombstone_check(module: Module, expected: Option<TyView>) -> Result<
    (),
    ErrorView,
> {
    match expected {
        None => Ok(()),
        Some(ty) => if module.affine(ty) {
            Ok(())
        } else {
            Err(
                refusal(
                    "a runtime tombstone stands in a position whose declared type owns nothing"@,
                ),
            )
        },
    }
}

/// A primitive stands only where its kind is declared.
pub open spec fn primitive_check(value: ValueView, expected: Option<TyView>) -> Result<
    (),
    ErrorView,
> {
    if expected is None || of_kind(value, expected->0) {
        Ok(())
    } else {
        Err(refusal("a runtime value is of a different kind than its position declares"@))
    }
}

/// Whether `value` is a well-formed graph of its own.
pub open spec fn owned_graph(module: Module, table: TableView, value: ValueView) -> Result<
    (),
    ErrorView,
> {
    validated(module, table, value, None, Set::empty(), 0).1
}

/// Whether an argument agrees with a declared type in which a parameter
/// stands for any type at its own position.
pub open spec fn argument_matches(table: TableView, value: ValueView, declared: TyView) -> Result<
    bool,
    ErrorView,
> {
    match declared {
        TyView::Param(..) => Ok(true),
        TyView::Var(_) | TyView::Never | TyView::Error => Err(
            refusal("a runtime argument fills a parameter whose declared type was never resolved"@),
        ),
        TyView::Applied(expected, expected_args) => match value {
            ValueView::Record { item, type_args, .. } => Ok(
                instance_matches(item, type_args, expected, expected_args),
            ),
            ValueView::Variant { item, type_args, .. } => Ok(
                instance_matches(item, type_args, expected, expected_args),
            ),
            ValueView::Resource(handle) => match table.record(handle) {
                Err(e) => Err(e),
                Ok(record) => Ok(
                    instance_matches(record.item, Seq::empty(), expected, expected_args),
                ),
            },
            _ => Ok(false),
        },
        TyView::Named(expected, _) => match value {
            ValueView::Record { item, .. } => Ok(item == expected),
            ValueView::Variant { item, .. } => Ok(item == expected),
            ValueView::Resource(handle) => match table.record(handle) {
                Err(e) => Err(e),
                Ok(record) => Ok(record.item == expected),
            },
            _ => Ok(false),
        },
        primitive => Ok(of_kind(value, primitive)),
    }
}

/// Whether `item` at concrete `args` is an instance of `expected` at the
/// pattern `expected_args`.
pub open spec fn instance_matches(
    item: ItemId,
    args: Seq<TyView>,
    expected: ItemId,
    expected_args: Seq<TyView>,
) -> bool {
    &&& item == expected
    &&& args.len() == expected_args.len()
    &&& resolved_from(args, 0)
    &&& matched_all(expected_args, args, 0, Map::empty()).1
}

/// The check of one argument against its parameter's declared type.
pub open spec fn argument_check(
    module: Module,
    table: TableView,
    value: ValueView,
    declared: TyView,
) -> Result<(), ErrorView> {
    match owned_graph(module, table, value) {
        Err(e) => Err(e),
        Ok(_) => match argument_matches(table, value, declared) {
            Err(e) => Err(e),
            Ok(matches) => if matches {
                Ok(())
            } else {
                Err(
                    refusal(
                        "a runtime argument disagrees with the concrete part of its parameter's declared type"@,
                    ),
                )
            },
        },
    }
}

/// The declaration a position requires of a record, variant or resource
/// standing in it. None is reserved for a root that declares itself.
pub fn required_declaration(expected: Option<&Ty>) -> (r: Result<
    Option<(ItemId, Vec<Ty>)>,
    InterpreterError,
>)
    ensures
        match r {
            Ok(None) => requirement(expected_view(expected)) == Ok::<
                Option<(ItemId, Seq<TyView>)>,
                ErrorView,
            >(None),
            Ok(Some((item, args))) => requirement(expected_view(expected)) == Ok::<
                Option<(ItemId, Seq<TyView>)>,
                ErrorView,
            >(Some((item, ty_views(args@)))),
            Err(e) => requirement(expected_view(expected)) == Err::<
                Option<(ItemId, Seq<TyView>)>,
                ErrorView,
            >(e@),
        },
{
    match expected {
        None => Ok(None),
        Some(ty) => match ty {
            Ty::Named(item, _) => {
                let none: Vec<Ty> = Vec::new();
                assert(ty_views(none@) =~= Seq::empty());
                Ok(Some((*item, none)))
            },
            Ty::Applied(item, args) => Ok(Some((*item, copy_types(args)))),
            Ty::Param(..) | Ty::Var(_) | Ty::Never => Err(
                invalid("a runtime value fills a position whose declared type was never resolved"),
            ),
            _ => Err(
                invalid(
                    "a runtime aggregate or resource stands in a position whose declared type owns nothing",
                ),
            ),
        },
    }
}

/// Whether a position's requirement, if any, is `item` at `args`.
fn meets_requirement(required: &Option<(ItemId, Vec<Ty>)>, item: ItemId, args: &Vec<Ty>) -> (r:
    bool)
    ensures
        r == meets(
            match *required {
                None => None,
                Some((i, a)) => Some((i, ty_views(a@))),
            },
            item,
            ty_views(args@),
        ),
{
    match required {
        None => true,
        Some((required_item, required_args)) => *required_item == item && same_types(
            required_args,
            args,
        ),
    }
}

/// Whether `value` is a primitive of the primitive type `ty`.
fn is_of_kind(value: &Value, ty: &Ty) -> (r: bool)
    ensures
        r == of_kind(value@, ty@),
{
    match ty {
        Ty::I8 | Ty::I16 | Ty::I32 | Ty::I64 | Ty::Isize | Ty::U8 | Ty::U16 | Ty::U32 | Ty::U64
        | Ty::Usize => matches!(value, Value::Int(_)),
        Ty::F32 | Ty::F64 => matches!(value, Value::Float(_)),
        Ty::Bool => matches!(value, Value::Bool(_)),
        Ty::Char => matches!(value, Value::Char(_)),
        Ty::Str => matches!(value, Value::Str(_)),
        Ty::Unit => matches!(value, Value::Unit),
        _ => false,
    }
}

impl<'a> Interpreter<'a> {
    /// [`Self::validate_value_against_ty`] for each of `values` against
    /// the type declared for its position.
    fn validate_values_against(
        &self,
        values: &Vec<Value>,
        declared: &Vec<Ty>,
        seen: &mut IdSet,
        depth: usize,
    ) -> (r: Result<(), InterpreterError>)
        requires
            values@.len() == declared@.len(),
        ensures
            (final(seen)@, checked(r)) == validated_from(
                *self.module,
                self@.table,
                value_views(values@),
                ty_views(declared@),
                0,
                old(seen)@,
                depth as nat,
            ),
        decreases MAX_GENERIC_DEPTH - depth, 1nat,
    {
        let mut i: usize = 0;
        while i < values.len()
            invariant
                i <= values@.len(),
                values@.len() == declared@.len(),
                validated_from(
                    *self.module,
                    self@.table,
                    value_views(values@),
                    ty_views(declared@),
                    0,
                    old(seen)@,
                    depth as nat,
                ) == validated_from(
                    *self.module,
                    self@.table,
                    value_views(values@),
                    ty_views(declared@),
                    i as nat,
                    seen@,
                    depth as nat,
                ),
            decreases values@.len() - i,
        {
            match self.validate_value_against_ty(&values[i], Some(&declared[i]), seen, depth) {
                Err(e) => {
                    return Err(e);
                },
                Ok(_) => {},
            }
            i = i + 1;
        }
        Ok(())
    }

    /// Checks that `value` really is an inhabitant of the type its
    /// position declares, all the way down, changing nothing.
    ///
    /// `expected` is `None` only at the root of a graph, which declares
    /// its own identity. `seen` carries every resource already met, so
    /// that one occurring twice is refused.
    pub fn validate_value_against_ty(
        &self,
        value: &Value,
        expected: Option<&Ty>,
        seen: &mut IdSet,
        depth: usize,
    ) -> (r: Result<(), InterpreterError>)
        ensures
            (final(seen)@, checked(r)) == validated(
                *self.module,
                self@.table,
                value@,
                expected_view(expected),
                old(seen)@,
                depth as nat,
            ),
        decreases MAX_GENERIC_DEPTH - depth, 0nat,
    {
        if depth >= MAX_GENERIC_DEPTH {
            return Err(
                invalid("a runtime value is nested more deeply than this milestone supports"),
            );
        }
        match value {
            Value::Moved | Value::Dropped => match expected {
                None => Ok(()),
                Some(ty) => if self.is_affine(ty) {
                    Ok(())
                } else {
                    Err(
                        invalid(
                            "a runtime tombstone stands in a position whose declared type owns nothing",
                        ),
                    )
                },
            },
            Value::Record { item, type_args, fields } => {
                let required = match required_declaration(expected) {
                    Err(e) => {
                        return Err(e);
                    },
                    Ok(required) => required,
                };
                if !meets_requirement(&required, *item, type_args) {
                    return Err(
                        invalid(
                            "a runtime record names a different declaration or instantiation than its position declares",
                        ),
                    );
                }
                if self.is_resource(*item) {
                    return Err(
                        invalid(
                            "a runtime record value claims a declaration that is a `resource`, which is only ever represented by a handle",
                        ),
                    );
                }
                let declared = match self.record_field_types(*item, type_args) {
                    Err(e) => {
                        return Err(e);
                    },
                    Ok(declared) => declared,
                };
                assert(ty_views(declared@).len() == declared@.len());
                assert(value_views(fields@).len() == fields@.len());
                if declared.len() != fields.len() {
                    return Err(
                        invalid(
                            "a runtime record value's own field count disagrees with its declaration",
                        ),
                    );
                }
                self.validate_values_against(fields, &declared, seen, depth + 1)
            },
            Value::Variant { item, type_args, case, payload } => {
                let required = match required_declaration(expected) {
                    Err(e) => {
                        return Err(e);
                    },
                    Ok(required) => required,
                };
                if !meets_requirement(&required, *item, type_args) {
                    return Err(
                        invalid(
                            "a runtime variant names a different declaration or instantiation than its position declares",
                        ),
                    );
                }
                let declared = match self.case_payload_types(*item, type_args, *case) {
                    Err(e) => {
                        return Err(e);
                    },
                    Ok(declared) => declared,
                };
                assert(ty_views(declared@).len() == declared@.len());
                assert(value_views(payload@).len() == payload@.len());
                if declared.len() != payload.len() {
                    return Err(
                        invalid(
                            "a runtime variant value's own payload count disagrees with its active case's declaration",
                        ),
                    );
                }
                self.validate_values_against(payload, &declared, seen, depth + 1)
            },
            Value::Resource(handle) => {
                let record = match self.resources.record(*handle) {
                    Err(e) => {
                        return Err(e);
                    },
                    Ok(record) => record,
                };
                let required = match required_declaration(expected) {
                    Err(e) => {
                        return Err(e);
                    },
                    Ok(required) => required,
                };
                let none: Vec<Ty> = Vec::new();
                assert(ty_views(none@) =~= Seq::empty());
                if !meets_requirement(&required, record.item, &none) {
                    return Err(
                        invalid(
                            "a runtime resource handle names a different declaration than its position declares",
                        ),
                    );
                }
                if !seen.insert(handle.id.0) {
                    assert(seen@ =~= old(seen)@);
                    return Err(
                        invalid(
                            "a runtime value graph reaches the same resource identity twice, either duplicated or through a cycle",
                        ),
                    );
                }
                let declared = match self.record_field_types(record.item, &none) {
                    Err(e) => {
                        return Err(e);
                    },
                    Ok(declared) => declared,
                };
                assert(ty_views(declared@).len() == declared@.len());
                if declared.len() != record.fields.len() {
                    return Err(
                        invalid(
                            "a runtime resource's own field count disagrees with its declaration",
                        ),
                    );
                }
                self.validate_values_against(&record.fields, &declared, seen, depth + 1)
            },
            primitive => {
                let fits = match expected {
                    None => true,
                    Some(ty) => is_of_kind(primitive, ty),
                };
                if fits {
                    Ok(())
                } else {
                    Err(
                        invalid(
                            "a runtime value is of a different kind than its position declares",
                        ),
                    )
                }
            },
        }
    }

    /// Validates a whole owned graph from its root, which declares its
    /// own identity.
    pub fn validate_owned_graph(&self, value: &Value) -> (r: Result<(), InterpreterError>)
        ensures
            checked(r) == owned_graph(*self.module, self@.table, value@),
    {
        let mut seen = IdSet::new();
        self.validate_value_against_ty(value, None, &mut seen, 0)
    }

    /// Validates one call argument against its parameter's declared
    /// type, before anything is bound: the value must be consistent in
    /// itself and agree with the concrete part of the type.
    pub fn validate_argument(&self, value: &Value, declared: &Ty) -> (r: Result<
        (),
        InterpreterError,
    >)
        ensures
            checked(r) == argument_check(*self.module, self@.table, value@, declared@),
    {
        match self.validate_owned_graph(value) {
            Err(e) => {
                return Err(e);
            },
            Ok(_) => {},
        }
        match self.argument_matches_declared(value, declared) {
            Err(e) => Err(e),
            Ok(matches) => if matches {
                Ok(())
            } else {
                Err(
                    invalid(
                        "a runtime argument disagrees with the concrete part of its parameter's declared type",
                    ),
                )
            },
        }
    }

    /// Matches an argument against a possibly partial generic type. A
    /// type parameter is a wildcard only at its own position.
    pub fn argument_matches_declared(&self, value: &Value, declared: &Ty) -> (r: Result<
        bool,
        InterpreterError,
    >)
        ensures
            match r {
                Ok(answer) => argument_matches(self@.table, value@, declared@) == Ok::<
                    bool,
                    ErrorView,
                >(answer),
                Err(e) => argument_matches(self@.table, value@, declared@) == Err::<
                    bool,
                    ErrorView,
                >(e@),
            },
    {
        match declared {
            Ty::Param(..) => Ok(true),
            Ty::Var(_) | Ty::Never | Ty::Error => Err(
                invalid(
                    "a runtime argument fills a parameter whose declared type was never resolved",
                ),
            ),
            Ty::Applied(expected_item, expected_args) => {
                let none: Vec<Ty> = Vec::new();
                assert(ty_views(none@) =~= Seq::empty());
                let (actual_item, actual_args) = match value {
                    Value::Record { item, type_args, .. } => (*item, type_args),
                    Value::Variant { item, type_args, .. } => (*item, type_args),
                    Value::Resource(handle) => match self.resources.record(*handle) {
                        Err(e) => {
                            return Err(e);
                        },
                        Ok(record) => (record.item, &none),
                    },
                    _ => {
                        return Ok(false);
                    },
                };
                assert(ty_views(actual_args@).len() == actual_args@.len());
                assert(ty_views(expected_args@).len() == expected_args@.len());
                if actual_item != *expected_item || actual_args.len() != expected_args.len()
                    || !all_resolved(actual_args) {
                    return Ok(false);
                }
                let mut bindings = Substitution::new();
                Ok(type_patterns_match(expected_args, actual_args, &mut bindings))
            },
            Ty::Named(expected_item, _) => {
                let actual_item = match value {
                    Value::Record { item, .. } => *item,
                    Value::Variant { item, .. } => *item,
                    Value::Resource(handle) => match self.resources.record(*handle) {
                        Err(e) => {
                            return Err(e);
                        },
                        Ok(record) => record.item,
                    },
                    _ => {
                        return Ok(false);
                    },
                };
                Ok(actual_item == *expected_item)
            },
            primitive => Ok(is_of_kind(value, primitive)),
        }
    }
}

} // verus!
