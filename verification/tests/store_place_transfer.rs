use napitia::ids::{FieldId, ItemId, Symbol, TypeParamId, ValueId};
use napitia::idmap::IdMap;
use napitia::interpreter::Interpreter;
use napitia::program::{CaseLayout, Module, Place, Projection, RecordLayout, VariantLayout};
use napitia::table::ResourceStatus;
use napitia::types::Ty;
use napitia::value::{InterpreterError, ResourceHandle, Value};
use napitia::value_ops::Frame;

fn origins(load: u32, slot: u32) -> IdMap<ValueId> {
    let mut origins = IdMap::new();
    origins.insert(load, ValueId(slot));
    origins
}

fn snapshot(values: &Frame) -> String {
    format!("{values:?}")
}


const FILE: ItemId = ItemId(60);
const HOLDER: ItemId = ItemId(61);
const BOXY: ItemId = ItemId(62);
const PAIR: ItemId = ItemId(63);
const HOLDERS: ItemId = ItemId(64);
const MIXED: ItemId = ItemId(65);
const SESSION: ItemId = ItemId(66);
const MAYBE: ItemId = ItemId(67);
const NEST: ItemId = ItemId(68);
const LINKED: ItemId = ItemId(69);

fn module() -> Module {
    let name = Symbol(0);
    let param = TypeParamId(0);
    Module {
        functions: Vec::new(),
        records: vec![
            (
                FILE,
                RecordLayout {
                    name,
                    type_params: Vec::new(),
                    fields: vec![(name, Ty::I64)],
                    affine: true,
                },
            ),
            (
                HOLDER,
                RecordLayout {
                    name,
                    type_params: Vec::new(),
                    fields: vec![(name, Ty::Named(FILE, name))],
                    affine: false,
                },
            ),
            (
                BOXY,
                RecordLayout {
                    name,
                    type_params: vec![(param, name)],
                    fields: vec![(name, Ty::Param(param, name))],
                    affine: false,
                },
            ),
            (
                PAIR,
                RecordLayout {
                    name,
                    type_params: Vec::new(),
                    fields: vec![(name, Ty::Named(FILE, name)), (name, Ty::Named(FILE, name))],
                    affine: false,
                },
            ),
            (
                HOLDERS,
                RecordLayout {
                    name,
                    type_params: Vec::new(),
                    fields: vec![
                        (name, Ty::Named(HOLDER, name)),
                        (name, Ty::Named(HOLDER, name)),
                    ],
                    affine: false,
                },
            ),
            (
                MIXED,
                RecordLayout {
                    name,
                    type_params: Vec::new(),
                    fields: vec![
                        (name, Ty::Named(FILE, name)),
                        (name, Ty::Applied(MAYBE, vec![Ty::Named(FILE, name)])),
                    ],
                    affine: false,
                },
            ),
            (
                SESSION,
                RecordLayout {
                    name,
                    type_params: Vec::new(),
                    fields: vec![(name, Ty::Named(FILE, name))],
                    affine: true,
                },
            ),
            (
                NEST,
                RecordLayout {
                    name,
                    type_params: Vec::new(),
                    fields: vec![(name, Ty::Named(SESSION, name))],
                    affine: true,
                },
            ),
            (
                LINKED,
                RecordLayout {
                    name,
                    type_params: Vec::new(),
                    fields: vec![
                        (name, Ty::Named(SESSION, name)),
                        (name, Ty::Named(FILE, name)),
                    ],
                    affine: false,
                },
            ),
        ],
        variants: vec![(
            MAYBE,
            VariantLayout {
                name,
                type_params: vec![(param, name)],
                cases: vec![
                    CaseLayout {
                        name,
                        payload: vec![Ty::Param(param, name)],
                    },
                    CaseLayout {
                        name,
                        payload: Vec::new(),
                    },
                ],
            },
        )],
        protocols: Vec::new(),
        extends: Vec::new(),
    }
}

fn field(owner: ItemId, index: u32) -> Vec<Projection> {
    vec![Projection::Field {
        owner,
        field: FieldId(index),
    }]
}

fn place(root: u32, projections: Vec<Projection>) -> Place {
    Place {
        root: ValueId(root),
        projections,
    }
}

fn emptied_holder(
    interpreter: &mut Interpreter<'_>,
    holder_id: u32,
    source_id: u32,
) -> (Frame, ResourceHandle) {
    let replacement = interpreter
        .resources
        .construct(FILE, vec![Value::Int(2)]);
    let mut values = Frame::new();
    values.insert(
        ValueId(holder_id),
        Value::Record {
            item: HOLDER,
            type_args: Vec::new(),
            fields: vec![Value::Moved],
        },
    );
    values.insert(ValueId(source_id), Value::Resource(replacement));
    (values, replacement)
}

#[test]
fn a_successful_store_transfers_ownership_into_the_place() {
    let module = module();
    let mut interpreter = Interpreter::new(&module);
    let (mut values, replacement) = emptied_holder(&mut interpreter, 0, 1);

    interpreter
        .store_place_transfer(
            &mut values,
            &IdMap::new(),
            &place(0, field(HOLDER, 0)),
            ValueId(1),
        )
        .expect("storing into a provably empty field must succeed");

    let Some(Value::Record { fields, .. }) = values.get(&ValueId(0)) else {
        unreachable!("the destination is still a record")
    };
    let Value::Resource(stored) = fields[0] else {
        unreachable!("the field now holds the transferred resource")
    };
    assert_eq!(stored.id, replacement.id, "the same resource identity");
    assert!(
        stored.generation > replacement.generation,
        "a transfer must bump the generation, so the caller's own handle goes stale"
    );
    assert!(
        interpreter.resources.observe(stored).is_ok(),
        "the new owner's handle is current"
    );
}

#[test]
fn the_old_source_is_no_longer_a_current_owner_after_a_store() {
    let module = module();
    let mut interpreter = Interpreter::new(&module);
    let (mut values, replacement) = emptied_holder(&mut interpreter, 0, 1);

    interpreter
        .store_place_transfer(
            &mut values,
            &IdMap::new(),
            &place(0, field(HOLDER, 0)),
            ValueId(1),
        )
        .expect("the store must succeed");

    assert_eq!(
        values.get(&ValueId(1)),
        Some(&Value::Moved),
        "the source is tombstoned, not left holding a plausible-looking handle"
    );
    assert!(
        interpreter.resources.observe(replacement).is_err(),
        "the handle the source held must be stale"
    );
    assert!(
        interpreter
            .drop_value(&Value::Resource(replacement))
            .is_err(),
        "a double drop attempted through the stale source must be refused"
    );
}

#[test]
fn a_store_into_a_live_field_leaves_the_source_untouched() {
    let module = module();
    let mut interpreter = Interpreter::new(&module);
    let live = interpreter
        .resources
        .construct(FILE, vec![Value::Int(1)]);
    let replacement = interpreter
        .resources
        .construct(FILE, vec![Value::Int(2)]);
    let mut values = Frame::new();
    values.insert(
        ValueId(0),
        Value::Record {
            item: HOLDER,
            type_args: Vec::new(),
            fields: vec![Value::Resource(live)],
        },
    );
    values.insert(ValueId(1), Value::Resource(replacement));
    let before = snapshot(&values);

    let result = interpreter.store_place_transfer(
        &mut values,
        &IdMap::new(),
        &place(0, field(HOLDER, 0)),
        ValueId(1),
    );
    assert!(
        matches!(result, Err(InterpreterError::InvalidOperation(_))),
        "overwriting a live field must be a structured error, got {result:?}"
    );
    assert_eq!(snapshot(&values), before, "a refused store must mutate nothing");
    assert!(
        interpreter.resources.observe(replacement).is_ok(),
        "the source must still be a current owner: no generation may have been bumped"
    );
    assert!(
        interpreter.resources.observe(live).is_ok(),
        "the destination's own live value must be untouched"
    );
}

#[test]
fn a_store_of_an_already_dropped_source_leaves_the_destination_empty() {
    let module = module();
    let mut interpreter = Interpreter::new(&module);
    let (mut values, replacement) = emptied_holder(&mut interpreter, 0, 1);
    interpreter
        .drop_value(&Value::Resource(replacement))
        .expect("destroying the source first");
    let before = snapshot(&values);

    let result = interpreter.store_place_transfer(
        &mut values,
        &IdMap::new(),
        &place(0, field(HOLDER, 0)),
        ValueId(1),
    );
    assert!(
        matches!(result, Err(InterpreterError::InvalidOperation(_))),
        "storing a destroyed value must be refused, got {result:?}"
    );
    assert_eq!(snapshot(&values), before,
        "the destination field must still be the tombstone it was"
    );
}

#[test]
fn a_store_whose_source_and_destination_are_the_same_storage_is_refused() {
    let module = module();
    let mut interpreter = Interpreter::new(&module);
    let mut values = Frame::new();
    values.insert(
        ValueId(0),
        Value::Record {
            item: HOLDER,
            type_args: Vec::new(),
            fields: vec![Value::Moved],
        },
    );
    let before = snapshot(&values);

    let result = interpreter.store_place_transfer(
        &mut values,
        &IdMap::new(),
        &place(0, field(HOLDER, 0)),
        ValueId(0),
    );
    assert!(
        matches!(result, Err(InterpreterError::InvalidOperation(_))),
        "an aggregate may not be stored into its own field, got {result:?}"
    );
    assert_eq!(snapshot(&values), before, "a refused self-store must mutate nothing");
}

#[test]
fn a_store_aliasing_its_destination_through_a_load_is_refused() {
    let module = module();
    let mut interpreter = Interpreter::new(&module);
    let mut values = Frame::new();
    values.insert(
        ValueId(0),
        Value::Record {
            item: HOLDER,
            type_args: Vec::new(),
            fields: vec![Value::Moved],
        },
    );
    values.insert(ValueId(1), Value::Unit);
    let load_origin = origins(1, 0);

    let result = interpreter.store_place_transfer(
        &mut values,
        &load_origin,
        &place(0, field(HOLDER, 0)),
        ValueId(1),
    );
    assert!(
        matches!(result, Err(InterpreterError::InvalidOperation(_))),
        "a load of the destination's own slot is still the destination, got {result:?}"
    );
}

#[test]
fn a_nested_affine_record_is_transferred_whole() {
    let module = module();
    let mut interpreter = Interpreter::new(&module);
    let inner = interpreter
        .resources
        .construct(FILE, vec![Value::Int(3)]);
    let mut values = Frame::new();
    values.insert(
        ValueId(0),
        Value::Record {
            item: BOXY,
            type_args: vec![Ty::Named(HOLDER, Symbol(0))],
            fields: vec![Value::Moved],
        },
    );
    values.insert(
        ValueId(1),
        Value::Record {
            item: HOLDER,
            type_args: Vec::new(),
            fields: vec![Value::Resource(inner)],
        },
    );

    interpreter
        .store_place_transfer(
            &mut values,
            &IdMap::new(),
            &place(0, field(BOXY, 0)),
            ValueId(1),
        )
        .expect("storing a whole affine record must succeed");

    assert!(
        interpreter.resources.observe(inner).is_err(),
        "the nested resource's own identity must have been transferred too"
    );
    assert_eq!(values.get(&ValueId(1)), Some(&Value::Moved));
    let stored = values.remove(&ValueId(0)).expect("the destination");
    assert!(
        interpreter
            .is_affine_value(&stored)
            .expect("well-formed metadata"),
        "`Box[Holder]` owns a resource through its stored field"
    );
    interpreter
        .drop_value(&stored)
        .expect("destroying the new owner must succeed exactly once");
}

#[test]
fn a_store_into_a_generic_aggregate_preserves_its_type_arguments() {
    let module = module();
    let mut interpreter = Interpreter::new(&module);
    let replacement = interpreter
        .resources
        .construct(FILE, vec![Value::Int(4)]);
    let mut values = Frame::new();
    values.insert(
        ValueId(0),
        Value::Record {
            item: BOXY,
            type_args: vec![Ty::Named(FILE, Symbol(0))],
            fields: vec![Value::Moved],
        },
    );
    values.insert(ValueId(1), Value::Resource(replacement));

    interpreter
        .store_place_transfer(
            &mut values,
            &IdMap::new(),
            &place(0, field(BOXY, 0)),
            ValueId(1),
        )
        .expect("the store must succeed");

    let Some(Value::Record { type_args, .. }) = values.get(&ValueId(0)) else {
        unreachable!("the destination is still a record")
    };
    assert_eq!(
        type_args,
        &vec![Ty::Named(FILE, Symbol(0))],
        "a store must not quietly turn a `Box[File]` into a `Box[T]`"
    );
}

#[test]
fn a_store_through_a_missing_field_index_is_a_structured_error() {
    let module = module();
    let mut interpreter = Interpreter::new(&module);
    let (mut values, replacement) = emptied_holder(&mut interpreter, 0, 1);
    let before = snapshot(&values);

    let result = interpreter.store_place_transfer(
        &mut values,
        &IdMap::new(),
        &place(0, field(HOLDER, 9)),
        ValueId(1),
    );
    assert!(
        matches!(result, Err(InterpreterError::InvalidOperation(_))),
        "an out-of-range field must be reported, got {result:?}"
    );
    assert_eq!(snapshot(&values), before);
    assert!(
        interpreter.resources.observe(replacement).is_ok(),
        "a refused store must not have bumped the source's generation"
    );
}

#[test]
fn a_duplicate_identity_in_the_source_is_refused_without_mutation() {
    let module = module();
    let mut interpreter = Interpreter::new(&module);
    let shared = interpreter
        .resources
        .construct(FILE, vec![Value::Int(1)]);
    let mut values = Frame::new();
    values.insert(
        ValueId(0),
        Value::Record {
            item: BOXY,
            type_args: vec![Ty::Named(HOLDER, Symbol(0))],
            fields: vec![Value::Moved],
        },
    );
    values.insert(
        ValueId(1),
        Value::Record {
            item: PAIR,
            type_args: Vec::new(),
            fields: vec![Value::Resource(shared), Value::Resource(shared)],
        },
    );
    let before = snapshot(&values);
    let result = interpreter.store_place_transfer(
        &mut values,
        &IdMap::new(),
        &place(0, field(BOXY, 0)),
        ValueId(1),
    );
    assert!(
        matches!(result, Err(InterpreterError::InvalidOperation(_))),
        "a duplicated resource identity must be refused, got {result:?}"
    );
    assert_eq!(snapshot(&values), before, "a refused store must mutate nothing");
    assert!(
        interpreter.resources.observe(shared).is_ok(),
        "no generation may have been bumped"
    );
}

#[test]
fn a_refused_store_reports_the_identical_error_every_time() {
    let module = module();
    let mut interpreter = Interpreter::new(&module);
    let (mut values, _) = emptied_holder(&mut interpreter, 0, 1);
    let first = interpreter.store_place_transfer(
        &mut values,
        &IdMap::new(),
        &place(0, field(HOLDER, 9)),
        ValueId(1),
    );
    let second = interpreter.store_place_transfer(
        &mut values,
        &IdMap::new(),
        &place(0, field(HOLDER, 9)),
        ValueId(1),
    );
    assert_eq!(first, second, "the same refusal must be deterministic");
}

fn assert_refused_without_mutation(
    interpreter: &mut Interpreter<'_>,
    values: &mut Frame,
    place: &Place,
    source: ValueId,
    watched: &[ResourceHandle],
    what: &str,
) {
    let before_values = snapshot(&values);
    let before_table: Vec<(ItemId, u64, bool, Vec<Value>)> = interpreter
        .resources
        .records
        .iter()
        .map(|r| {
            (
                r.item,
                r.generation,
                r.status == ResourceStatus::Alive,
                r.fields.clone(),
            )
        })
        .collect();

    let result = interpreter.store_place_transfer(values, &IdMap::new(), place, source);
    assert!(
        matches!(result, Err(InterpreterError::InvalidOperation(_))),
        "{what}: expected a structured error, got {result:?}"
    );
    assert_eq!(snapshot(&values), before_values,
        "{what}: the frame value map changed"
    );
    let after_table: Vec<(ItemId, u64, bool, Vec<Value>)> = interpreter
        .resources
        .records
        .iter()
        .map(|r| {
            (
                r.item,
                r.generation,
                r.status == ResourceStatus::Alive,
                r.fields.clone(),
            )
        })
        .collect();
    assert_eq!(
        before_table, after_table,
        "{what}: the resource table changed"
    );
    for handle in watched {
        assert!(
            interpreter.resources.observe(*handle).is_ok(),
            "{what}: a watched handle went stale"
        );
    }

    let again = interpreter.store_place_transfer(values, &IdMap::new(), place, source);
    assert_eq!(result, again, "{what}: the refusal is not deterministic");
    assert_eq!(snapshot(&values), before_values, "{what}: the retry mutated state");
}

fn destination_and(source: Value) -> (Frame, Place) {
    destination_typed(Ty::Named(HOLDER, Symbol(0)), source)
}

fn destination_typed(held: Ty, source: Value) -> (Frame, Place) {
    let mut values = Frame::new();
    values.insert(
        ValueId(0),
        Value::Record {
            item: BOXY,
            type_args: vec![held],
            fields: vec![Value::Moved],
        },
    );
    values.insert(ValueId(1), source);
    (values, place(0, field(BOXY, 0)))
}

#[test]
fn a_duplicate_handle_nested_inside_records_is_refused() {
    let module = module();
    let mut interpreter = Interpreter::new(&module);
    let shared = interpreter
        .resources
        .construct(FILE, vec![Value::Int(1)]);
    let holder = |handle| Value::Record {
        item: HOLDER,
        type_args: Vec::new(),
        fields: vec![Value::Resource(handle)],
    };
    let (mut values, destination) = destination_and(Value::Record {
        item: HOLDERS,
        type_args: Vec::new(),
        fields: vec![holder(shared), holder(shared)],
    });
    assert_refused_without_mutation(
        &mut interpreter,
        &mut values,
        &destination,
        ValueId(1),
        &[shared],
        "duplicate identity nested in records",
    );
}

#[test]
fn a_duplicate_handle_across_record_and_variant_nesting_is_refused() {
    let module = module();
    let mut interpreter = Interpreter::new(&module);
    let shared = interpreter
        .resources
        .construct(FILE, vec![Value::Int(1)]);
    let (mut values, destination) = destination_typed(
        Ty::Named(MIXED, Symbol(0)),
        Value::Record {
            item: MIXED,
            type_args: Vec::new(),
            fields: vec![
                Value::Resource(shared),
                Value::Variant {
                    item: MAYBE,
                    type_args: vec![Ty::Named(FILE, Symbol(0))],
                    case: 0,
                    payload: vec![Value::Resource(shared)],
                },
            ],
        },
    );
    assert_refused_without_mutation(
        &mut interpreter,
        &mut values,
        &destination,
        ValueId(1),
        &[shared],
        "duplicate identity across record and variant",
    );
}

#[test]
fn a_source_sharing_an_identity_with_the_destination_path_is_refused() {
    let module = module();
    let mut interpreter = Interpreter::new(&module);
    let spine = interpreter
        .resources
        .construct(SESSION, vec![Value::Moved]);
    let mut values = Frame::new();
    values.insert(ValueId(0), Value::Resource(spine));
    values.insert(ValueId(2), Value::Resource(spine));
    let destination = place(0, field(SESSION, 0));
    assert_refused_without_mutation(
        &mut interpreter,
        &mut values,
        &destination,
        ValueId(2),
        &[spine],
        "source and destination path share an identity",
    );
}

#[test]
fn a_stale_child_after_a_valid_sibling_is_refused_without_moving_the_sibling() {
    let module = module();
    let mut interpreter = Interpreter::new(&module);
    let good = interpreter
        .resources
        .construct(FILE, vec![Value::Int(1)]);
    let stale = interpreter
        .resources
        .construct(FILE, vec![Value::Int(2)]);
    let _ = interpreter
        .resources
        .transfer(stale)
        .expect("transferring to create a stale handle");
    let (mut values, destination) = destination_and(Value::Record {
        item: PAIR,
        type_args: Vec::new(),
        fields: vec![Value::Resource(good), Value::Resource(stale)],
    });
    assert_refused_without_mutation(
        &mut interpreter,
        &mut values,
        &destination,
        ValueId(1),
        &[good],
        "stale child after a valid sibling",
    );
}

#[test]
fn a_source_whose_field_count_disagrees_with_its_declaration_is_refused() {
    let module = module();
    let mut interpreter = Interpreter::new(&module);
    let live = interpreter
        .resources
        .construct(FILE, vec![Value::Int(1)]);
    let (mut values, destination) = destination_and(Value::Record {
        item: HOLDER,
        type_args: Vec::new(),
        fields: vec![Value::Resource(live), Value::Int(1), Value::Int(2)],
    });
    assert_refused_without_mutation(
        &mut interpreter,
        &mut values,
        &destination,
        ValueId(1),
        &[live],
        "field count disagreeing with the declaration",
    );
}

#[test]
fn a_source_with_mismatched_generic_type_arguments_is_refused() {
    let module = module();
    let mut interpreter = Interpreter::new(&module);
    let live = interpreter
        .resources
        .construct(FILE, vec![Value::Int(1)]);
    let (mut values, destination) = destination_and(Value::Record {
        item: BOXY,
        type_args: vec![Ty::I64, Ty::I64],
        fields: vec![Value::Resource(live)],
    });
    assert_refused_without_mutation(
        &mut interpreter,
        &mut values,
        &destination,
        ValueId(1),
        &[live],
        "mismatched generic type arguments",
    );
}

#[test]
fn a_source_variant_with_the_wrong_payload_count_is_refused() {
    let module = module();
    let mut interpreter = Interpreter::new(&module);
    let live = interpreter
        .resources
        .construct(FILE, vec![Value::Int(1)]);
    let (mut values, destination) = destination_and(Value::Variant {
        item: MAYBE,
        type_args: vec![Ty::Named(FILE, Symbol(0))],
        case: 0,
        payload: vec![Value::Resource(live), Value::Int(2)],
    });
    assert_refused_without_mutation(
        &mut interpreter,
        &mut values,
        &destination,
        ValueId(1),
        &[live],
        "variant payload count disagreeing with its active case",
    );
}

#[test]
fn a_destination_traversed_through_a_stale_resource_is_refused() {
    let module = module();
    let mut interpreter = Interpreter::new(&module);
    let spine = interpreter
        .resources
        .construct(SESSION, vec![Value::Moved]);
    let _ = interpreter
        .resources
        .transfer(spine)
        .expect("transferring to make the spine handle stale");
    let replacement = interpreter
        .resources
        .construct(FILE, vec![Value::Int(1)]);
    let mut values = Frame::new();
    values.insert(ValueId(0), Value::Resource(spine));
    values.insert(ValueId(1), Value::Resource(replacement));
    let destination = place(0, field(SESSION, 0));
    assert_refused_without_mutation(
        &mut interpreter,
        &mut values,
        &destination,
        ValueId(1),
        &[replacement],
        "destination traversed through a stale resource",
    );
}

#[test]
fn a_successful_nested_generic_store_transfers_every_resource_once() {
    let module = module();
    let mut interpreter = Interpreter::new(&module);
    let first = interpreter
        .resources
        .construct(FILE, vec![Value::Int(1)]);
    let second = interpreter
        .resources
        .construct(FILE, vec![Value::Int(2)]);
    let (mut values, destination) = destination_typed(
        Ty::Named(MIXED, Symbol(0)),
        Value::Record {
            item: MIXED,
            type_args: Vec::new(),
            fields: vec![
                Value::Resource(first),
                Value::Variant {
                    item: MAYBE,
                    type_args: vec![Ty::Named(FILE, Symbol(0))],
                    case: 0,
                    payload: vec![Value::Resource(second)],
                },
            ],
        },
    );

    interpreter
        .store_place_transfer(&mut values, &IdMap::new(), &destination, ValueId(1))
        .expect("a well-formed nested store must succeed");

    for stale in [first, second] {
        assert!(
            interpreter.resources.observe(stale).is_err(),
            "each transferred identity must have moved exactly once"
        );
    }
    assert_eq!(values.get(&ValueId(1)), Some(&Value::Moved));
    let stored = values.remove(&ValueId(0)).expect("the destination");
    assert!(
        interpreter
            .is_affine_value(&stored)
            .expect("well-formed metadata"),
        "the destination owns the transferred graph"
    );
    interpreter
        .drop_value(&stored)
        .expect("destroying the new owner must succeed exactly once");
}

fn own(interpreter: &mut Interpreter<'_>, owner: ResourceHandle, child: Value) {
    interpreter.resources.records[owner.id.0 as usize].fields = vec![child];
}

fn session(interpreter: &mut Interpreter<'_>) -> ResourceHandle {
    interpreter
        .resources
        .construct(SESSION, vec![Value::Moved])
}

fn nest(interpreter: &mut Interpreter<'_>, inner: ResourceHandle) -> ResourceHandle {
    interpreter
        .resources
        .construct(NEST, vec![Value::Resource(inner)])
}

fn a_file(interpreter: &mut Interpreter<'_>, descriptor: i128) -> ResourceHandle {
    interpreter
        .resources
        .construct(FILE, vec![Value::Int(descriptor)])
}

#[test]
fn a_duplicate_reached_through_a_resource_and_directly_is_refused() {
    let module = module();
    let mut interpreter = Interpreter::new(&module);
    let shared = a_file(&mut interpreter, 1);
    let owner = session(&mut interpreter);
    own(&mut interpreter, owner, Value::Resource(shared));
    let (mut values, destination) = destination_typed(
        Ty::Named(LINKED, Symbol(0)),
        Value::Record {
            item: LINKED,
            type_args: Vec::new(),
            fields: vec![Value::Resource(owner), Value::Resource(shared)],
        },
    );
    assert_refused_without_mutation(
        &mut interpreter,
        &mut values,
        &destination,
        ValueId(1),
        &[shared, owner],
        "one identity owned both directly and through a resource",
    );
}

#[test]
fn a_duplicate_nested_several_levels_down_is_refused() {
    let module = module();
    let mut interpreter = Interpreter::new(&module);
    let shared = a_file(&mut interpreter, 1);
    let inner = session(&mut interpreter);
    own(&mut interpreter, inner, Value::Resource(shared));
    let outer = nest(&mut interpreter, inner);
    let (mut values, destination) = destination_typed(
        Ty::Named(LINKED, Symbol(0)),
        Value::Record {
            item: LINKED,
            type_args: Vec::new(),
            fields: vec![Value::Resource(inner), Value::Resource(shared)],
        },
    );
    values.insert(ValueId(4), Value::Resource(outer));
    assert_refused_without_mutation(
        &mut interpreter,
        &mut values,
        &destination,
        ValueId(1),
        &[shared, inner, outer],
        "the same identity twice, two levels apart",
    );
}

#[test]
fn a_source_descendant_that_is_the_destination_spine_is_refused() {
    let module = module();
    let mut interpreter = Interpreter::new(&module);
    let spine = session(&mut interpreter);
    let carrier = nest(&mut interpreter, spine);
    let mut values = Frame::new();
    values.insert(ValueId(0), Value::Resource(spine));
    values.insert(ValueId(2), Value::Resource(carrier));
    let destination = place(0, field(SESSION, 0));
    assert_refused_without_mutation(
        &mut interpreter,
        &mut values,
        &destination,
        ValueId(2),
        &[spine, carrier],
        "a source descendant that is the destination's own spine",
    );
}

#[test]
fn a_destination_descendant_that_is_in_the_source_is_refused() {
    let module = module();
    let mut interpreter = Interpreter::new(&module);
    let shared = a_file(&mut interpreter, 1);
    let mut values = Frame::new();
    values.insert(
        ValueId(0),
        Value::Record {
            item: HOLDERS,
            type_args: Vec::new(),
            fields: vec![
                Value::Record {
                    item: HOLDER,
                    type_args: Vec::new(),
                    fields: vec![Value::Moved],
                },
                Value::Record {
                    item: HOLDER,
                    type_args: Vec::new(),
                    fields: vec![Value::Resource(shared)],
                },
            ],
        },
    );
    values.insert(ValueId(1), Value::Resource(shared));
    let destination = Place {
        root: ValueId(0),
        projections: vec![
            Projection::Field {
                owner: HOLDERS,
                field: FieldId(0),
            },
            Projection::Field {
                owner: HOLDER,
                field: FieldId(0),
            },
        ],
    };
    assert_refused_without_mutation(
        &mut interpreter,
        &mut values,
        &destination,
        ValueId(1),
        &[shared],
        "a destination descendant that is also in the source",
    );
}

#[test]
fn a_direct_ownership_cycle_is_refused() {
    let module = module();
    let mut interpreter = Interpreter::new(&module);
    let spine = session(&mut interpreter);
    let mut values = Frame::new();
    values.insert(ValueId(0), Value::Resource(spine));
    values.insert(ValueId(2), Value::Resource(spine));
    let destination = place(0, field(SESSION, 0));
    assert_refused_without_mutation(
        &mut interpreter,
        &mut values,
        &destination,
        ValueId(2),
        &[spine],
        "a resource stored into itself",
    );
}

#[test]
fn an_indirect_ownership_cycle_is_refused() {
    let module = module();
    let mut interpreter = Interpreter::new(&module);
    let spine = session(&mut interpreter);
    let middle = nest(&mut interpreter, spine);
    let mut values = Frame::new();
    values.insert(ValueId(0), Value::Resource(spine));
    values.insert(ValueId(2), Value::Resource(middle));
    let destination = place(0, field(SESSION, 0));
    assert_refused_without_mutation(
        &mut interpreter,
        &mut values,
        &destination,
        ValueId(2),
        &[spine, middle],
        "an ownership cycle two links long",
    );
}

#[test]
fn a_stale_child_inside_a_resource_is_refused() {
    let module = module();
    let mut interpreter = Interpreter::new(&module);
    let stale = a_file(&mut interpreter, 1);
    let carrier = session(&mut interpreter);
    own(&mut interpreter, carrier, Value::Resource(stale));
    let _ = interpreter
        .resources
        .transfer(stale)
        .expect("transferring to create a stale nested handle");
    let (mut values, destination) =
        destination_typed(Ty::Named(SESSION, Symbol(0)), Value::Resource(carrier));
    assert_refused_without_mutation(
        &mut interpreter,
        &mut values,
        &destination,
        ValueId(1),
        &Vec::new(),
        "a stale handle nested inside the resource being transferred",
    );
}

#[test]
fn a_malformed_value_nested_inside_a_resource_is_refused() {
    let module = module();
    let mut interpreter = Interpreter::new(&module);
    let carrier = session(&mut interpreter);
    own(&mut interpreter, carrier, Value::Int(7));
    let (mut values, destination) =
        destination_typed(Ty::Named(SESSION, Symbol(0)), Value::Resource(carrier));
    assert_refused_without_mutation(
        &mut interpreter,
        &mut values,
        &destination,
        ValueId(1),
        &Vec::new(),
        "a nested value disagreeing with the resource's own declaration",
    );
}

#[test]
fn a_nested_child_keeps_its_own_generation_when_its_parent_moves() {
    let module = module();
    let mut interpreter = Interpreter::new(&module);
    let child = a_file(&mut interpreter, 1);
    let carrier = session(&mut interpreter);
    own(&mut interpreter, carrier, Value::Resource(child));
    let before = interpreter.resources.records[child.id.0 as usize].generation;
    let (mut values, destination) =
        destination_typed(Ty::Named(SESSION, Symbol(0)), Value::Resource(carrier));

    interpreter
        .store_place_transfer(&mut values, &IdMap::new(), &destination, ValueId(1))
        .expect("a well-formed nested transfer must succeed");

    assert_eq!(
        interpreter.resources.records[child.id.0 as usize].generation,
        before,
        "ownership of the child never crossed the boundary, so its handle stays current"
    );
    assert!(
        interpreter.resources.observe(child).is_ok(),
        "the child is still reachable through its unchanged handle"
    );
    assert!(
        interpreter.resources.observe(carrier).is_err(),
        "the carrier's own handle moved, so the caller's copy is stale"
    );
    let stored = values.remove(&ValueId(0)).expect("the destination");
    interpreter
        .drop_value(&stored)
        .expect("destroying the new owner must succeed exactly once");
}
