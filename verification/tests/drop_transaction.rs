use napitia::ids::{ItemId, Symbol, TypeParamId};
use napitia::interpreter::Interpreter;
use napitia::program::{CaseLayout, Module, RecordLayout, VariantLayout};
use napitia::table::ResourceStatus;
use napitia::types::Ty;
use napitia::value::{InterpreterError, ResourceHandle, Value};

const FILE: ItemId = ItemId(70);
const SESSION: ItemId = ItemId(71);
const ENVELOPE: ItemId = ItemId(72);
const BOXY: ItemId = ItemId(73);
const MAYBE: ItemId = ItemId(74);
const PAIR: ItemId = ItemId(75);

fn module() -> Module {
    let name = Symbol(0);
    let param = TypeParamId(0);
    Module {
        functions: Vec::new(),
        records: vec![
            (
                FILE,
                RecordLayout {
                    name,
                    type_params: Vec::new(),
                    fields: vec![(name, Ty::I64)],
                    affine: true,
                },
            ),
            (
                SESSION,
                RecordLayout {
                    name,
                    type_params: Vec::new(),
                    fields: vec![(name, Ty::Named(FILE, name))],
                    affine: true,
                },
            ),
            (
                ENVELOPE,
                RecordLayout {
                    name,
                    type_params: Vec::new(),
                    fields: vec![(name, Ty::Named(FILE, name))],
                    affine: false,
                },
            ),
            (
                BOXY,
                RecordLayout {
                    name,
                    type_params: vec![(param, name)],
                    fields: vec![(name, Ty::Param(param, name))],
                    affine: false,
                },
            ),
            (
                PAIR,
                RecordLayout {
                    name,
                    type_params: Vec::new(),
                    fields: vec![(name, Ty::Named(FILE, name)), (name, Ty::Named(FILE, name))],
                    affine: false,
                },
            ),
        ],
        variants: vec![(
            MAYBE,
            VariantLayout {
                name,
                type_params: vec![(param, name)],
                cases: vec![
                    CaseLayout {
                        name,
                        payload: vec![Ty::Param(param, name)],
                    },
                    CaseLayout {
                        name,
                        payload: Vec::new(),
                    },
                ],
            },
        )],
        protocols: Vec::new(),
        extends: Vec::new(),
    }
}

fn file(interpreter: &mut Interpreter<'_>, descriptor: i128) -> ResourceHandle {
    interpreter
        .resources
        .construct(FILE, vec![Value::Int(descriptor)])
}

type RecordState = (ItemId, u64, bool, Vec<Value>);

fn snapshot(interpreter: &Interpreter<'_>) -> (Vec<RecordState>, Vec<String>) {
    let table: Vec<RecordState> = interpreter
        .resources
        .records
        .iter()
        .map(|r| {
            (
                r.item,
                r.generation,
                r.status == ResourceStatus::Alive,
                r.fields.clone(),
            )
        })
        .collect();
    (table, interpreter.event_log())
}

fn assert_refused_without_mutation(interpreter: &mut Interpreter<'_>, value: Value, what: &str) {
    let before = snapshot(interpreter);
    let result = interpreter.drop_value(&value);
    assert!(
        matches!(result, Err(InterpreterError::InvalidOperation(_))),
        "{what}: expected a structured error, got {result:?}"
    );
    assert_eq!(
        before,
        snapshot(interpreter),
        "{what}: a refused destruction changed the resource table or the event log"
    );
}

#[test]
fn a_resource_with_an_extra_runtime_field_is_refused_and_leaks_nothing() {
    let module = module();
    let mut interpreter = Interpreter::new(&module);
    let leaked = file(&mut interpreter, 1);
    let handle = interpreter
        .resources
        .construct(SESSION, vec![Value::Int(0), Value::Resource(leaked)]);
    assert_refused_without_mutation(
        &mut interpreter,
        Value::Resource(handle),
        "resource with an extra runtime field",
    );
    assert!(
        interpreter.resources.observe(leaked).is_ok(),
        "the resource in the extra field must still be alive and reachable"
    );
}

#[test]
fn a_resource_with_a_missing_runtime_field_is_refused() {
    let module = module();
    let mut interpreter = Interpreter::new(&module);
    let handle = interpreter
        .resources
        .construct(SESSION, Vec::new());
    assert_refused_without_mutation(
        &mut interpreter,
        Value::Resource(handle),
        "resource with a missing runtime field",
    );
}

#[test]
fn a_record_with_a_missing_generic_type_argument_is_refused() {
    let module = module();
    let mut interpreter = Interpreter::new(&module);
    let live = file(&mut interpreter, 1);
    assert_refused_without_mutation(
        &mut interpreter,
        Value::Record {
            item: BOXY,
            type_args: Vec::new(),
            fields: vec![Value::Resource(live)],
        },
        "missing generic type argument",
    );
    assert!(interpreter.resources.observe(live).is_ok());
}

#[test]
fn a_record_with_an_extra_generic_type_argument_is_refused() {
    let module = module();
    let mut interpreter = Interpreter::new(&module);
    let live = file(&mut interpreter, 1);
    assert_refused_without_mutation(
        &mut interpreter,
        Value::Record {
            item: BOXY,
            type_args: vec![Ty::I64, Ty::I64],
            fields: vec![Value::Resource(live)],
        },
        "extra generic type argument",
    );
    assert!(interpreter.resources.observe(live).is_ok());
}

#[test]
fn a_nested_malformed_record_is_refused_before_its_valid_sibling_is_destroyed() {
    let module = module();
    let mut interpreter = Interpreter::new(&module);
    let good = file(&mut interpreter, 1);
    let inner = file(&mut interpreter, 2);
    assert_refused_without_mutation(
        &mut interpreter,
        Value::Record {
            item: ENVELOPE,
            type_args: Vec::new(),
            fields: vec![Value::Record {
                item: ENVELOPE,
                type_args: Vec::new(),
                fields: vec![Value::Resource(inner), Value::Resource(good)],
            }],
        },
        "nested malformed record",
    );
    for handle in [good, inner] {
        assert!(interpreter.resources.observe(handle).is_ok());
    }
}

#[test]
fn a_nested_malformed_variant_is_refused() {
    let module = module();
    let mut interpreter = Interpreter::new(&module);
    let live = file(&mut interpreter, 1);
    assert_refused_without_mutation(
        &mut interpreter,
        Value::Record {
            item: ENVELOPE,
            type_args: Vec::new(),
            fields: vec![Value::Variant {
                item: MAYBE,
                type_args: vec![Ty::Named(FILE, Symbol(0))],
                case: 0,
                payload: vec![Value::Resource(live), Value::Int(9)],
            }],
        },
        "nested malformed variant",
    );
    assert!(interpreter.resources.observe(live).is_ok());
}

#[test]
fn a_variant_naming_an_invalid_active_case_is_refused() {
    let module = module();
    let mut interpreter = Interpreter::new(&module);
    assert_refused_without_mutation(
        &mut interpreter,
        Value::Variant {
            item: MAYBE,
            type_args: vec![Ty::Named(FILE, Symbol(0))],
            case: 7,
            payload: Vec::new(),
        },
        "invalid active case",
    );
}

#[test]
fn a_duplicate_resource_handle_in_two_fields_is_refused() {
    let module = module();
    let mut interpreter = Interpreter::new(&module);
    let shared = file(&mut interpreter, 1);
    assert_refused_without_mutation(
        &mut interpreter,
        Value::Record {
            item: PAIR,
            type_args: Vec::new(),
            fields: vec![Value::Resource(shared), Value::Resource(shared)],
        },
        "duplicate identity in two fields",
    );
    assert!(interpreter.resources.observe(shared).is_ok());
}

#[test]
fn a_stale_child_after_a_valid_sibling_is_refused_without_destroying_the_sibling() {
    let module = module();
    let mut interpreter = Interpreter::new(&module);
    let good = file(&mut interpreter, 1);
    let stale = file(&mut interpreter, 2);
    let _ = interpreter
        .resources
        .transfer(stale)
        .expect("transferring to create a stale handle");
    assert_refused_without_mutation(
        &mut interpreter,
        Value::Record {
            item: PAIR,
            type_args: Vec::new(),
            fields: vec![Value::Resource(good), Value::Resource(stale)],
        },
        "stale child after a valid sibling",
    );
    assert!(
        interpreter.resources.observe(good).is_ok(),
        "the valid sibling must not have been destroyed"
    );
}

#[test]
fn an_already_dropped_nested_child_is_skipped_not_destroyed_twice() {
    let module = module();
    let mut interpreter = Interpreter::new(&module);
    let live = file(&mut interpreter, 1);
    let session = interpreter
        .resources
        .construct(SESSION, vec![Value::Dropped]);
    interpreter
        .drop_value(&Value::Resource(session))
        .expect("a tombstoned child is skipped, not destroyed again");
    assert!(interpreter.resources.observe(session).is_err());
    assert!(
        interpreter.resources.observe(live).is_ok(),
        "an unrelated resource is untouched"
    );
}

#[test]
fn a_deeply_nested_generic_graph_is_destroyed_in_exact_order() {
    let module = module();
    let mut interpreter = Interpreter::new(&module);
    let first = file(&mut interpreter, 1);
    let second = file(&mut interpreter, 2);
    let session = interpreter
        .resources
        .construct(SESSION, vec![Value::Resource(second)]);
    let graph = Value::Record {
        item: BOXY,
        type_args: vec![Ty::Applied(MAYBE, vec![Ty::Named(SESSION, Symbol(0))])],
        fields: vec![Value::Variant {
            item: MAYBE,
            type_args: vec![Ty::Named(SESSION, Symbol(0))],
            case: 0,
            payload: vec![Value::Resource(session)],
        }],
    };
    interpreter
        .drop_value(&graph)
        .expect("a well-formed nested generic graph must be destroyed");
    assert_eq!(
        interpreter.event_log(),
        vec![
            format!("drop:{}", second.id.0),
            format!("drop:{}", session.id.0)
        ],
        "the session's own child is destroyed before its outer identity"
    );
    assert!(
        interpreter.resources.observe(first).is_ok(),
        "an unrelated resource is untouched"
    );
}

#[test]
fn a_refused_destruction_reports_the_identical_error_every_time() {
    let module = module();
    let mut interpreter = Interpreter::new(&module);
    let live = file(&mut interpreter, 1);
    let malformed = || Value::Record {
        item: BOXY,
        type_args: Vec::new(),
        fields: vec![Value::Resource(live)],
    };
    let first = interpreter.drop_value(&malformed());
    let second = interpreter.drop_value(&malformed());
    assert_eq!(first, second, "the refusal must be deterministic");
    assert!(interpreter.resources.observe(live).is_ok());
}
