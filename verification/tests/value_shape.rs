use napitia::ids::{ItemId, Symbol, TypeParamId};
use napitia::interpreter::Interpreter;
use napitia::program::{CaseLayout, Module, RecordLayout, VariantLayout};
use napitia::table::ResourceStatus;
use napitia::types::Ty;
use napitia::value::{InterpreterError, ResourceHandle, Value};

const FILE: ItemId = ItemId(120);
const WRAPPER: ItemId = ItemId(121);
const HOLDER: ItemId = ItemId(122);
const BOXY: ItemId = ItemId(123);
const MAYBE: ItemId = ItemId(124);
const OTHER: ItemId = ItemId(125);

fn module() -> Module {
    let name = Symbol(0);
    let param = TypeParamId(0);
    let resource_with_int = |affine| RecordLayout {
        name,
        type_params: Vec::new(),
        fields: vec![(name, Ty::I64)],
        affine,
    };
    Module {
        functions: Vec::new(),
        records: vec![
            (FILE, resource_with_int(true)),
            (WRAPPER, resource_with_int(true)),
            (OTHER, resource_with_int(false)),
            (
                HOLDER,
                RecordLayout {
                    name,
                    type_params: Vec::new(),
                    fields: vec![(name, Ty::Named(FILE, name))],
                    affine: false,
                },
            ),
            (
                BOXY,
                RecordLayout {
                    name,
                    type_params: vec![(param, name)],
                    fields: vec![(name, Ty::Param(param, name))],
                    affine: false,
                },
            ),
        ],
        variants: vec![(
            MAYBE,
            VariantLayout {
                name,
                type_params: vec![(param, name)],
                cases: vec![
                    CaseLayout {
                        name,
                        payload: vec![Ty::Param(param, name)],
                    },
                    CaseLayout {
                        name,
                        payload: Vec::new(),
                    },
                ],
            },
        )],
        protocols: Vec::new(),
        extends: Vec::new(),
    }
}

fn file(interpreter: &mut Interpreter<'_>, descriptor: i128) -> ResourceHandle {
    interpreter
        .resources
        .construct(FILE, vec![Value::Int(descriptor)])
}

type RecordState = (ItemId, u64, bool, Vec<Value>);

fn snapshot(interpreter: &Interpreter<'_>) -> (Vec<RecordState>, Vec<String>) {
    let table: Vec<RecordState> = interpreter
        .resources
        .records
        .iter()
        .map(|r| {
            (
                r.item,
                r.generation,
                r.status == ResourceStatus::Alive,
                r.fields.clone(),
            )
        })
        .collect();
    (table, interpreter.event_log())
}

fn assert_refused_without_mutation(interpreter: &mut Interpreter<'_>, value: Value, what: &str) {
    let before = snapshot(interpreter);
    let result = interpreter.drop_value(&value.clone());
    assert!(
        matches!(result, Err(InterpreterError::InvalidOperation(_))),
        "{what}: expected a structured error, got {result:?}"
    );
    assert_eq!(
        before,
        snapshot(interpreter),
        "{what}: a refused destruction changed the resource table or the event log"
    );
    let again = interpreter.drop_value(&value);
    assert_eq!(result, again, "{what}: the refusal is not deterministic");
    assert_eq!(
        before,
        snapshot(interpreter),
        "{what}: the retry mutated state"
    );
}

#[test]
fn a_resource_hidden_in_a_non_affine_field_is_refused_and_stays_alive() {
    let module = module();
    let mut interpreter = Interpreter::new(&module);
    let hidden = file(&mut interpreter, 1);
    let wrapper = interpreter
        .resources
        .construct(WRAPPER, vec![Value::Resource(hidden)]);
    assert_refused_without_mutation(
        &mut interpreter,
        Value::Resource(wrapper),
        "a resource hidden in an `i64` field",
    );
    assert!(
        interpreter.resources.observe(hidden).is_ok(),
        "the hidden resource must still be alive and reachable"
    );
}

#[test]
fn an_integer_in_a_resource_typed_field_is_refused() {
    let module = module();
    let mut interpreter = Interpreter::new(&module);
    assert_refused_without_mutation(
        &mut interpreter,
        Value::Record {
            item: HOLDER,
            type_args: Vec::new(),
            fields: vec![Value::Int(7)],
        },
        "an integer where a `File` is declared",
    );
}

#[test]
fn a_record_naming_the_wrong_declaration_is_refused() {
    let module = module();
    let mut interpreter = Interpreter::new(&module);
    let live = file(&mut interpreter, 1);
    assert_refused_without_mutation(
        &mut interpreter,
        Value::Record {
            item: HOLDER,
            type_args: Vec::new(),
            fields: vec![Value::Record {
                item: OTHER,
                type_args: Vec::new(),
                fields: vec![Value::Resource(live)],
            }],
        },
        "a record naming a different declaration than its position declares",
    );
    assert!(interpreter.resources.observe(live).is_ok());
}

#[test]
fn a_variant_naming_the_wrong_declaration_is_refused() {
    let module = module();
    let mut interpreter = Interpreter::new(&module);
    let live = file(&mut interpreter, 1);
    assert_refused_without_mutation(
        &mut interpreter,
        Value::Record {
            item: BOXY,
            type_args: vec![Ty::Applied(MAYBE, vec![Ty::Named(FILE, Symbol(0))])],
            fields: vec![Value::Variant {
                item: HOLDER,
                type_args: Vec::new(),
                case: 0,
                payload: vec![Value::Resource(live)],
            }],
        },
        "a variant naming a declaration the position does not declare",
    );
    assert!(interpreter.resources.observe(live).is_ok());
}

#[test]
fn a_resource_handle_of_the_wrong_declaration_is_refused() {
    let module = module();
    let mut interpreter = Interpreter::new(&module);
    let wrapper = interpreter
        .resources
        .construct(WRAPPER, vec![Value::Int(0)]);
    assert_refused_without_mutation(
        &mut interpreter,
        Value::Record {
            item: HOLDER,
            type_args: Vec::new(),
            fields: vec![Value::Resource(wrapper)],
        },
        "a resource handle of a different declaration",
    );
    assert!(interpreter.resources.observe(wrapper).is_ok());
}

#[test]
fn a_value_of_the_right_length_but_the_wrong_kind_is_refused() {
    let module = module();
    let mut interpreter = Interpreter::new(&module);
    let live = file(&mut interpreter, 1);
    assert_refused_without_mutation(
        &mut interpreter,
        Value::Variant {
            item: HOLDER,
            type_args: Vec::new(),
            case: 0,
            payload: vec![Value::Resource(live)],
        },
        "a variant value for a record declaration",
    );
    assert!(interpreter.resources.observe(live).is_ok());
}

#[test]
fn a_tombstone_in_a_non_affine_field_is_refused() {
    let module = module();
    let mut interpreter = Interpreter::new(&module);
    let wrapper = interpreter
        .resources
        .construct(WRAPPER, vec![Value::Moved]);
    assert_refused_without_mutation(
        &mut interpreter,
        Value::Resource(wrapper),
        "a tombstone where a non-affine field is declared",
    );
}

#[test]
fn a_tombstone_in_an_affine_field_is_accepted() {
    let module = module();
    let mut interpreter = Interpreter::new(&module);
    let untouched = file(&mut interpreter, 1);
    interpreter
        .drop_value(&Value::Record {
            item: HOLDER,
            type_args: Vec::new(),
            fields: vec![Value::Moved],
        })
        .expect("a partially moved aggregate destroys what is left");
    assert!(interpreter.resources.observe(untouched).is_ok());
}

#[test]
fn a_nested_generic_instantiation_is_validated_all_the_way_down() {
    let module = module();
    let mut interpreter = Interpreter::new(&module);
    let live = file(&mut interpreter, 1);
    assert_refused_without_mutation(
        &mut interpreter,
        Value::Record {
            item: BOXY,
            type_args: vec![Ty::Applied(MAYBE, vec![Ty::Named(FILE, Symbol(0))])],
            fields: vec![Value::Variant {
                item: MAYBE,
                type_args: vec![Ty::I64],
                case: 0,
                payload: vec![Value::Resource(live)],
            }],
        },
        "a nested instantiation disagreeing with the position it fills",
    );
    assert!(interpreter.resources.observe(live).is_ok());
}

#[test]
fn a_well_formed_nested_generic_graph_is_accepted() {
    let module = module();
    let mut interpreter = Interpreter::new(&module);
    let live = file(&mut interpreter, 1);
    interpreter
        .drop_value(&Value::Record {
            item: BOXY,
            type_args: vec![Ty::Applied(MAYBE, vec![Ty::Named(FILE, Symbol(0))])],
            fields: vec![Value::Variant {
                item: MAYBE,
                type_args: vec![Ty::Named(FILE, Symbol(0))],
                case: 0,
                payload: vec![Value::Resource(live)],
            }],
        })
        .expect("a well-formed nested generic graph must be destroyed");
    assert_eq!(
        interpreter.event_log(),
        vec![format!("drop:{}", live.id.0)],
        "exactly the one resource it owns"
    );
}

#[test]
fn a_resource_owning_itself_is_refused() {
    let module = module();
    let mut interpreter = Interpreter::new(&module);
    let outer = interpreter
        .resources
        .construct(HOLDER, vec![Value::Int(0)]);
    interpreter.resources.records[outer.id.0 as usize].fields =
        vec![Value::Resource(outer)];
    let before = snapshot(&interpreter);
    let result = interpreter.drop_value(&Value::Resource(outer));
    assert!(
        matches!(result, Err(InterpreterError::InvalidOperation(_))),
        "an ownership cycle must be refused, got {result:?}"
    );
    assert_eq!(
        before,
        snapshot(&interpreter),
        "a refused destruction changed state"
    );
}
