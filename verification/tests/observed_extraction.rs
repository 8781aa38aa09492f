use napitia::ids::{BlockId, FieldId, ItemId, Symbol, TypeParamId, ValueId};
use napitia::idmap::IdMap;
use napitia::interpreter::Interpreter;
use napitia::program::{
    BasicBlock, CaseLayout, Const, Function, Instruction, Module, OwnershipMode, Param, Place,
    RecordLayout, Terminator, ValueKind, VariantLayout,
};
use napitia::table::ResourceStatus;
use napitia::types::{Substitution, Ty};
use napitia::value::{InterpreterError, ResourceHandle, RuntimeOwnershipRole, Value};
use napitia::value_ops::Frame;

const FILE: ItemId = ItemId(190);
const SESSION: ItemId = ItemId(191);
const BOXY: ItemId = ItemId(192);
const MAYBE: ItemId = ItemId(193);
const STEAL: ItemId = ItemId(194);
const HOLDER: ItemId = ItemId(195);
const CRATE: ItemId = ItemId(196);
const VAULT: ItemId = ItemId(197);
const SINK: ItemId = ItemId(198);

fn name() -> Symbol {
    Symbol(0)
}

fn param() -> TypeParamId {
    TypeParamId(0)
}

fn file_ty() -> Ty {
    Ty::Named(FILE, name())
}

fn session_ty() -> Ty {
    Ty::Named(SESSION, name())
}

fn module() -> Module {
    Module {
        functions: vec![Function {
            id: SINK,
            name: name(),
            type_params: Vec::new(),
            requirements: Vec::new(),
            params: vec![Param {
                value: ValueId(0),
                ty: file_ty(),
                take: true,
            }],
            return_type: Ty::I64,
            raises: Vec::new(),
            blocks: vec![BasicBlock {
                id: BlockId(0),
                instructions: vec![
                    Instruction::Drop { value: ValueId(0) },
                    Instruction::Value {
                        result: ValueId(1),
                        ty: Ty::I64,
                        kind: ValueKind::Const(Const::Int(0)),
                    },
                ],
                terminator: Terminator::Return(Some(ValueId(1))),
            }],
        }],
        records: vec![
            (
                FILE,
                RecordLayout {
                    name: name(),
                    type_params: Vec::new(),
                    fields: vec![(name(), Ty::I64)],
                    affine: true,
                },
            ),
            (
                SESSION,
                RecordLayout {
                    name: name(),
                    type_params: Vec::new(),
                    fields: vec![(name(), file_ty())],
                    affine: true,
                },
            ),
            (
                HOLDER,
                RecordLayout {
                    name: name(),
                    type_params: Vec::new(),
                    fields: vec![(name(), file_ty())],
                    affine: false,
                },
            ),
            (
                CRATE,
                RecordLayout {
                    name: name(),
                    type_params: Vec::new(),
                    fields: vec![(name(), Ty::Applied(BOXY, vec![file_ty()]))],
                    affine: true,
                },
            ),
            (
                VAULT,
                RecordLayout {
                    name: name(),
                    type_params: Vec::new(),
                    fields: vec![(name(), Ty::Applied(MAYBE, vec![file_ty()]))],
                    affine: true,
                },
            ),
            (
                BOXY,
                RecordLayout {
                    name: name(),
                    type_params: vec![(param(), name())],
                    fields: vec![(name(), Ty::Param(param(), name()))],
                    affine: false,
                },
            ),
        ],
        variants: vec![(
            MAYBE,
            VariantLayout {
                name: name(),
                type_params: vec![(param(), name())],
                cases: vec![
                    CaseLayout {
                        name: name(),
                        payload: vec![Ty::Param(param(), name())],
                    },
                    CaseLayout {
                        name: name(),
                        payload: Vec::new(),
                    },
                ],
            },
        )],
        protocols: Vec::new(),
        extends: Vec::new(),
    }
}

fn observing(
    param_ty: Ty,
    return_type: Ty,
    body: Vec<Instruction>,
    tail: Terminator,
) -> Function {
    Function {
        id: STEAL,
        name: name(),
        type_params: Vec::new(),
        requirements: Vec::new(),
        params: vec![Param {
            value: ValueId(0),
            ty: param_ty,
            take: false,
        }],
        return_type,
        raises: Vec::new(),
        blocks: vec![BasicBlock {
            id: BlockId(0),
            instructions: body,
            terminator: tail,
        }],
    }
}

fn field_of(result: u32, base: u32, record: ItemId, field: usize, ty: Ty) -> Instruction {
    Instruction::Value {
        result: ValueId(result),
        ty,
        kind: ValueKind::RecordField {
            base: ValueId(base),
            record,
            field,
        },
    }
}

#[derive(Debug, PartialEq)]
struct Snapshot {
    records: usize,
    items: Vec<ItemId>,
    fields: Vec<Vec<Value>>,
    generations: Vec<u64>,
    statuses: Vec<ResourceStatus>,
}

fn snapshot(interpreter: &Interpreter<'_>) -> Snapshot {
    let table = &interpreter.resources;
    Snapshot {
        records: table.records.len(),
        items: table.records.iter().map(|r| r.item).collect(),
        fields: table.records.iter().map(|r| r.fields.clone()).collect(),
        generations: table.records.iter().map(|r| r.generation).collect(),
        statuses: table.records.iter().map(|r| r.status.clone()).collect(),
    }
}

fn read_field_through_observation(
    interpreter: &mut Interpreter<'_>,
    owner: ResourceHandle,
    record: ItemId,
    field: usize,
) -> Value {
    let observed = interpreter
        .to_observer_if_resource(&Value::Resource(owner))
        .expect("binding a non-take parameter is an observation");
    let mut values = Frame::new();
    values.insert(ValueId(0), observed);
    interpreter
        .eval(
            &ValueKind::RecordField {
                base: ValueId(0),
                record,
                field,
            },
            &values,
            &Vec::new(),
            &Substitution::new(),
        )
        .expect("reading a field of a live observation is legal")
}

fn live_session(interpreter: &mut Interpreter<'_>) -> ResourceHandle {
    let file = interpreter
        .resources
        .construct(FILE, vec![Value::Int(7)]);
    interpreter
        .resources
        .construct(SESSION, vec![Value::Resource(file)])
}

fn refused(function: &Function, what: &str) -> String {
    let module = module();
    let mut interpreter = Interpreter::new(&module);
    let session = live_session(&mut interpreter);
    let before = snapshot(&interpreter);

    let outcome = interpreter
        .call_function(function, &Vec::new(), vec![Value::Resource(session)], Vec::new())
        .map(|_| ());
    let message = match outcome {
        Err(InterpreterError::InvalidOperation(message)) => message,
        Err(other) => panic!("{what}: expected a structured InvalidOperation, got {other:?}"),
        Ok(()) => {
            panic!("{what}: the interpreter accepted an observation laundered into an owner")
        }
    };

    assert_eq!(
        snapshot(&interpreter),
        before,
        "{what}: a refused observation must leave every generation, field, status and record \
         exactly as it found them"
    );
    assert_eq!(
        interpreter.event_log(),
        vec![format!("call:{}", STEAL.0)],
        "{what}: a refused observation must append no event of its own"
    );
    assert!(
        interpreter.resources.observe(session).is_ok(),
        "{what}: the observed resource must still be alive and its handle still current"
    );

    let mut again = Interpreter::new(&module);
    let session_again = live_session(&mut again);
    let repeat = again
        .call_function(
            function,
            &Vec::new(),
            vec![Value::Resource(session_again)],
            Vec::new(),
        )
        .map(|_| ());
    match repeat {
        Err(InterpreterError::InvalidOperation(second)) => assert_eq!(
            second, message,
            "{what}: repeating the operation must produce the identical diagnostic"
        ),
        other => panic!("{what}: repeating the operation did not fail identically: {other:?}"),
    }
    message
}

#[test]
fn a_field_read_through_an_observed_resource_cannot_be_returned_as_an_owner() {
    let steal = observing(
        session_ty(),
        file_ty(),
        vec![field_of(1, 0, SESSION, 0, file_ty())],
        Terminator::Return(Some(ValueId(1))),
    );
    refused(
        &steal,
        "returning a field read through an observed resource",
    );
}

#[test]
fn the_extracted_value_is_an_observer_before_anything_consumes_it() {
    let module = module();
    let mut interpreter = Interpreter::new(&module);
    let session = live_session(&mut interpreter);
    let observed = interpreter
        .to_observer_if_resource(&Value::Resource(session))
        .expect("binding a non-take parameter is an observation");

    let mut values = Frame::new();
    values.insert(ValueId(0), observed);
    let extracted = interpreter
        .eval(
            &ValueKind::RecordField {
                base: ValueId(0),
                record: SESSION,
                field: 0,
            },
            &values,
            &Vec::new(),
            &Substitution::new(),
        )
        .expect("reading a field of a live observation is legal");

    match extracted {
        Value::Resource(handle) => assert_eq!(
            handle.role,
            RuntimeOwnershipRole::Observer,
            "a field read out of an observation must itself be an observation, got {handle:?}"
        ),
        other => panic!("expected a resource handle, got {other:?}"),
    }
}

#[test]
fn a_generic_aggregate_read_through_an_observed_resource_is_all_observers() {
    let module = module();
    let mut interpreter = Interpreter::new(&module);
    let file = interpreter
        .resources
        .construct(FILE, vec![Value::Int(1)]);
    let boxed = Value::Record {
        item: BOXY,
        type_args: vec![file_ty()],
        fields: vec![Value::Resource(file)],
    };
    let crate_handle = interpreter
        .resources
        .construct(CRATE, vec![boxed]);

    match read_field_through_observation(&mut interpreter, crate_handle, CRATE, 0) {
        Value::Record { fields, .. } => match fields.as_slice() {
            [Value::Resource(inner)] => assert_eq!(
                inner.role,
                RuntimeOwnershipRole::Observer,
                "a resource one generic aggregate deep must still be an observation"
            ),
            other => panic!("expected one nested resource, got {other:?}"),
        },
        other => panic!("expected the generic aggregate, got {other:?}"),
    }
}

#[test]
fn a_variant_read_through_an_observed_resource_is_all_observers() {
    let module = module();
    let mut interpreter = Interpreter::new(&module);
    let file = interpreter
        .resources
        .construct(FILE, vec![Value::Int(1)]);
    let held = Value::Variant {
        item: MAYBE,
        type_args: vec![file_ty()],
        case: 0,
        payload: vec![Value::Resource(file)],
    };
    let vault = interpreter
        .resources
        .construct(VAULT, vec![held]);

    match read_field_through_observation(&mut interpreter, vault, VAULT, 0) {
        Value::Variant { payload, .. } => match payload.as_slice() {
            [Value::Resource(inner)] => assert_eq!(
                inner.role,
                RuntimeOwnershipRole::Observer,
                "a resource one variant payload deep must still be an observation"
            ),
            other => panic!("expected one payload resource, got {other:?}"),
        },
        other => panic!("expected the variant, got {other:?}"),
    }
}

#[test]
fn a_resource_nested_in_an_observed_inline_aggregate_stays_an_observation() {
    let module = module();
    let mut interpreter = Interpreter::new(&module);
    let file = interpreter
        .resources
        .construct(FILE, vec![Value::Int(1)]);
    let holder = interpreter
        .to_observer_if_resource(&Value::Record {
            item: HOLDER,
            type_args: Vec::new(),
            fields: vec![Value::Resource(file)],
        })
        .expect("binding a non-take parameter is an observation");

    let mut values = Frame::new();
    values.insert(ValueId(0), holder);
    let extracted = interpreter
        .eval(
            &ValueKind::RecordField {
                base: ValueId(0),
                record: HOLDER,
                field: 0,
            },
            &values,
            &Vec::new(),
            &Substitution::new(),
        )
        .expect("reading a field of a live observation is legal");
    match extracted {
        Value::Resource(handle) => assert_eq!(
            handle.role,
            RuntimeOwnershipRole::Observer,
            "a resource inside an observed inline aggregate must stay an observation"
        ),
        other => panic!("expected a resource handle, got {other:?}"),
    }
}

#[test]
fn an_observing_place_read_never_hands_back_an_owner() {
    for through_an_observation in [true, false] {
        let module = module();
        let mut interpreter = Interpreter::new(&module);
        let session = live_session(&mut interpreter);
        let root = if through_an_observation {
            interpreter
                .to_observer_if_resource(&Value::Resource(session))
                .expect("an observation of a live resource is legal")
        } else {
            Value::Resource(session)
        };

        let mut values = Frame::new();
        values.insert(ValueId(0), root);
        let place = Place::root(ValueId(0)).field(SESSION, FieldId(0));
        let seen = interpreter
            .access_place(
                &mut values,
                &IdMap::new(),
                &place,
                OwnershipMode::Observe,
            )
            .expect("observing a live field is legal");
        match seen {
            Value::Resource(handle) => assert_eq!(
                handle.role,
                RuntimeOwnershipRole::Observer,
                "an observing place read must never hand back an owner \
                 (through an observation: {through_an_observation})"
            ),
            other => panic!("expected a resource handle, got {other:?}"),
        }
        assert!(
            interpreter.resources.observe(session).is_ok(),
            "an observing read must leave its own root alive and current"
        );
    }
}

#[test]
fn dropping_a_field_read_through_an_observation_is_refused() {
    let steal = observing(
        session_ty(),
        Ty::I64,
        vec![
            field_of(1, 0, SESSION, 0, file_ty()),
            Instruction::Drop { value: ValueId(1) },
            Instruction::Value {
                result: ValueId(2),
                ty: Ty::I64,
                kind: ValueKind::Const(Const::Int(0)),
            },
        ],
        Terminator::Return(Some(ValueId(2))),
    );
    refused(&steal, "dropping a field read through an observation");
}

#[test]
fn moving_a_field_read_through_an_observation_is_refused() {
    let steal = observing(
        session_ty(),
        file_ty(),
        vec![
            field_of(1, 0, SESSION, 0, file_ty()),
            Instruction::Value {
                result: ValueId(2),
                ty: file_ty(),
                kind: ValueKind::Move { source: ValueId(1) },
            },
        ],
        Terminator::Return(Some(ValueId(2))),
    );
    refused(&steal, "moving a field read through an observation");
}

#[test]
fn handing_a_field_read_through_an_observation_to_a_take_parameter_is_refused() {
    let steal = observing(
        session_ty(),
        Ty::I64,
        vec![
            field_of(1, 0, SESSION, 0, file_ty()),
            Instruction::Value {
                result: ValueId(2),
                ty: Ty::I64,
                kind: ValueKind::Call(SINK, Vec::new(), vec![ValueId(1)], Vec::new()),
            },
        ],
        Terminator::Return(Some(ValueId(2))),
    );
    refused(
        &steal,
        "handing a field read through an observation to a `take` parameter",
    );
}

#[test]
fn reinitializing_through_an_observation_is_refused() {
    let steal = observing(
        session_ty(),
        Ty::I64,
        vec![
            Instruction::Value {
                result: ValueId(1),
                ty: Ty::I64,
                kind: ValueKind::Const(Const::Int(3)),
            },
            Instruction::Value {
                result: ValueId(2),
                ty: file_ty(),
                kind: ValueKind::RecordCreate(FILE, Vec::new(), vec![ValueId(1)]),
            },
            Instruction::StorePlace {
                place: Place::root(ValueId(0)).field(SESSION, FieldId(0)),
                value: ValueId(2),
            },
            Instruction::Value {
                result: ValueId(3),
                ty: Ty::I64,
                kind: ValueKind::Const(Const::Int(0)),
            },
        ],
        Terminator::Return(Some(ValueId(3))),
    );
    let module = module();
    let mut interpreter = Interpreter::new(&module);
    let session = live_session(&mut interpreter);
    let before = interpreter.resources.records[session.id.0 as usize]
        .fields
        .clone();
    let outcome = interpreter
        .call_function(&steal, &Vec::new(), vec![Value::Resource(session)], Vec::new())
        .map(|_| ());
    assert!(
        matches!(outcome, Err(InterpreterError::InvalidOperation(_))),
        "reinitializing a field of an observation must be refused, got {outcome:?}"
    );
    assert_eq!(
        interpreter.resources.records[session.id.0 as usize].fields,
        before,
        "a refused reinitialization must leave the observed field exactly as it was"
    );
}

#[test]
fn the_transferring_place_read_still_hands_back_a_real_owner() {
    let module = module();
    let mut interpreter = Interpreter::new(&module);
    let session = live_session(&mut interpreter);

    let mut values = Frame::new();
    values.insert(ValueId(0), Value::Resource(session));
    let place = Place::root(ValueId(0)).field(SESSION, FieldId(0));
    let moved = interpreter
        .access_place(
            &mut values,
            &IdMap::new(),
            &place,
            OwnershipMode::Transfer,
        )
        .expect("moving a field out of an owned resource is legal");
    match moved {
        Value::Resource(handle) => assert_eq!(
            handle.role,
            RuntimeOwnershipRole::Owner,
            "an explicit transfer must still produce an owner"
        ),
        other => panic!("expected a resource handle, got {other:?}"),
    }
    assert_eq!(
        interpreter.resources.records[session.id.0 as usize].fields,
        vec![Value::Moved],
        "a transfer must tombstone the storage it took from"
    );
}

#[test]
fn a_payload_read_of_an_observed_variant_is_already_an_observation() {
    let module = module();
    let mut interpreter = Interpreter::new(&module);
    let file = interpreter
        .resources
        .construct(FILE, vec![Value::Int(1)]);
    let owned = Value::Variant {
        item: MAYBE,
        type_args: vec![file_ty()],
        case: 0,
        payload: vec![Value::Resource(file)],
    };

    let payload = ValueKind::VariantPayload {
        base: ValueId(0),
        variant: MAYBE,
        case: 0,
        index: 0,
    };

    let mut owned_values = Frame::new();
    owned_values.insert(ValueId(0), owned.clone());
    match interpreter
        .eval(&payload, &owned_values, &Vec::new(), &Substitution::new())
        .expect("reading a payload of an owned variant is legal")
    {
        Value::Resource(handle) => assert_eq!(
            handle.role,
            RuntimeOwnershipRole::Owner,
            "decomposition still needs a real owner to hand ownership to"
        ),
        other => panic!("expected a resource handle, got {other:?}"),
    }

    let mut observed_values = Frame::new();
    observed_values.insert(
        ValueId(0),
        interpreter
            .to_observer_if_resource(&owned)
            .expect("an observation of a live variant is legal"),
    );
    match interpreter
        .eval(&payload, &observed_values, &Vec::new(), &Substitution::new())
        .expect("reading a payload of an observed variant is legal")
    {
        Value::Resource(handle) => assert_eq!(
            handle.role,
            RuntimeOwnershipRole::Observer,
            "a payload read through an observation must stay an observation"
        ),
        other => panic!("expected a resource handle, got {other:?}"),
    }
}
