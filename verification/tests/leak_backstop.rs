use napitia::ids::{ItemId, Symbol, TypeParamId, ValueId};
use napitia::idmap::IdSet;
use napitia::interpreter::Interpreter;
use napitia::program::{CaseLayout, Module, RecordLayout, VariantLayout};
use napitia::types::Ty;
use napitia::value::{ResourceHandle, Value};
use napitia::value_ops::Frame;

const FILE: ItemId = ItemId(150);
const SESSION: ItemId = ItemId(151);
const BOXY: ItemId = ItemId(152);
const MAYBE: ItemId = ItemId(153);

fn module() -> Module {
    let name = Symbol(0);
    let param = TypeParamId(0);
    Module {
        functions: Vec::new(),
        records: vec![
            (
                FILE,
                RecordLayout {
                    name,
                    type_params: Vec::new(),
                    fields: vec![(name, Ty::I64)],
                    affine: true,
                },
            ),
            (
                SESSION,
                RecordLayout {
                    name,
                    type_params: Vec::new(),
                    fields: vec![(name, Ty::Named(FILE, name))],
                    affine: true,
                },
            ),
            (
                BOXY,
                RecordLayout {
                    name,
                    type_params: vec![(param, name)],
                    fields: vec![(name, Ty::Param(param, name))],
                    affine: false,
                },
            ),
        ],
        variants: vec![(
            MAYBE,
            VariantLayout {
                name,
                type_params: vec![(param, name)],
                cases: vec![
                    CaseLayout {
                        name,
                        payload: vec![Ty::Param(param, name)],
                    },
                    CaseLayout {
                        name,
                        payload: Vec::new(),
                    },
                ],
            },
        )],
        protocols: Vec::new(),
        extends: Vec::new(),
    }
}

fn file(interpreter: &mut Interpreter<'_>, descriptor: i128) -> ResourceHandle {
    interpreter
        .resources
        .construct(FILE, vec![Value::Int(descriptor)])
}

fn boxed(value: Value, held: Ty) -> Value {
    Value::Record {
        item: BOXY,
        type_args: vec![held],
        fields: vec![value],
    }
}

fn frame(entries: Vec<(u32, Value)>) -> Frame {
    let mut frame = Frame::new();
    for (id, value) in entries {
        frame.insert(ValueId(id), value);
    }
    frame
}

#[test]
fn a_resource_nested_in_a_record_is_reported() {
    let module = module();
    let mut interpreter = Interpreter::new(&module);
    let owned = file(&mut interpreter, 1);
    let values = frame(vec![(
        7,
        boxed(Value::Resource(owned), Ty::Named(FILE, Symbol(0))),
    )]);
    assert_eq!(
        interpreter.leaked_resource(&values, &IdSet::new(), &IdSet::new()),
        Some(ValueId(7)),
        "a `Box[File]` abandoned at an exit still owns its `File`"
    );
}

#[test]
fn a_resource_nested_in_a_variant_is_reported() {
    let module = module();
    let mut interpreter = Interpreter::new(&module);
    let owned = file(&mut interpreter, 1);
    let values = frame(vec![(
        3,
        Value::Variant {
            item: MAYBE,
            type_args: vec![Ty::Named(FILE, Symbol(0))],
            case: 0,
            payload: vec![Value::Resource(owned)],
        },
    )]);
    assert_eq!(
        interpreter.leaked_resource(&values, &IdSet::new(), &IdSet::new()),
        Some(ValueId(3)),
        "an active case's payload is owned exactly like a bare handle"
    );
}

#[test]
fn a_resource_nested_several_levels_down_is_reported() {
    let module = module();
    let mut interpreter = Interpreter::new(&module);
    let owned = file(&mut interpreter, 1);
    let values = frame(vec![(
        2,
        boxed(
            Value::Variant {
                item: MAYBE,
                type_args: vec![Ty::Named(FILE, Symbol(0))],
                case: 0,
                payload: vec![Value::Resource(owned)],
            },
            Ty::Applied(MAYBE, vec![Ty::Named(FILE, Symbol(0))]),
        ),
    )]);
    assert_eq!(
        interpreter.leaked_resource(&values, &IdSet::new(), &IdSet::new()),
        Some(ValueId(2)),
        "depth changes nothing about who owns it"
    );
}

#[test]
fn an_observing_view_is_never_reported() {
    let module = module();
    let mut interpreter = Interpreter::new(&module);
    let owned = file(&mut interpreter, 1);
    let view = interpreter
        .to_observer_if_resource(&boxed(Value::Resource(owned), Ty::Named(FILE, Symbol(0))))
        .expect("observing a well-formed value must succeed");
    let values = frame(vec![(1, view)]);
    assert_eq!(
        interpreter.leaked_resource(&values, &IdSet::new(), &IdSet::new()),
        None,
        "this frame never owned what an observing view points at"
    );
}

#[test]
fn a_fully_destroyed_aggregate_is_never_reported() {
    let module = module();
    let mut interpreter = Interpreter::new(&module);
    let owned = file(&mut interpreter, 1);
    let value = boxed(Value::Resource(owned), Ty::Named(FILE, Symbol(0)));
    interpreter
        .drop_value(&value)
        .expect("destroying a well-formed aggregate must succeed");
    let values = frame(vec![(1, Value::Moved)]);
    assert_eq!(
        interpreter.leaked_resource(&values, &IdSet::new(), &IdSet::new()),
        None,
        "nothing is left to leak"
    );
}

#[test]
fn the_lowest_owning_value_id_is_reported_whatever_the_map_order() {
    let module = module();
    let mut interpreter = Interpreter::new(&module);
    let first = file(&mut interpreter, 1);
    let second = file(&mut interpreter, 2);
    let values = frame(vec![
        (9, boxed(Value::Resource(first), Ty::Named(FILE, Symbol(0)))),
        (
            4,
            boxed(Value::Resource(second), Ty::Named(FILE, Symbol(0))),
        ),
        (2, Value::Int(0)),
    ]);
    assert_eq!(
        interpreter.leaked_resource(&values, &IdSet::new(), &IdSet::new()),
        Some(ValueId(4)),
        "the lowest owning id, deterministically, never whatever the map yields first"
    );
}

#[test]
fn a_resource_owning_itself_terminates_and_is_reported_once() {
    let module = module();
    let mut interpreter = Interpreter::new(&module);
    let owner = interpreter
        .resources
        .construct(SESSION, vec![Value::Moved]);
    interpreter.resources.records[owner.id.0 as usize].fields =
        vec![Value::Resource(owner)];
    let values = frame(vec![(5, Value::Resource(owner))]);
    assert_eq!(
        interpreter.leaked_resource(&values, &IdSet::new(), &IdSet::new()),
        Some(ValueId(5)),
        "a cycle must terminate, and it is still a leak"
    );
}

#[test]
fn a_stale_handle_owning_a_live_child_is_still_reported() {
    let module = module();
    let mut interpreter = Interpreter::new(&module);
    let child = file(&mut interpreter, 1);
    let owner = interpreter
        .resources
        .construct(SESSION, vec![Value::Resource(child)]);
    let _ = interpreter
        .resources
        .transfer(owner)
        .expect("transferring to make the outer handle stale");
    let values = frame(vec![(6, Value::Resource(owner))]);
    assert_eq!(
        interpreter.leaked_resource(&values, &IdSet::new(), &IdSet::new()),
        None,
        "a stale handle owns nothing: the current owner holds the record"
    );
}
