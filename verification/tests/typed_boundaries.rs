use napitia::frame::Outcome;
use napitia::idmap::IdMap;
use napitia::ids::{BlockId, FieldId, ItemId, Symbol, TypeParamId, ValueId};
use napitia::interpreter::Interpreter;
use napitia::program::{
    BasicBlock, Const, Function, Instruction, Module, OwnershipMode, Param, Place, RecordLayout,
    Terminator, ValueKind,
};
use napitia::table::ResourceStatus;
use napitia::types::Ty;
use napitia::value::Value;
use napitia::value_ops::Frame;

const FILE: ItemId = ItemId(190);
const SESSION: ItemId = ItemId(191);
const CALLER: ItemId = ItemId(192);
const CALLEE: ItemId = ItemId(193);

fn name() -> Symbol {
    Symbol(0)
}

fn file_ty() -> Ty {
    Ty::Named(FILE, name())
}

fn session_ty() -> Ty {
    Ty::Named(SESSION, name())
}

fn module() -> Module {
    Module {
        functions: Vec::new(),
        records: vec![
            (
                FILE,
                RecordLayout {
                    name: name(),
                    type_params: Vec::new(),
                    fields: vec![(name(), Ty::I64)],
                    affine: true,
                },
            ),
            (
                SESSION,
                RecordLayout {
                    name: name(),
                    type_params: Vec::new(),
                    fields: vec![(name(), file_ty())],
                    affine: true,
                },
            ),
        ],
        variants: Vec::new(),
        protocols: Vec::new(),
        extends: Vec::new(),
    }
}

fn integer(result: u32, value: u128) -> Instruction {
    Instruction::Value {
        result: ValueId(result),
        ty: Ty::I64,
        kind: ValueKind::Const(Const::Int(value)),
    }
}

fn make_file(konst: u32, result: u32) -> Vec<Instruction> {
    vec![
        integer(konst, 1),
        Instruction::Value {
            result: ValueId(result),
            ty: file_ty(),
            kind: ValueKind::RecordCreate(FILE, Vec::new(), vec![ValueId(konst)]),
        },
    ]
}

fn function(instructions: Vec<Instruction>, terminator: Terminator, ret: Ty) -> Function {
    Function {
        id: CALLER,
        name: name(),
        type_params: Vec::new(),
        requirements: Vec::new(),
        params: Vec::new(),
        return_type: ret,
        raises: Vec::new(),
        blocks: vec![BasicBlock {
            id: BlockId(0),
            instructions,
            terminator,
        }],
    }
}

fn refuse(function: &Function, args: Vec<Value>, what: &str) -> String {
    let module = module();
    let mut interpreter = Interpreter::new(&module);
    let error = interpreter
        .call_function(function, &Vec::new(), args, Vec::new())
        .map(|_| ())
        .expect_err(what);
    let table = &interpreter.resources;
    assert!(
        table
            .records
            .iter()
            .all(|record| record.status == ResourceStatus::Alive),
        "{what}: a refused operation destroys nothing"
    );
    assert!(
        table
            .records
            .iter()
            .flat_map(|record| record.fields.iter())
            .all(|field| !matches!(field, Value::Moved | Value::Dropped)),
        "{what}: a refused operation moves no field out of anything"
    );
    format!("{error:?}")
}

#[test]
fn a_store_refuses_a_value_of_the_wrong_declared_type() {
    let mut body = make_file(0, 1);
    body.push(Instruction::Value {
        result: ValueId(2),
        ty: session_ty(),
        kind: ValueKind::RecordCreate(SESSION, Vec::new(), vec![ValueId(1)]),
    });
    body.push(Instruction::Value {
        result: ValueId(3),
        ty: file_ty(),
        kind: ValueKind::Alloc,
    });
    body.push(Instruction::Store {
        slot: ValueId(3),
        value: ValueId(2),
        mode: OwnershipMode::Transfer,
    });
    let function = function(body, Terminator::Return(None), Ty::Unit);
    refuse(
        &function,
        Vec::new(),
        "a `Session` stored into a slot that declares `File`",
    );
}

#[test]
fn an_observing_store_refuses_a_value_of_the_wrong_declared_type() {
    let mut body = make_file(0, 1);
    body.push(Instruction::Value {
        result: ValueId(2),
        ty: session_ty(),
        kind: ValueKind::RecordCreate(SESSION, Vec::new(), vec![ValueId(1)]),
    });
    body.push(Instruction::Value {
        result: ValueId(3),
        ty: file_ty(),
        kind: ValueKind::Alloc,
    });
    body.push(Instruction::Store {
        slot: ValueId(3),
        value: ValueId(2),
        mode: OwnershipMode::Observe,
    });
    let function = function(body, Terminator::Return(None), Ty::Unit);
    refuse(
        &function,
        Vec::new(),
        "a `Session` observed into a slot that declares `File`",
    );
}

#[test]
fn a_return_refuses_a_value_of_the_wrong_declared_type() {
    let mut body = make_file(0, 1);
    body.push(Instruction::Value {
        result: ValueId(2),
        ty: session_ty(),
        kind: ValueKind::RecordCreate(SESSION, Vec::new(), vec![ValueId(1)]),
    });
    let function = function(body, Terminator::Return(Some(ValueId(2))), file_ty());
    refuse(
        &function,
        Vec::new(),
        "a `Session` returned where `File` is declared",
    );
}

#[test]
fn a_take_argument_of_the_wrong_declared_type_is_refused() {
    let module = module();
    let mut interpreter = Interpreter::new(&module);
    let file = interpreter
        .resources
        .construct(FILE, vec![Value::Int(1)]);
    let session = interpreter
        .resources
        .construct(SESSION, vec![Value::Resource(file)]);
    let callee = Function {
        id: CALLEE,
        name: name(),
        type_params: Vec::new(),
        requirements: Vec::new(),
        params: vec![Param {
            value: ValueId(0),
            ty: file_ty(),
            take: true,
        }],
        return_type: Ty::Unit,
        raises: Vec::new(),
        blocks: vec![BasicBlock {
            id: BlockId(0),
            instructions: Vec::new(),
            terminator: Terminator::Return(None),
        }],
    };
    let before = interpreter.resources.records[session.id.0 as usize].generation;
    let error = interpreter
        .call_function(&callee, &Vec::new(), vec![Value::Resource(session)], Vec::new())
        .map(|_| ())
        .expect_err("a `Session` is not a `File`");
    assert!(
        format!("{error:?}").contains("different") || format!("{error:?}").contains("disagree"),
        "the rejection names the disagreement, got {error:?}"
    );
    assert_eq!(
        interpreter.resources.records[session.id.0 as usize].generation,
        before,
        "a refused argument never moved"
    );
}

#[test]
fn the_well_formed_spellings_still_succeed() {
    let module = module();
    let mut interpreter = Interpreter::new(&module);

    let mut body = make_file(0, 1);
    body.push(Instruction::Value {
        result: ValueId(2),
        ty: file_ty(),
        kind: ValueKind::Alloc,
    });
    body.push(Instruction::Store {
        slot: ValueId(2),
        value: ValueId(1),
        mode: OwnershipMode::Transfer,
    });
    body.push(Instruction::Value {
        result: ValueId(3),
        ty: file_ty(),
        kind: ValueKind::Load(ValueId(2)),
    });
    body.push(Instruction::Drop { value: ValueId(3) });
    let stores = function(body, Terminator::Return(None), Ty::Unit);
    interpreter
        .call_function(&stores, &Vec::new(), Vec::new(), Vec::new())
        .expect("a `File` really may be stored into a slot that declares `File`");

    let returns = function(
        make_file(0, 1),
        Terminator::Return(Some(ValueId(1))),
        file_ty(),
    );
    interpreter
        .call_function(&returns, &Vec::new(), Vec::new(), Vec::new())
        .expect("a `File` really may be returned where `File` is declared");
}

fn slot(result: u32, ty: Ty) -> Instruction {
    Instruction::Value {
        result: ValueId(result),
        ty,
        kind: ValueKind::Alloc,
    }
}

fn store(slot: u32, value: u32, mode: OwnershipMode) -> Instruction {
    Instruction::Store {
        slot: ValueId(slot),
        value: ValueId(value),
        mode,
    }
}

const DISAGREES: &str = "InvalidOperation(\"a runtime argument disagrees with the concrete part \
                         of its parameter's declared type\")";

#[test]
fn a_store_refuses_a_number_where_a_truth_value_is_declared() {
    for mode in [OwnershipMode::Transfer, OwnershipMode::Observe] {
        let body = vec![integer(0, 1), slot(1, Ty::Bool), store(1, 0, mode)];
        let function = function(body, Terminator::Return(None), Ty::Unit);
        let error = refuse(
            &function,
            Vec::new(),
            "an `i64` stored into a slot that declares `bool`",
        );
        assert_eq!(error, DISAGREES);
    }
}

#[test]
fn a_store_takes_a_number_where_a_number_is_declared() {
    for mode in [OwnershipMode::Transfer, OwnershipMode::Observe] {
        let body = vec![
            integer(0, 1),
            slot(1, Ty::I64),
            store(1, 0, mode),
            Instruction::Value {
                result: ValueId(2),
                ty: Ty::I64,
                kind: ValueKind::Load(ValueId(1)),
            },
        ];
        let function = function(body, Terminator::Return(Some(ValueId(2))), Ty::I64);
        let module = module();
        let mut interpreter = Interpreter::new(&module);
        let outcome = interpreter.call_function(&function, &Vec::new(), Vec::new(), Vec::new());
        assert!(matches!(outcome, Ok(Outcome::Returned(Value::Int(1)))));
    }
}

// A slot of a generic function declares its type in terms of the
// function's own parameters.
#[test]
fn a_slot_declares_its_type_in_the_frame_s_own_instantiation() {
    let parameter = || Ty::Param(TypeParamId(0), name());
    let mut generic = function(
        vec![integer(0, 1), slot(1, parameter()), store(1, 0, OwnershipMode::Transfer)],
        Terminator::Return(None),
        Ty::Unit,
    );
    generic.type_params = vec![(TypeParamId(0), name())];
    let module = module();
    let mut interpreter = Interpreter::new(&module);
    assert!(matches!(
        interpreter.call_function(&generic, &vec![Ty::I64], Vec::new(), Vec::new()),
        Ok(Outcome::Returned(Value::Unit))
    ));
    let error = interpreter
        .call_function(&generic, &vec![Ty::Bool], Vec::new(), Vec::new())
        .map(|_| ())
        .expect_err("a number is no truth value");
    assert_eq!(format!("{error:?}"), DISAGREES);
}

// %3 is a session whose file was moved out as %4; `value` goes where it
// was.
fn refilled(value: u32, ty: Ty, kind: ValueKind) -> Function {
    let mut body = make_file(0, 1);
    body.push(Instruction::Value {
        result: ValueId(2),
        ty: session_ty(),
        kind: ValueKind::RecordCreate(SESSION, Vec::new(), vec![ValueId(1)]),
    });
    body.push(slot(3, session_ty()));
    body.push(store(3, 2, OwnershipMode::Transfer));
    body.push(Instruction::Value {
        result: ValueId(4),
        ty: file_ty(),
        kind: ValueKind::PlaceRead {
            place: Place::root(ValueId(3)).field(SESSION, FieldId(0)),
            mode: OwnershipMode::Transfer,
        },
    });
    body.push(Instruction::Value {
        result: ValueId(5),
        ty,
        kind,
    });
    body.push(Instruction::StorePlace {
        place: Place::root(ValueId(3)).field(SESSION, FieldId(0)),
        value: ValueId(value),
    });
    body.push(Instruction::Value {
        result: ValueId(6),
        ty: session_ty(),
        kind: ValueKind::Load(ValueId(3)),
    });
    body.push(Instruction::Drop { value: ValueId(6) });
    function(body, Terminator::Return(None), Ty::Unit)
}

#[test]
fn a_store_into_a_field_refuses_a_value_of_the_wrong_declared_type() {
    let module = module();
    let mut interpreter = Interpreter::new(&module);
    let function = refilled(5, Ty::I64, ValueKind::Const(Const::Int(1)));
    let error = interpreter
        .call_function(&function, &Vec::new(), Vec::new(), Vec::new())
        .map(|_| ())
        .expect_err("a number is no file");
    assert_eq!(
        format!("{error:?}"),
        "InvalidOperation(\"a runtime value is of a different kind than its position declares\")"
    );
    let records = &interpreter.resources.records;
    assert_eq!(records.len(), 2);
    assert!(matches!(records[1].fields[0], Value::Moved));
    assert!(records.iter().all(|record| record.status == ResourceStatus::Alive));
}

#[test]
fn a_store_into_a_field_takes_a_value_of_its_declared_type() {
    let module = module();
    let mut interpreter = Interpreter::new(&module);
    let function = refilled(4, Ty::I64, ValueKind::Const(Const::Int(1)));
    interpreter
        .call_function(&function, &Vec::new(), Vec::new(), Vec::new())
        .expect("the file goes back where it came from");
    assert!(interpreter
        .resources
        .records
        .iter()
        .all(|record| record.status == ResourceStatus::Dropped));
}

// Another resource than the one declared is refused too, and stays with
// its owner.
#[test]
fn a_store_into_a_field_refuses_another_resource() {
    let module = module();
    let mut interpreter = Interpreter::new(&module);
    let inner = interpreter.resources.construct(FILE, vec![Value::Int(1)]);
    let other = interpreter
        .resources
        .construct(SESSION, vec![Value::Resource(inner)]);
    let outer = interpreter.resources.construct(SESSION, vec![Value::Moved]);
    let mut values = Frame::new();
    values.insert(ValueId(0), Value::Resource(outer));
    values.insert(ValueId(1), Value::Resource(other));
    let place = Place::root(ValueId(0)).field(SESSION, FieldId(0));
    let error = interpreter
        .store_place_transfer(&mut values, &IdMap::new(), &place, ValueId(1))
        .expect_err("a `Session` is not a `File`");
    assert_eq!(
        format!("{error:?}"),
        "InvalidOperation(\"a runtime resource handle names a different declaration than its \
         position declares\")"
    );
    assert!(matches!(values.get(&ValueId(1)), Some(Value::Resource(kept)) if *kept == other));
    assert!(interpreter.resources.record(other).is_ok());
    assert!(matches!(
        interpreter.resources.records[outer.id.0 as usize].fields[0],
        Value::Moved
    ));
}

fn capture(ty: Ty) -> Function {
    let mut body = make_file(0, 1);
    body.push(Instruction::Value {
        result: ValueId(2),
        ty,
        kind: ValueKind::DeferCapture { source: ValueId(1) },
    });
    body.push(Instruction::Drop { value: ValueId(2) });
    function(body, Terminator::Return(None), Ty::Unit)
}

#[test]
fn a_deferred_capture_refuses_a_value_of_the_wrong_declared_type() {
    for ty in [session_ty(), Ty::I64] {
        let error = refuse(
            &capture(ty),
            Vec::new(),
            "a `File` captured as something else",
        );
        assert_eq!(error, DISAGREES);
    }
}

#[test]
fn a_deferred_capture_takes_a_value_of_its_declared_type() {
    let module = module();
    let mut interpreter = Interpreter::new(&module);
    interpreter
        .call_function(&capture(file_ty()), &Vec::new(), Vec::new(), Vec::new())
        .expect("a `File` may be captured as a `File`");
    let records = &interpreter.resources.records;
    assert_eq!(records.len(), 1);
    assert_eq!(records[0].status, ResourceStatus::Dropped);
    assert_eq!(records[0].generation, 1);
}

#[test]
fn a_function_that_declares_a_result_must_return_one() {
    let function = function(Vec::new(), Terminator::Return(None), Ty::I64);
    let error = refuse(&function, Vec::new(), "nothing returned where `i64` is declared");
    assert_eq!(error, DISAGREES);
}
