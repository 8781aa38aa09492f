use napitia::ids::{BlockId, ItemId, Symbol, TypeParamId, ValueId};
use napitia::interpreter::Interpreter;
use napitia::program::{
    BasicBlock, CaseLayout, Const, Function, Instruction, Module, Param, RecordLayout, Terminator,
    ValueKind, VariantLayout,
};
use napitia::table::ResourceStatus;
use napitia::types::Ty;
use napitia::value::{ResourceHandle, Value};

const FILE: ItemId = ItemId(180);
const SESSION: ItemId = ItemId(181);
const BOXY: ItemId = ItemId(182);
const PAIR: ItemId = ItemId(183);
const MAYBE: ItemId = ItemId(184);
const CALLER: ItemId = ItemId(185);

fn name() -> Symbol {
    Symbol(0)
}

fn file_ty() -> Ty {
    Ty::Named(FILE, name())
}

fn module() -> Module {
    let param = TypeParamId(0);
    Module {
        functions: Vec::new(),
        records: vec![
            (
                FILE,
                RecordLayout {
                    name: name(),
                    type_params: Vec::new(),
                    fields: vec![(name(), Ty::I64)],
                    affine: true,
                },
            ),
            (
                SESSION,
                RecordLayout {
                    name: name(),
                    type_params: Vec::new(),
                    fields: vec![(name(), file_ty())],
                    affine: true,
                },
            ),
            (
                BOXY,
                RecordLayout {
                    name: name(),
                    type_params: vec![(param, name())],
                    fields: vec![(name(), Ty::Param(param, name()))],
                    affine: false,
                },
            ),
            (
                PAIR,
                RecordLayout {
                    name: name(),
                    type_params: Vec::new(),
                    fields: vec![(name(), Ty::I64), (name(), Ty::Bool)],
                    affine: false,
                },
            ),
        ],
        variants: vec![(
            MAYBE,
            VariantLayout {
                name: name(),
                type_params: vec![(param, name())],
                cases: vec![
                    CaseLayout {
                        name: name(),
                        payload: vec![Ty::Param(param, name())],
                    },
                    CaseLayout {
                        name: name(),
                        payload: Vec::new(),
                    },
                ],
            },
        )],
        protocols: Vec::new(),
        extends: Vec::new(),
    }
}

fn constructing(param_ty: Ty, result_ty: Ty, kind: ValueKind) -> Function {
    Function {
        id: CALLER,
        name: name(),
        type_params: Vec::new(),
        requirements: Vec::new(),
        params: vec![Param {
            value: ValueId(0),
            ty: param_ty,
            take: true,
        }],
        return_type: result_ty.clone(),
        raises: Vec::new(),
        blocks: vec![BasicBlock {
            id: BlockId(0),
            instructions: vec![Instruction::Value {
                result: ValueId(1),
                ty: result_ty,
                kind,
            }],
            terminator: Terminator::Return(Some(ValueId(1))),
        }],
    }
}

fn constructing_from_consts(
    consts: Vec<Instruction>,
    result_ty: Ty,
    kind: ValueKind,
    result: u32,
) -> Function {
    let mut instructions = consts;
    instructions.push(Instruction::Value {
        result: ValueId(result),
        ty: result_ty.clone(),
        kind,
    });
    Function {
        id: CALLER,
        name: name(),
        type_params: Vec::new(),
        requirements: Vec::new(),
        params: Vec::new(),
        return_type: result_ty,
        raises: Vec::new(),
        blocks: vec![BasicBlock {
            id: BlockId(0),
            instructions,
            terminator: Terminator::Return(Some(ValueId(result))),
        }],
    }
}

fn integer(result: u32, value: u128) -> Instruction {
    Instruction::Value {
        result: ValueId(result),
        ty: Ty::I64,
        kind: ValueKind::Const(Const::Int(value)),
    }
}

fn new_file(interpreter: &mut Interpreter<'_>, descriptor: i128) -> ResourceHandle {
    interpreter
        .resources
        .construct(FILE, vec![Value::Int(descriptor)])
}

#[derive(Debug, PartialEq)]
struct Snapshot {
    records: usize,
    fields: Vec<Vec<Value>>,
    generations: Vec<u64>,
    statuses: Vec<ResourceStatus>,
    events: Vec<String>,
}

fn snapshot(interpreter: &Interpreter<'_>) -> Snapshot {
    let table = &interpreter.resources;
    Snapshot {
        records: table.records.len(),
        fields: table.records.iter().map(|r| r.fields.clone()).collect(),
        generations: table.records.iter().map(|r| r.generation).collect(),
        statuses: table.records.iter().map(|r| r.status.clone()).collect(),
        events: interpreter.event_log(),
    }
}

fn refused(function: Function, expected_resources: usize, what: &str) -> String {
    let module = module();
    let mut interpreter = Interpreter::new(&module);
    let error = interpreter
        .call_function(&function, &Vec::new(), Vec::new(), Vec::new())
        .map(|_| ())
        .err()
        .unwrap_or_else(|| panic!("{what}: the interpreter accepted a malformed construction"));
    let after = snapshot(&interpreter);
    assert_eq!(
        after.records, expected_resources,
        "{what}: a rejected construction creates no new runtime resource"
    );
    assert!(
        after.generations.iter().all(|generation| *generation == 0),
        "{what}: a rejected construction advances no generation, got {:?}",
        after.generations
    );
    assert!(
        after
            .statuses
            .iter()
            .all(|status| *status == ResourceStatus::Alive),
        "{what}: a rejected construction destroys nothing"
    );
    assert!(
        after
            .fields
            .iter()
            .flatten()
            .all(|field| !matches!(field, Value::Moved | Value::Dropped)),
        "{what}: a rejected construction moves no field out of anything"
    );
    format!("{error:?}")
}

fn valid_file(descriptor: u128, konst: u32, result: u32) -> Vec<Instruction> {
    vec![
        integer(konst, descriptor),
        Instruction::Value {
            result: ValueId(result),
            ty: file_ty(),
            kind: ValueKind::RecordCreate(FILE, Vec::new(), vec![ValueId(konst)]),
        },
    ]
}

#[test]
fn a_resource_cannot_fill_a_field_declared_as_a_primitive() {
    let function = constructing_from_consts(
        valid_file(3, 0, 1),
        file_ty(),
        ValueKind::RecordCreate(FILE, Vec::new(), vec![ValueId(1)]),
        2,
    );
    let error = refused(function, 1, "a resource in an `i64` field");
    assert!(
        error.contains("different kind") || error.contains("owns nothing"),
        "the rejection names the disagreement, got {error}"
    );
}

#[test]
fn a_primitive_cannot_fill_a_field_declared_as_a_resource() {
    let function = constructing_from_consts(
        vec![integer(0, 5)],
        Ty::Named(SESSION, name()),
        ValueKind::RecordCreate(SESSION, Vec::new(), vec![ValueId(0)]),
        1,
    );
    refused(function, 0, "an `i64` in a `File` field");
}

#[test]
fn a_resource_of_the_wrong_declaration_cannot_fill_a_resource_field() {
    let mut body = valid_file(1, 0, 1);
    body.push(Instruction::Value {
        result: ValueId(2),
        ty: Ty::Named(SESSION, name()),
        kind: ValueKind::RecordCreate(SESSION, Vec::new(), vec![ValueId(1)]),
    });
    let function = constructing_from_consts(
        body,
        Ty::Named(SESSION, name()),
        ValueKind::RecordCreate(SESSION, Vec::new(), vec![ValueId(2)]),
        3,
    );
    let module = module();
    let mut interpreter = Interpreter::new(&module);
    let error = interpreter
        .call_function(&function, &Vec::new(), Vec::new(), Vec::new())
        .map(|_| ())
        .expect_err("a `Session` is not a `File`, however alike their shapes are");
    assert!(
        format!("{error:?}").contains("different"),
        "the rejection names the disagreement, got {error:?}"
    );
    let after = snapshot(&interpreter);
    assert_eq!(
        after.records, 2,
        "the two legitimate resources exist; the malformed one was never created"
    );
    assert!(
        after
            .statuses
            .iter()
            .all(|status| *status == ResourceStatus::Alive),
        "and neither of them was destroyed"
    );
    assert_eq!(
        after.generations[1], 0,
        "the `Session` never moved: the construction that would have taken it was refused"
    );
}

#[test]
fn a_record_cannot_be_built_with_the_wrong_arity() {
    let function = constructing_from_consts(
        vec![integer(0, 1)],
        Ty::Named(PAIR, name()),
        ValueKind::RecordCreate(PAIR, Vec::new(), vec![ValueId(0)]),
        1,
    );
    refused(function, 0, "a two-field record built from one value");
}

#[test]
fn a_later_field_of_the_wrong_kind_is_still_refused() {
    let function = constructing_from_consts(
        vec![integer(0, 1), integer(1, 2)],
        Ty::Named(PAIR, name()),
        ValueKind::RecordCreate(PAIR, Vec::new(), vec![ValueId(0), ValueId(1)]),
        2,
    );
    refused(function, 0, "an `i64` where `bool` is declared");
}

#[test]
fn a_payload_cannot_be_given_to_a_payload_less_case() {
    let function = constructing_from_consts(
        vec![integer(0, 1)],
        Ty::Applied(MAYBE, vec![Ty::I64]),
        ValueKind::VariantCreate {
            variant: MAYBE,
            case: 1,
            type_args: vec![Ty::I64],
            payload: vec![ValueId(0)],
        },
        1,
    );
    refused(function, 0, "a payload on a payload-less case");
}

#[test]
fn a_required_payload_cannot_be_omitted() {
    let function = constructing_from_consts(
        Vec::new(),
        Ty::Applied(MAYBE, vec![Ty::I64]),
        ValueKind::VariantCreate {
            variant: MAYBE,
            case: 0,
            type_args: vec![Ty::I64],
            payload: Vec::new(),
        },
        0,
    );
    refused(function, 0, "a missing required payload");
}

#[test]
fn a_payload_of_the_wrong_type_is_refused() {
    let function = constructing_from_consts(
        valid_file(4, 0, 1),
        Ty::Applied(MAYBE, vec![Ty::I64]),
        ValueKind::VariantCreate {
            variant: MAYBE,
            case: 0,
            type_args: vec![Ty::I64],
            payload: vec![ValueId(1)],
        },
        2,
    );
    refused(function, 1, "a resource payload where `i64` is substituted");
}

#[test]
fn an_unknown_variant_case_is_refused() {
    let function = constructing_from_consts(
        Vec::new(),
        Ty::Applied(MAYBE, vec![Ty::I64]),
        ValueKind::VariantCreate {
            variant: MAYBE,
            case: 7,
            type_args: vec![Ty::I64],
            payload: Vec::new(),
        },
        0,
    );
    refused(function, 0, "a case the variant does not declare");
}

#[test]
fn a_generic_field_accepts_its_own_substitution() {
    let function = constructing_from_consts(
        valid_file(1, 0, 1),
        Ty::Applied(BOXY, vec![file_ty()]),
        ValueKind::RecordCreate(BOXY, vec![file_ty()], vec![ValueId(1)]),
        2,
    );
    let module = module();
    let mut interpreter = Interpreter::new(&module);
    interpreter
        .call_function(&function, &Vec::new(), Vec::new(), Vec::new())
        .expect("`Box[File]` really does accept a `File`");
}

#[test]
fn a_generic_field_refuses_the_wrong_substitution() {
    let function = constructing_from_consts(
        valid_file(2, 0, 1),
        Ty::Applied(BOXY, vec![Ty::I64]),
        ValueKind::RecordCreate(BOXY, vec![Ty::I64], vec![ValueId(1)]),
        2,
    );
    refused(function, 1, "a `File` in a `Box[i64]`");
}

#[test]
fn a_nested_malformed_aggregate_is_refused() {
    let module = module();
    let mut interpreter = Interpreter::new(&module);
    let malformed = Value::Record {
        item: BOXY,
        type_args: vec![file_ty()],
        fields: vec![Value::Int(0)],
    };
    let function = constructing(
        Ty::Applied(BOXY, vec![file_ty()]),
        Ty::Applied(BOXY, vec![Ty::Applied(BOXY, vec![file_ty()])]),
        ValueKind::RecordCreate(
            BOXY,
            vec![Ty::Applied(BOXY, vec![file_ty()])],
            vec![ValueId(0)],
        ),
    );
    let before = snapshot(&interpreter);
    interpreter
        .call_function(&function, &Vec::new(), vec![malformed], Vec::new())
        .map(|_| ())
        .expect_err("the inner disagreement is still a disagreement");
    assert_eq!(
        snapshot(&interpreter),
        before,
        "and the outer construction changed nothing"
    );
}

#[test]
fn a_duplicated_identity_in_one_construction_is_refused() {
    let module = module();
    let mut interpreter = Interpreter::new(&module);
    let file = new_file(&mut interpreter, 1);
    let function = Function {
        id: CALLER,
        name: name(),
        type_params: Vec::new(),
        requirements: Vec::new(),
        params: vec![
            Param {
                value: ValueId(0),
                ty: file_ty(),
                take: true,
            },
            Param {
                value: ValueId(1),
                ty: file_ty(),
                take: true,
            },
        ],
        return_type: Ty::Named(SESSION, name()),
        raises: Vec::new(),
        blocks: vec![BasicBlock {
            id: BlockId(0),
            instructions: vec![Instruction::Value {
                result: ValueId(2),
                ty: Ty::Named(SESSION, name()),
                kind: ValueKind::RecordCreate(SESSION, Vec::new(), vec![ValueId(0)]),
            }],
            terminator: Terminator::Return(Some(ValueId(2))),
        }],
    };
    let result = interpreter.call_function(
        &function,
        &Vec::new(),
        vec![Value::Resource(file), Value::Resource(file)],
        Vec::new(),
    );
    assert!(
        result.is_err(),
        "one identity bound twice is a duplicate, not two resources"
    );
    assert_eq!(
        interpreter.resources.records.len(),
        1,
        "and the refusal created no new resource"
    );
}

#[test]
fn well_formed_constructions_still_succeed() {
    let module = module();
    let mut interpreter = Interpreter::new(&module);

    let pair = constructing_from_consts(
        vec![
            integer(0, 1),
            Instruction::Value {
                result: ValueId(1),
                ty: Ty::Bool,
                kind: ValueKind::Const(Const::Bool(true)),
            },
        ],
        Ty::Named(PAIR, name()),
        ValueKind::RecordCreate(PAIR, Vec::new(), vec![ValueId(0), ValueId(1)]),
        2,
    );
    interpreter
        .call_function(&pair, &Vec::new(), Vec::new(), Vec::new())
        .expect("a well-formed `Pair` is still constructible");

    let file = constructing_from_consts(
        vec![integer(0, 9)],
        file_ty(),
        ValueKind::RecordCreate(FILE, Vec::new(), vec![ValueId(0)]),
        1,
    );
    interpreter
        .call_function(&file, &Vec::new(), Vec::new(), Vec::new())
        .expect("a well-formed `File` is still constructible");

    let some = constructing_from_consts(
        vec![integer(0, 3)],
        Ty::Applied(MAYBE, vec![Ty::I64]),
        ValueKind::VariantCreate {
            variant: MAYBE,
            case: 0,
            type_args: vec![Ty::I64],
            payload: vec![ValueId(0)],
        },
        1,
    );
    interpreter
        .call_function(&some, &Vec::new(), Vec::new(), Vec::new())
        .expect("a well-formed `Maybe[i64]::Some` is still constructible");
    let none = constructing_from_consts(
        Vec::new(),
        Ty::Applied(MAYBE, vec![Ty::I64]),
        ValueKind::VariantCreate {
            variant: MAYBE,
            case: 1,
            type_args: vec![Ty::I64],
            payload: Vec::new(),
        },
        0,
    );
    interpreter
        .call_function(&none, &Vec::new(), Vec::new(), Vec::new())
        .expect("a well-formed `Maybe[i64]::None` is still constructible");
}
