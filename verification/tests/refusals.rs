use napitia::float::Double;
use napitia::frame::Outcome;
use napitia::idmap::{IdMap, IdSet};
use napitia::ids::{
    BlockId, CaseId, FieldId, ItemId, ObservationId, ResourceId, RuntimeObservationId, Symbol,
    TypeParamId, TypeVarId, ValueId,
};
use napitia::interpreter::Interpreter;
use napitia::ops::{arith, bitop, div, eq, neg, not, ord, shift, ArithOp, BitOp, ShiftOp};
use napitia::ownership::StorePlan;
use napitia::place::PathIntent;
use napitia::program::{
    BasicBlock, CaseLayout, Const, ExtendLayout, FailureTarget, Function, Instruction, Module,
    OwnershipMode, Param, Place, Projection, RecordLayout, Terminator, ValueKind, VariantLayout,
    MAX_CALL_DEPTH, MAX_GENERIC_DEPTH,
};
use napitia::symbol::Interner;
use napitia::types::{CapabilityRequirement, Evidence, Substitution, Ty};
use napitia::value::{InterpreterError, ResourceHandle, Value};
use napitia::value_ops::{copy_value, Frame};

const FILE: ItemId = ItemId(1);
const SESSION: ItemId = ItemId(2);
const PAIR: ItemId = ItemId(3);
const BOXY: ItemId = ItemId(4);
const MAYBE: ItemId = ItemId(5);
const POINT: ItemId = ItemId(6);
const FAILURE: ItemId = ItemId(7);
const UNKNOWN: ItemId = ItemId(99);
const MAIN: ItemId = ItemId(50);
const HELPER: ItemId = ItemId(51);

fn named(item: ItemId) -> Ty {
    Ty::Named(item, Symbol(0))
}

fn layout(fields: Vec<Ty>, affine: bool) -> RecordLayout {
    RecordLayout {
        name: Symbol(0),
        type_params: Vec::new(),
        fields: fields.into_iter().map(|ty| (Symbol(0), ty)).collect(),
        affine,
    }
}

fn case(payload: Vec<Ty>) -> CaseLayout {
    CaseLayout {
        name: Symbol(0),
        payload,
    }
}

fn module_with(functions: Vec<Function>) -> Module {
    let t = (TypeParamId(0), Symbol(0));
    let param = Ty::Param(TypeParamId(0), Symbol(0));
    Module {
        functions,
        records: vec![
            (FILE, layout(vec![Ty::I64], true)),
            (SESSION, layout(vec![named(FILE)], true)),
            (PAIR, layout(vec![named(FILE), named(FILE)], false)),
            (
                BOXY,
                RecordLayout {
                    name: Symbol(0),
                    type_params: vec![t],
                    fields: vec![(Symbol(0), param.clone())],
                    affine: false,
                },
            ),
            (POINT, layout(vec![Ty::I64, Ty::I64], false)),
        ],
        variants: vec![
            (
                MAYBE,
                VariantLayout {
                    name: Symbol(0),
                    type_params: vec![t],
                    cases: vec![case(vec![param]), case(Vec::new())],
                },
            ),
            (
                FAILURE,
                VariantLayout {
                    name: Symbol(0),
                    type_params: Vec::new(),
                    cases: vec![case(Vec::new()), case(vec![named(FILE)])],
                },
            ),
        ],
        protocols: Vec::new(),
        extends: Vec::new(),
    }
}

fn module() -> Module {
    module_with(Vec::new())
}

fn text<T>(result: Result<T, InterpreterError>) -> String {
    match result {
        Err(InterpreterError::InvalidOperation(message)) => message,
        Err(InterpreterError::DivisionByZero) => panic!("refused as a division by zero"),
        Ok(_) => panic!("was not refused"),
    }
}

fn file(interpreter: &mut Interpreter<'_>) -> ResourceHandle {
    interpreter.resources.construct(FILE, vec![Value::Int(1)])
}

fn point(x: i128, y: i128) -> Value {
    Value::Record {
        item: POINT,
        type_args: Vec::new(),
        fields: vec![Value::Int(x), Value::Int(y)],
    }
}

fn pair(first: Value, second: Value) -> Value {
    Value::Record {
        item: PAIR,
        type_args: Vec::new(),
        fields: vec![first, second],
    }
}

fn variant(item: ItemId, type_args: Vec<Ty>, case: usize, payload: Vec<Value>) -> Value {
    Value::Variant {
        item,
        type_args,
        case,
        payload,
    }
}

fn step(field: u32) -> Projection {
    Projection::Field {
        owner: POINT,
        field: FieldId(field),
    }
}

fn frame(values: Vec<Value>) -> Frame {
    let mut frame = Frame::new();
    for (index, value) in values.into_iter().enumerate() {
        frame.insert(ValueId(index as u32), value);
    }
    frame
}

fn observer(interpreter: &Interpreter<'_>, handle: ResourceHandle) -> ResourceHandle {
    interpreter
        .resources
        .to_observer(handle)
        .expect("a live resource can be observed")
}

fn double(x: f64) -> Value {
    Value::Float(Double::from_bits(x.to_bits()))
}

// ---------------------------------------------------------------------
// Operators.
// ---------------------------------------------------------------------

#[test]
fn operators_name_the_kinds_they_cannot_combine() {
    let (one, yes, unit) = (Value::Int(1), Value::Bool(true), Value::Unit);
    assert_eq!(
        text(arith(ArithOp::Add, &one, &yes)),
        "arithmetic between an integer and a bool"
    );
    assert_eq!(
        text(div(&Value::Str(String::from("a")), &one, false)),
        "division between a string and an integer"
    );
    assert_eq!(
        text(bitop(BitOp::Xor, &one, &Value::Char('c'))),
        "bitwise operator between an integer and a char"
    );
    assert_eq!(
        text(shift(ShiftOp::Left, &double(1.0), &one)),
        "shift between a float and an integer"
    );
    assert_eq!(text(neg(&unit)), "cannot negate unit");
    assert_eq!(text(not(&point(1, 2))), "cannot apply `not` to a record");
    assert_eq!(
        text(neg(&variant(MAYBE, vec![Ty::I64], 1, Vec::new()))),
        "cannot negate a variant"
    );
    assert_eq!(text(neg(&Value::Moved)), "cannot negate a moved field");
    assert_eq!(text(neg(&Value::Dropped)), "cannot negate a dropped field");
    assert_eq!(
        text(ord(&one, &unit)),
        "ordered comparison of an integer with unit"
    );
    assert_eq!(
        text(eq(&one, &unit)),
        "compared an integer with unit"
    );
}

#[test]
fn shifts_stay_below_the_width_of_an_integer() {
    for amount in [128, 129, -1, i128::MAX, i128::MIN] {
        for op in [ShiftOp::Left, ShiftOp::Right] {
            assert_eq!(
                text(shift(op, &Value::Int(1), &Value::Int(amount))),
                "shift amount out of range"
            );
        }
    }
    assert_eq!(
        shift(ShiftOp::Left, &Value::Int(1), &Value::Int(127)),
        Ok(Value::Int(i128::MIN))
    );
    assert_eq!(
        shift(ShiftOp::Right, &Value::Int(-8), &Value::Int(1)),
        Ok(Value::Int(-4))
    );
}

#[test]
fn a_nan_has_no_place_in_an_order() {
    assert_eq!(
        text(ord(&double(f64::NAN), &double(1.0))),
        "comparison involving NaN"
    );
    assert_eq!(eq(&double(f64::NAN), &double(f64::NAN)), Ok(false));
}

#[test]
fn only_an_integer_divisor_of_zero_is_refused() {
    assert_eq!(
        div(&Value::Int(1), &Value::Int(0), false),
        Err(InterpreterError::DivisionByZero)
    );
    assert_eq!(
        div(&Value::Int(1), &Value::Int(0), true),
        Err(InterpreterError::DivisionByZero)
    );
    assert_eq!(
        div(&double(1.0), &double(0.0), false),
        Ok(double(f64::INFINITY))
    );
    assert_eq!(
        div(&Value::Int(i128::MIN), &Value::Int(-1), false),
        Ok(Value::Int(i128::MIN))
    );
    assert_eq!(
        div(&Value::Int(i128::MIN), &Value::Int(-1), true),
        Ok(Value::Int(0))
    );
    assert_eq!(
        div(&Value::Int(-7), &Value::Int(2), false),
        Ok(Value::Int(-3))
    );
    assert_eq!(
        div(&Value::Int(-7), &Value::Int(2), true),
        Ok(Value::Int(-1))
    );
}

#[test]
fn integers_wrap_around() {
    let (max, one) = (Value::Int(i128::MAX), Value::Int(1));
    assert_eq!(
        arith(ArithOp::Add, &max, &one),
        Ok(Value::Int(i128::MIN))
    );
    assert_eq!(
        arith(ArithOp::Sub, &Value::Int(i128::MIN), &one),
        Ok(Value::Int(i128::MAX))
    );
    assert_eq!(
        arith(ArithOp::Mul, &max, &Value::Int(2)),
        Ok(Value::Int(-2))
    );
    assert_eq!(neg(&Value::Int(i128::MIN)), Ok(Value::Int(i128::MIN)));
    assert_eq!(not(&Value::Int(5)), Ok(Value::Int(-6)));
}

// ---------------------------------------------------------------------
// The resource table.
// ---------------------------------------------------------------------

#[test]
fn a_handle_must_name_a_current_live_resource() {
    let module = module();
    let mut interpreter = Interpreter::new(&module);
    let handle = file(&mut interpreter);
    let nowhere = ResourceHandle {
        id: ResourceId(77),
        ..handle
    };
    assert_eq!(
        text(interpreter.resources.observe(nowhere)),
        "resource handle does not refer to any known resource"
    );
    let owner = interpreter
        .resources
        .transfer(handle)
        .expect("a live resource can be moved");
    assert_eq!(
        text(interpreter.resources.observe(handle)),
        "stale resource handle: this resource's own ownership was already transferred elsewhere"
    );
    interpreter
        .resources
        .drop_resource(owner)
        .expect("a live resource can be destroyed");
    assert_eq!(
        text(interpreter.resources.observe(owner)),
        "use of a resource after it was already dropped"
    );
    assert_eq!(
        text(interpreter.resources.transfer(owner)),
        "cannot transfer ownership of a resource that was already dropped"
    );
    assert_eq!(
        text(interpreter.resources.drop_resource(owner)),
        "double drop of a resource"
    );
}

#[test]
fn an_observer_neither_moves_nor_destroys_nor_writes() {
    let module = module();
    let mut interpreter = Interpreter::new(&module);
    let handle = file(&mut interpreter);
    let watching = observer(&interpreter, handle);
    let table = &mut interpreter.resources;
    assert_eq!(
        text(table.transfer(watching)),
        "cannot transfer ownership through a merely-observing resource handle"
    );
    assert_eq!(
        text(table.drop_resource(watching)),
        "cannot drop a resource through a merely-observing resource handle"
    );
    assert_eq!(
        text(table.take_field(watching, 0)),
        "cannot transfer a field through a merely-observing resource handle"
    );
    assert_eq!(
        text(table.set_field(watching, 0, Value::Int(2))),
        "cannot reinitialize a field through a merely-observing resource handle"
    );
    assert_eq!(
        text(table.restore_field(watching, 0, Value::Int(2))),
        "cannot write through a merely-observing resource handle"
    );
}

#[test]
fn a_field_must_exist_and_be_empty_to_be_set() {
    let module = module();
    let mut interpreter = Interpreter::new(&module);
    let handle = file(&mut interpreter);
    let table = &mut interpreter.resources;
    let out_of_range = "a place projects a field index out of range for this resource";
    assert_eq!(text(table.observe_field(handle, 1)), out_of_range);
    assert_eq!(text(table.take_field(handle, 1)), out_of_range);
    assert_eq!(text(table.set_field(handle, 1, Value::Unit)), out_of_range);
    assert_eq!(
        text(table.restore_field(handle, 1, Value::Unit)),
        out_of_range
    );
    assert_eq!(
        text(table.set_field(handle, 0, Value::Int(2))),
        "cannot overwrite a resource field that still owns a live value"
    );
    assert_eq!(table.take_field(handle, 0), Ok(Value::Int(1)));
    assert_eq!(table.observe_field(handle, 0), Ok(Value::Moved));
    assert_eq!(table.set_field(handle, 0, Value::Int(2)), Ok(()));
    assert_eq!(table.observe_field(handle, 0), Ok(Value::Int(2)));
}

#[test]
fn a_lease_ends_once_and_after_those_inside_it() {
    let module = module();
    let mut interpreter = Interpreter::new(&module);
    let handle = file(&mut interpreter);
    let table = &mut interpreter.resources;
    let outer = table.begin_lease(vec![handle.id], None);
    let inner = table.begin_lease(vec![handle.id], Some(outer));
    let view = table
        .to_leased_observer(handle, inner)
        .expect("a live resource can be observed");
    assert_eq!(
        text(table.end_lease(outer)),
        "cannot end an observation while an observation opened inside it is still active"
    );
    assert_eq!(table.end_lease(inner), Ok(()));
    assert_eq!(
        text(table.observe(view)),
        "use of an observation after its own `observe` block already ended"
    );
    assert!(table.observe(handle).is_ok());
    assert_eq!(
        text(table.end_lease(inner)),
        "an observation was ended more than once at run time"
    );
    assert_eq!(table.end_lease(outer), Ok(()));
    assert_eq!(
        text(table.end_lease(RuntimeObservationId(9))),
        "an observation handle does not refer to any known observation"
    );
    let lost = ResourceHandle {
        lease: Some(RuntimeObservationId(9)),
        ..handle
    };
    assert_eq!(
        text(table.observe(lost)),
        "an observation handle does not refer to any known observation"
    );
}

fn nested(depth: usize) -> Value {
    let mut value = Value::Int(1);
    for _ in 0..depth {
        value = Value::Record {
            item: BOXY,
            type_args: vec![Ty::I64],
            fields: vec![value],
        };
    }
    value
}

#[test]
fn values_nest_within_the_supported_depth() {
    let module = module();
    let interpreter = Interpreter::new(&module);
    let deep = nested(MAX_GENERIC_DEPTH);
    let fitting = nested(MAX_GENERIC_DEPTH - 1);
    let too_deep = "a runtime value is nested more deeply than this milestone supports";
    assert_eq!(text(interpreter.to_observing_view(&deep, 0)), too_deep);
    assert!(interpreter.to_observing_view(&fitting, 0).is_ok());
    assert_eq!(
        text(interpreter.plan_transfer(&deep, &mut StorePlan::new(), 0)),
        too_deep
    );
    assert!(interpreter
        .plan_transfer(&fitting, &mut StorePlan::new(), 0)
        .is_ok());
    let graph = "a runtime ownership graph is nested more deeply than this milestone supports";
    assert_eq!(
        text(interpreter.collect_owned_identities(&deep, &mut IdSet::new(), 0)),
        graph
    );
    assert_eq!(
        text(interpreter.collect_reachable_resources(
            &deep,
            &mut IdSet::new(),
            &mut Vec::new(),
            0
        )),
        graph
    );
    assert_eq!(
        text(interpreter.plan_drop(
            &point(1, 2),
            &mut IdSet::new(),
            &mut Vec::new(),
            MAX_GENERIC_DEPTH
        )),
        "a destruction graph is nested more deeply than this milestone supports"
    );
}

// ---------------------------------------------------------------------
// Ownership.
// ---------------------------------------------------------------------

#[test]
fn only_live_owned_values_of_the_declared_shape_are_moved() {
    let module = module();
    let mut interpreter = Interpreter::new(&module);
    let handle = file(&mut interpreter);
    let watching = observer(&interpreter, handle);
    let owned = Value::Resource(handle);
    assert_eq!(
        text(interpreter.transfer_if_resource(&Value::Resource(watching))),
        "cannot transfer ownership through a merely-observing resource handle"
    );
    assert_eq!(
        text(interpreter.transfer_if_resource(&Value::Moved)),
        "transfer of a value that was already moved"
    );
    assert_eq!(
        text(interpreter.transfer_if_resource(&Value::Dropped)),
        "transfer of a value that was already destroyed"
    );
    assert_eq!(
        text(interpreter.transfer_if_resource(&pair(copy_value(&owned), copy_value(&owned)))),
        "a structural store's own source carries the same resource identity more than once"
    );
    assert_eq!(
        text(interpreter.transfer_if_resource(&Value::Record {
            item: PAIR,
            type_args: Vec::new(),
            fields: vec![copy_value(&owned)],
        })),
        "a structural store's own source record carries a field count its declaration does not declare"
    );
    assert_eq!(
        text(interpreter.transfer_if_resource(&variant(FAILURE, Vec::new(), 0, vec![owned]))),
        "a structural store's own source variant carries a payload count its active case does not declare"
    );
    interpreter
        .resources
        .drop_resource(handle)
        .expect("a live resource can be destroyed");
    assert_eq!(
        text(interpreter.transfer_if_resource(&Value::Resource(handle))),
        "cannot transfer ownership of a resource that was already dropped"
    );
}

#[test]
fn a_resource_met_twice_is_no_ownership_graph() {
    let module = module();
    let mut interpreter = Interpreter::new(&module);
    let handle = file(&mut interpreter);
    let twice = pair(Value::Resource(handle), Value::Resource(handle));
    assert_eq!(
        text(interpreter.collect_owned_identities(&twice, &mut IdSet::new(), 0)),
        "a runtime ownership graph reaches the same resource identity twice, either duplicated or through a cycle"
    );
    assert_eq!(
        text(interpreter.validate_owned_graph(&twice)),
        "a runtime value graph reaches the same resource identity twice, either duplicated or through a cycle"
    );
    let mut seen = IdSet::new();
    seen.insert(handle.id.0);
    assert_eq!(
        text(interpreter.plan_drop(&Value::Resource(handle), &mut seen, &mut Vec::new(), 0)),
        "a destruction graph reaches the same resource identity twice"
    );
}

#[test]
fn an_observation_holds_what_it_sees_against_every_owner() {
    let module = module();
    let mut interpreter = Interpreter::new(&module);
    let first = file(&mut interpreter);
    let second = file(&mut interpreter);
    let both = pair(Value::Resource(first), Value::Resource(second));
    let mut values = frame(vec![copy_value(&both)]);
    let mut leases = Vec::new();
    interpreter
        .begin_observe(
            &values,
            &IdMap::new(),
            &mut leases,
            ObservationId(0),
            &Place::root(ValueId(0)).field(PAIR, FieldId(1)),
        )
        .expect("a live place can be observed");
    assert_eq!(
        text(interpreter.transfer_if_resource(&both)),
        "a resource cannot be transferred while observation 0 is still holding it"
    );
    assert_eq!(
        text(interpreter.drop_value(&both)),
        "a resource cannot be dropped while observation 0 is still holding it"
    );
    assert_eq!(
        text(interpreter.access_place(
            &mut values,
            &IdMap::new(),
            &Place::root(ValueId(0)).field(PAIR, FieldId(1)),
            OwnershipMode::Transfer
        )),
        "a resource cannot be moved out of its place while observation 0 is still holding it"
    );
    let mut taken = frame(vec![variant(
        FAILURE,
        Vec::new(),
        1,
        vec![Value::Resource(second)],
    )]);
    assert_eq!(
        text(interpreter.decompose_variant(
            &mut taken,
            &IdMap::new(),
            ValueId(0),
            FAILURE,
            1,
            &Vec::new()
        )),
        "a resource cannot be decomposed out of its variant while observation 0 is still holding it"
    );
    interpreter
        .access_place(
            &mut values,
            &IdMap::new(),
            &Place::root(ValueId(0)).field(PAIR, FieldId(0)),
            OwnershipMode::Transfer,
        )
        .expect("what is not observed can be moved");
    interpreter
        .end_observe(&mut leases, ObservationId(0))
        .expect("the innermost observation can end");
    interpreter
        .access_place(
            &mut values,
            &IdMap::new(),
            &Place::root(ValueId(0)).field(PAIR, FieldId(1)),
            OwnershipMode::Transfer,
        )
        .expect("what is no longer observed can be moved");
}

// ---------------------------------------------------------------------
// Places.
// ---------------------------------------------------------------------

#[test]
fn a_place_must_be_there_to_be_read() {
    let module = module();
    let interpreter = Interpreter::new(&module);
    assert_eq!(
        text(interpreter.observe_projections(&point(1, 2), &[step(2)])),
        "a place projects a field index out of range for this record"
    );
    assert_eq!(
        text(interpreter.observe_projections(&Value::Int(1), &[step(0)])),
        "a place projects through a non-aggregate value (an integer)"
    );
    assert_eq!(
        text(interpreter.observe_projections(&Value::Moved, &[step(0)])),
        "use of a field after it was already moved"
    );
    assert_eq!(
        text(interpreter.observe_projections(&Value::Dropped, &[step(0)])),
        "use of a field after it was already dropped"
    );
    let payload = Projection::VariantField {
        variant: MAYBE,
        case: CaseId(0),
        field: FieldId(0),
    };
    assert_eq!(
        text(interpreter.observe_projections(&point(1, 2), &[payload])),
        "a place projects through a variant field, which this milestone's runtime never produces"
    );
    assert_eq!(
        interpreter.observe_projections(&point(1, 2), &[step(1)]),
        Ok(Value::Int(2))
    );
}

#[test]
fn a_walk_is_bounded() {
    let module = module();
    let interpreter = Interpreter::new(&module);
    assert_eq!(
        text(interpreter.validate_place_path(
            &point(1, 2),
            &[step(0)],
            PathIntent::Take,
            false,
            MAX_GENERIC_DEPTH
        )),
        "a place projects more deeply than this milestone supports"
    );
}

#[test]
fn a_value_is_taken_where_there_is_one_and_stored_where_there_is_none() {
    let module = module();
    let mut interpreter = Interpreter::new(&module);
    let handle = file(&mut interpreter);
    let root = Value::Resource(handle);
    assert_eq!(
        text(interpreter.store_projections(&root, &[step(0)], Value::Int(2))),
        "cannot overwrite a resource field that still owns a live value"
    );
    let taken = interpreter
        .take_projections(&root, &[step(0)])
        .expect("a live field can be taken");
    assert_eq!(taken.extracted, Value::Int(1));
    assert_eq!(
        text(interpreter.take_projections(&root, &[step(0)])),
        "transfer of a resource field that was already moved or dropped"
    );
    let inline = interpreter
        .take_projections(&point(1, 2), &[step(1)])
        .expect("a live field can be taken");
    assert_eq!(inline.extracted, Value::Int(2));
    assert_eq!(
        text(interpreter.take_projections(&inline.container, &[step(1)])),
        "transfer of a record field that was already moved or dropped"
    );
    assert_eq!(
        text(interpreter.store_projections(&inline.container, &[step(0)], Value::Int(2))),
        "cannot overwrite a record field that still owns a live value"
    );
    assert_eq!(
        interpreter.store_projections(&inline.container, &[step(1)], inline.extracted),
        Ok(point(1, 2))
    );
}

#[test]
fn nothing_is_taken_or_stored_through_an_observer() {
    let module = module();
    let mut interpreter = Interpreter::new(&module);
    let handle = file(&mut interpreter);
    let watching = Value::Resource(observer(&interpreter, handle));
    assert_eq!(
        text(interpreter.take_projections(&watching, &[step(0)])),
        "cannot transfer a field through a merely-observing resource handle"
    );
    assert_eq!(
        text(interpreter.store_projections(&watching, &[step(0)], Value::Int(1))),
        "cannot reinitialize a field through a merely-observing resource handle"
    );
    assert_eq!(
        text(interpreter.validate_store_target(&watching, &[step(0)])),
        "cannot reinitialize a field through a merely-observing resource handle"
    );
}

#[test]
fn a_store_needs_a_field_to_reinitialize() {
    let module = module();
    let mut interpreter = Interpreter::new(&module);
    let handle = file(&mut interpreter);
    let target = |interpreter: &Interpreter<'_>, value: &Value, steps: &[Projection]| {
        text(interpreter.validate_store_target(value, steps))
    };
    assert_eq!(
        target(&interpreter, &point(1, 2), &[]),
        "a structural store names no field to reinitialize"
    );
    assert_eq!(
        target(&interpreter, &point(1, 2), &[step(0)]),
        "cannot overwrite a record field that still owns a live value"
    );
    assert_eq!(
        target(&interpreter, &Value::Resource(handle), &[step(0)]),
        "cannot overwrite a resource field that still owns a live value"
    );
    assert_eq!(
        target(&interpreter, &Value::Moved, &[step(0)]),
        "a place reinitializes through a field that was already moved"
    );
    assert_eq!(
        target(&interpreter, &Value::Dropped, &[step(0)]),
        "a place reinitializes through a field that was already dropped"
    );
    assert_eq!(
        target(&interpreter, &Value::Bool(true), &[step(0)]),
        "a place projects through a non-aggregate value (a bool)"
    );
}

#[test]
fn a_store_keeps_its_two_sides_apart() {
    let module = module();
    let mut interpreter = Interpreter::new(&module);
    let child = file(&mut interpreter);
    let session = interpreter
        .resources
        .construct(SESSION, vec![Value::Resource(child)]);
    let mut values = frame(vec![
        pair(Value::Moved, Value::Resource(session)),
        Value::Resource(session),
    ]);
    let place = Place::root(ValueId(0)).field(PAIR, FieldId(0));
    assert_eq!(
        text(interpreter.store_place_transfer(&mut values, &IdMap::new(), &place, ValueId(0))),
        "a structural store's own source and destination name the same storage"
    );
    assert_eq!(
        text(interpreter.store_place_transfer(&mut values, &IdMap::new(), &place, ValueId(1))),
        "a structural store's own source and destination share a resource identity"
    );
    assert_eq!(
        text(interpreter.store_place_transfer(&mut values, &IdMap::new(), &place, ValueId(8))),
        "%8 was read before it was computed"
    );
}

#[test]
fn observations_begin_once_and_end_innermost_first() {
    let module = module();
    let mut interpreter = Interpreter::new(&module);
    let values = frame(vec![point(1, 2)]);
    let mut leases = Vec::new();
    let place = Place::root(ValueId(0));
    assert_eq!(
        text(interpreter.end_observe(&mut leases, ObservationId(0))),
        "an observation ended that this frame never began"
    );
    for observation in [ObservationId(0), ObservationId(1)] {
        interpreter
            .begin_observe(&values, &IdMap::new(), &mut leases, observation, &place)
            .expect("a place can be observed twice");
    }
    assert_eq!(
        text(interpreter.begin_observe(
            &values,
            &IdMap::new(),
            &mut leases,
            ObservationId(1),
            &place
        )),
        "an observation began again while it was still active"
    );
    assert_eq!(
        text(interpreter.end_observe(&mut leases, ObservationId(0))),
        "an observation ended while an observation opened inside it is still active"
    );
    assert_eq!(interpreter.end_observe(&mut leases, ObservationId(1)), Ok(()));
    assert_eq!(interpreter.end_observe(&mut leases, ObservationId(0)), Ok(()));
    assert!(leases.is_empty());
}

#[test]
fn every_claim_of_a_decomposition_is_checked() {
    let module = module();
    let interpreter = Interpreter::new(&module);
    let some = variant(MAYBE, vec![Ty::I64], 0, vec![Value::Int(4)]);
    let emptied = variant(MAYBE, vec![named(FILE)], 0, vec![Value::Moved]);
    let attempt = |root: &Value, item: ItemId, case: usize, taken: Vec<(usize, ValueId)>| {
        let mut values = frame(vec![copy_value(root), Value::Int(4), Value::Int(5)]);
        text(interpreter.decompose_variant(
            &mut values,
            &IdMap::new(),
            ValueId(0),
            item,
            case,
            &taken,
        ))
    };
    assert_eq!(
        attempt(&point(1, 2), MAYBE, 0, Vec::new()),
        "a variant decomposition names a value that is not a variant"
    );
    assert_eq!(
        attempt(&some, FAILURE, 0, Vec::new()),
        "a variant decomposition names a different variant than its own value holds"
    );
    assert_eq!(
        attempt(&some, MAYBE, 1, Vec::new()),
        "a variant decomposition names a case other than the one actually live"
    );
    assert_eq!(
        attempt(&some, MAYBE, 0, vec![(0, ValueId(9))]),
        "a variant decomposition hands a payload to a value this frame never computed"
    );
    assert_eq!(
        attempt(&some, MAYBE, 0, vec![(0, ValueId(1)), (0, ValueId(1))]),
        "a variant decomposition claims the same payload position more than once"
    );
    assert_eq!(
        attempt(&some, MAYBE, 0, vec![(1, ValueId(1))]),
        "a variant decomposition claims a payload position out of range for its case"
    );
    assert_eq!(
        attempt(&emptied, MAYBE, 0, vec![(0, ValueId(1))]),
        "a variant decomposition claims a position whose ownership already moved"
    );
    assert_eq!(
        attempt(&some, MAYBE, 0, vec![(0, ValueId(2))]),
        "a variant decomposition hands a payload position to a value that is not what that position holds"
    );
}

// ---------------------------------------------------------------------
// Shapes and types.
// ---------------------------------------------------------------------

#[test]
fn a_value_must_be_of_its_declared_shape() {
    let module = module();
    let mut interpreter = Interpreter::new(&module);
    let handle = file(&mut interpreter);
    let owned = Value::Resource(handle);
    let against = |value: &Value, ty: &Ty| {
        text(interpreter.validate_value_against_ty(value, Some(ty), &mut IdSet::new(), 0))
    };
    assert_eq!(
        against(&Value::Int(1), &Ty::Bool),
        "a runtime value is of a different kind than its position declares"
    );
    assert_eq!(
        against(&Value::Moved, &Ty::I64),
        "a runtime tombstone stands in a position whose declared type owns nothing"
    );
    assert_eq!(
        against(&owned, &Ty::I64),
        "a runtime aggregate or resource stands in a position whose declared type owns nothing"
    );
    assert_eq!(
        against(&point(1, 2), &Ty::Var(TypeVarId(0))),
        "a runtime value fills a position whose declared type was never resolved"
    );
    assert_eq!(
        against(&point(1, 2), &named(PAIR)),
        "a runtime record names a different declaration or instantiation than its position declares"
    );
    assert_eq!(
        against(&variant(FAILURE, Vec::new(), 0, Vec::new()), &named(MAYBE)),
        "a runtime variant names a different declaration or instantiation than its position declares"
    );
    assert_eq!(
        against(&owned, &named(SESSION)),
        "a runtime resource handle names a different declaration than its position declares"
    );
    let posing = Value::Record {
        item: FILE,
        type_args: Vec::new(),
        fields: vec![Value::Int(1)],
    };
    assert_eq!(
        against(&posing, &named(FILE)),
        "a runtime record value claims a declaration that is a `resource`, which is only ever represented by a handle"
    );
    assert_eq!(
        text(interpreter.validate_owned_graph(&Value::Record {
            item: POINT,
            type_args: Vec::new(),
            fields: vec![Value::Int(1)],
        })),
        "a runtime record value's own field count disagrees with its declaration"
    );
    assert_eq!(
        text(interpreter.validate_owned_graph(&variant(FAILURE, Vec::new(), 1, Vec::new()))),
        "a runtime variant value's own payload count disagrees with its active case's declaration"
    );
    assert_eq!(
        text(interpreter.validate_owned_graph(&variant(FAILURE, Vec::new(), 2, Vec::new()))),
        "a runtime variant value names a case out of range for its own declaration"
    );
    assert_eq!(
        text(interpreter.validate_owned_graph(&variant(UNKNOWN, Vec::new(), 0, Vec::new()))),
        "a runtime aggregate names a variant this module never declared"
    );
    assert_eq!(
        text(interpreter.validate_owned_graph(&Value::Record {
            item: UNKNOWN,
            type_args: Vec::new(),
            fields: Vec::new(),
        })),
        "a runtime aggregate names a record this module never declared"
    );
    assert_eq!(
        text(interpreter.validate_owned_graph(&Value::Record {
            item: BOXY,
            type_args: Vec::new(),
            fields: vec![Value::Int(1)],
        })),
        "a runtime aggregate carries type arguments that disagree with its own declaration's parameter list"
    );
}

#[test]
fn a_resource_with_a_wrong_number_of_fields_is_refused() {
    let module = module();
    let mut interpreter = Interpreter::new(&module);
    let bare = interpreter.resources.construct(FILE, Vec::new());
    let message = "a runtime resource's own field count disagrees with its declaration";
    assert_eq!(
        text(interpreter.validate_owned_graph(&Value::Resource(bare))),
        message
    );
    assert_eq!(
        text(interpreter.plan_drop(
            &Value::Resource(bare),
            &mut IdSet::new(),
            &mut Vec::new(),
            0
        )),
        message
    );
}

#[test]
fn an_argument_must_fit_its_parameter() {
    let module = module();
    let interpreter = Interpreter::new(&module);
    assert_eq!(
        text(interpreter.validate_argument(&Value::Int(1), &Ty::Bool)),
        "a runtime argument disagrees with the concrete part of its parameter's declared type"
    );
    assert_eq!(
        text(interpreter.validate_argument(&Value::Int(1), &Ty::Never)),
        "a runtime argument fills a parameter whose declared type was never resolved"
    );
    assert_eq!(
        interpreter.validate_argument(&Value::Int(1), &Ty::Param(TypeParamId(0), Symbol(0))),
        Ok(())
    );
}

#[test]
fn only_what_owns_something_is_destroyed() {
    let module = module();
    let mut interpreter = Interpreter::new(&module);
    let handle = file(&mut interpreter);
    let watching = observer(&interpreter, handle);
    let planned = |value: &Value| {
        text(interpreter.plan_drop(value, &mut IdSet::new(), &mut Vec::new(), 0))
    };
    assert_eq!(
        planned(&Value::Resource(watching)),
        "cannot drop a resource through a merely-observing resource handle"
    );
    assert_eq!(
        planned(&Value::Moved),
        "drop of a field that was already moved"
    );
    assert_eq!(
        planned(&Value::Dropped),
        "double drop: this value was already destroyed"
    );
    assert_eq!(
        planned(&Value::Unit),
        "drop of a non-affine value (unit)"
    );
    assert_eq!(
        planned(&Value::Record {
            item: PAIR,
            type_args: Vec::new(),
            fields: Vec::new(),
        }),
        "a runtime record value's own field count disagrees with its declaration"
    );
    assert_eq!(
        planned(&variant(FAILURE, Vec::new(), 1, Vec::new())),
        "a runtime variant value's own payload count disagrees with its active case's declaration"
    );
}

// ---------------------------------------------------------------------
// Evaluating.
// ---------------------------------------------------------------------

fn evaluated(module: &Module, kind: ValueKind, values: Vec<Value>) -> Result<Value, InterpreterError> {
    let mut interpreter = Interpreter::new(module);
    interpreter.eval(
        &kind,
        &frame(values),
        &Vec::new(),
        &Substitution::new(),
    )
}

#[test]
fn places_are_not_read_outside_a_frame() {
    let module = module();
    assert_eq!(
        text(evaluated(
            &module,
            ValueKind::PlaceRead {
                place: Place::root(ValueId(0)),
                mode: OwnershipMode::Observe,
            },
            vec![Value::Int(1)]
        )),
        "ValueKind::PlaceRead must be evaluated by call_function directly, never through eval"
    );
    assert_eq!(
        text(evaluated(
            &module,
            ValueKind::ObservePlace {
                observation: ObservationId(0),
                place: Place::root(ValueId(0)),
            },
            vec![Value::Int(1)]
        )),
        "ValueKind::ObservePlace must be evaluated by call_function directly, never through eval"
    );
}

#[test]
fn selections_name_what_they_found() {
    let module = module();
    let select = |base: Value, record: ItemId, field: usize| {
        text(evaluated(
            &module,
            ValueKind::RecordField {
                base: ValueId(0),
                record,
                field,
            },
            vec![base],
        ))
    };
    assert_eq!(
        select(point(1, 2), POINT, 2),
        "record field index out of range"
    );
    assert_eq!(
        select(Value::Int(1), POINT, 0),
        "expected a record value of the expected type, found an integer"
    );
    assert_eq!(
        select(point(1, 2), PAIR, 0),
        "expected a record value of the expected type, found a record"
    );
    let payload = |base: Value, case: usize, index: usize| {
        text(evaluated(
            &module,
            ValueKind::VariantPayload {
                base: ValueId(0),
                variant: MAYBE,
                case,
                index,
            },
            vec![base],
        ))
    };
    let some = || variant(MAYBE, vec![Ty::I64], 0, vec![Value::Int(1)]);
    assert_eq!(
        payload(some(), 0, 1),
        "variant payload index out of range"
    );
    assert_eq!(
        payload(some(), 1, 0),
        "expected an active variant case matching this payload projection, found a variant"
    );
    assert_eq!(
        payload(point(1, 2), 0, 0),
        "expected an active variant case matching this payload projection, found a record"
    );
    let mut interpreter = Interpreter::new(&module);
    let handle = file(&mut interpreter);
    let values = frame(vec![Value::Resource(handle)]);
    let read = |interpreter: &mut Interpreter<'_>, record: ItemId, field: usize| {
        text(interpreter.eval(
            &ValueKind::RecordField {
                base: ValueId(0),
                record,
                field,
            },
            &values,
            &Vec::new(),
            &Substitution::new(),
        ))
    };
    assert_eq!(
        read(&mut interpreter, SESSION, 0),
        "expected a resource value of the expected type, found a different resource"
    );
    assert_eq!(
        read(&mut interpreter, FILE, 1),
        "resource field index out of range"
    );
}

#[test]
fn a_construction_supplies_what_is_declared() {
    let module = module();
    assert_eq!(
        text(evaluated(
            &module,
            ValueKind::RecordCreate(POINT, Vec::new(), vec![ValueId(0)]),
            vec![Value::Int(1)]
        )),
        "a runtime construction supplies a field count its declaration does not declare"
    );
    assert_eq!(
        text(evaluated(
            &module,
            ValueKind::VariantCreate {
                variant: MAYBE,
                case: 0,
                type_args: vec![Ty::I64],
                payload: Vec::new(),
            },
            Vec::new()
        )),
        "a runtime construction supplies a payload count its active case does not declare"
    );
    assert_eq!(
        text(evaluated(
            &module,
            ValueKind::RecordCreate(
                BOXY,
                vec![Ty::Param(TypeParamId(0), Symbol(0))],
                vec![ValueId(0)]
            ),
            vec![Value::Int(1)]
        )),
        "a type argument is still unresolved after the running frame's own instantiation is applied"
    );
}

fn extend(protocol_arguments: Vec<Ty>, methods: Vec<ItemId>) -> ExtendLayout {
    ExtendLayout {
        protocol: UNKNOWN,
        type_params: vec![(TypeParamId(0), Symbol(0))],
        protocol_arguments,
        methods,
    }
}

#[test]
fn a_protocol_call_must_resolve_to_a_method() {
    let t = || Ty::Param(TypeParamId(0), Symbol(0));
    let mut module = module();
    module.extends = vec![
        (ItemId(60), extend(vec![t()], vec![UNKNOWN])),
        (ItemId(61), extend(vec![Ty::Bool], vec![UNKNOWN])),
        (ItemId(62), extend(vec![Ty::I64], vec![UNKNOWN])),
    ];
    let attempt = |evidence: Evidence, arguments: Vec<Ty>, method: usize| {
        text(evaluated(
            &module,
            ValueKind::ProtocolCall {
                protocol: UNKNOWN,
                arguments,
                method,
                evidence,
                args: Vec::new(),
            },
            Vec::new(),
        ))
    };
    let by = |extend: u32| Evidence::Extension {
        extend: ItemId(extend),
        nested: Vec::new(),
    };
    assert_eq!(
        attempt(Evidence::Forwarded(0), vec![Ty::I64], 0),
        "forwarded capability evidence index out of range"
    );
    assert_eq!(
        attempt(by(99), vec![Ty::I64], 0),
        "protocol call evidence references an unknown extend"
    );
    assert_eq!(
        attempt(by(60), vec![Ty::I64], 1),
        "protocol call method index out of range for its extend"
    );
    assert_eq!(
        attempt(by(60), Vec::new(), 0),
        "a protocol call's own type arguments do not match the arity its extension declares"
    );
    assert_eq!(
        attempt(by(61), vec![Ty::I64], 0),
        "a protocol call's own type arguments do not match the extension selected for it"
    );
    assert_eq!(
        attempt(by(62), vec![Ty::I64], 0),
        "an extension's own type parameter was not determined by the protocol arguments at this call site"
    );
    assert_eq!(
        attempt(by(60), vec![Ty::I64], 0),
        "protocol call's implementing function is not present in this module"
    );
    let mut interpreter = Interpreter::new(&module);
    assert_eq!(
        text(interpreter.eval(
            &ValueKind::ProtocolCall {
                protocol: UNKNOWN,
                arguments: vec![Ty::I64],
                method: 0,
                evidence: Evidence::Forwarded(0),
                args: Vec::new(),
            },
            &Frame::new(),
            &vec![Evidence::Forwarded(0)],
            &Substitution::new(),
        )),
        "protocol call evidence did not resolve to a concrete extension"
    );
}

// ---------------------------------------------------------------------
// Frames.
// ---------------------------------------------------------------------

fn block(id: u32, instructions: Vec<Instruction>, terminator: Terminator) -> BasicBlock {
    BasicBlock {
        id: BlockId(id),
        instructions,
        terminator,
    }
}

fn function(id: ItemId, params: Vec<(Ty, bool)>, blocks: Vec<BasicBlock>) -> Function {
    Function {
        id,
        name: Symbol(0),
        type_params: Vec::new(),
        requirements: Vec::new(),
        params: params
            .into_iter()
            .enumerate()
            .map(|(index, (ty, take))| Param {
                value: ValueId(index as u32),
                ty,
                take,
            })
            .collect(),
        return_type: Ty::Unit,
        raises: Vec::new(),
        blocks,
    }
}

fn set(result: u32, kind: ValueKind) -> Instruction {
    Instruction::Value {
        result: ValueId(result),
        ty: Ty::Unit,
        kind,
    }
}

fn number(result: u32, n: u128) -> Instruction {
    set(result, ValueKind::Const(Const::Int(n)))
}

fn new_file(result: u32) -> Instruction {
    set(
        result,
        ValueKind::RecordCreate(FILE, Vec::new(), vec![ValueId(100)]),
    )
}

fn failing(result: u32) -> Instruction {
    set(
        result,
        ValueKind::VariantCreate {
            variant: FAILURE,
            case: 0,
            type_args: Vec::new(),
            payload: Vec::new(),
        },
    )
}

fn ran(functions: Vec<Function>) -> String {
    let module = module_with(functions);
    let mut interpreter = Interpreter::new(&module);
    text(interpreter.run_item(MAIN))
}

fn ran_alone(instructions: Vec<Instruction>, terminator: Terminator) -> String {
    ran(vec![function(
        MAIN,
        Vec::new(),
        vec![block(0, instructions, terminator)],
    )])
}

#[test]
fn an_unknown_function_is_named() {
    let module = module();
    let mut interner = Interner::new();
    interner.intern("main");
    let mut interpreter = Interpreter::new(&module);
    assert_eq!(
        text(interpreter.run("absent", &interner)),
        "unknown function `absent`"
    );
    assert_eq!(
        text(interpreter.run_item(ItemId(12))),
        "unknown function ItemId(12)"
    );
}

#[test]
fn a_call_from_outside_must_fit() {
    let mut generic = function(
        HELPER,
        Vec::new(),
        vec![block(0, Vec::new(), Terminator::Return(None))],
    );
    generic.type_params = vec![(TypeParamId(0), Symbol(0))];
    let mut demanding = function(
        MAIN,
        Vec::new(),
        vec![block(0, Vec::new(), Terminator::Return(None))],
    );
    demanding.requirements = vec![CapabilityRequirement::new(UNKNOWN, Vec::new())];
    let module = module_with(vec![generic, demanding]);
    let mut interpreter = Interpreter::new(&module);
    assert_eq!(
        text(interpreter.call_item(HELPER, vec![Value::Int(1)])),
        "function expects 0 argument(s), found 1"
    );
    assert_eq!(
        text(interpreter.run_item(HELPER)),
        "function declares 1 type parameter(s) but was instantiated with 0"
    );
    assert_eq!(
        text(interpreter.run_item(MAIN)),
        "function declares 1 capability requirement(s) but was given 0 evidence entries"
    );
    assert!(interpreter.event_log().is_empty());
}

#[test]
fn a_function_needs_its_entry_block_and_its_targets() {
    assert_eq!(
        ran(vec![function(MAIN, Vec::new(), Vec::new())]),
        "function has no entry block (bb0)"
    );
    assert_eq!(
        ran_alone(Vec::new(), Terminator::Branch(BlockId(3))),
        "branch to unknown block"
    );
    assert_eq!(
        ran_alone(
            vec![number(0, 1)],
            Terminator::CondBranch {
                condition: ValueId(0),
                then_block: BlockId(0),
                else_block: BlockId(0),
            }
        ),
        "branch condition was not a bool"
    );
}

#[test]
fn a_switch_needs_a_variant_and_a_target_for_its_case() {
    let switch = |scrutinee: u32, variant: ItemId| Terminator::Switch {
        scrutinee: ValueId(scrutinee),
        variant,
        cases: Vec::new(),
    };
    assert_eq!(
        ran_alone(vec![number(0, 1)], switch(0, FAILURE)),
        "switch scrutinee was not a variant value"
    );
    assert_eq!(
        ran_alone(vec![failing(0)], switch(0, MAYBE)),
        "switch scrutinee's variant identity does not match the switch's declared variant"
    );
    assert_eq!(
        ran_alone(vec![failing(0)], switch(0, FAILURE)),
        "switch scrutinee's case has no corresponding target"
    );
}

#[test]
fn a_frame_leaves_nothing_behind() {
    assert_eq!(
        ran_alone(
            vec![number(100, 1), new_file(4)],
            Terminator::Return(None)
        ),
        "function returned while still owning an undestroyed resource (%4)"
    );
    assert_eq!(
        ran_alone(
            vec![number(100, 1), new_file(4), failing(5)],
            Terminator::Raise { value: ValueId(5) }
        ),
        "function raised while still owning an undestroyed resource (%4)"
    );
    assert_eq!(
        ran_alone(
            vec![
                number(100, 1),
                new_file(4),
                number(5, 1),
                Instruction::Store {
                    slot: ValueId(4),
                    value: ValueId(5),
                    mode: OwnershipMode::Observe,
                },
            ],
            Terminator::Return(None)
        ),
        "a store would overwrite a slot (%4) that still owns an undestroyed resource"
    );
}

fn invoke(ok_slot: u32, err_targets: Vec<FailureTarget>) -> Terminator {
    Terminator::Invoke {
        callee: HELPER,
        type_args: Vec::new(),
        args: Vec::new(),
        evidence: Vec::new(),
        ok_slot: ValueId(ok_slot),
        ok_target: BlockId(1),
        err_targets,
    }
}

fn finish() -> BasicBlock {
    block(1, Vec::new(), Terminator::Return(None))
}

#[test]
fn an_invocation_handles_every_outcome() {
    let raising = || {
        function(
            HELPER,
            Vec::new(),
            vec![block(
                0,
                vec![failing(0)],
                Terminator::Raise { value: ValueId(0) },
            )],
        )
    };
    let raising_a_number = || {
        function(
            HELPER,
            Vec::new(),
            vec![block(
                0,
                vec![number(0, 1)],
                Terminator::Raise { value: ValueId(0) },
            )],
        )
    };
    let invoking = |terminator: Terminator| {
        function(
            MAIN,
            Vec::new(),
            vec![block(0, Vec::new(), terminator), finish()],
        )
    };
    assert_eq!(
        ran(vec![invoking(invoke(0, Vec::new()))]),
        "invoke targets a function not present in this module"
    );
    assert_eq!(
        ran(vec![invoking(invoke(0, Vec::new())), raising()]),
        "invoke has no failure target for the raised variant"
    );
    assert_eq!(
        ran(vec![invoking(invoke(0, Vec::new())), raising_a_number()]),
        "a raised value must be a variant value"
    );
    let calling = function(
        MAIN,
        Vec::new(),
        vec![block(
            0,
            vec![set(
                0,
                ValueKind::Call(HELPER, Vec::new(), Vec::new(), Vec::new()),
            )],
            Terminator::Return(None),
        )],
    );
    assert_eq!(
        ran(vec![calling, raising()]),
        "an ordinary call's callee raised a failure; only Invoke may call a fallible function"
    );
    assert_eq!(
        ran_alone(
            vec![set(
                0,
                ValueKind::Call(HELPER, Vec::new(), Vec::new(), Vec::new()),
            )],
            Terminator::Return(None)
        ),
        "call to a function not present in this module"
    );
    assert_eq!(
        ran_alone(vec![failing(0)], Terminator::Raise { value: ValueId(0) }),
        "an unhandled failure reached the program's entry point"
    );
    let occupied = function(
        MAIN,
        Vec::new(),
        vec![
            block(0, vec![number(100, 1), new_file(4)], invoke(4, Vec::new())),
            finish(),
        ],
    );
    assert_eq!(
        ran(vec![occupied, raising()]),
        "an invoke would overwrite a slot (%4) that still owns an undestroyed resource"
    );
}

#[test]
fn a_protocol_method_does_not_raise() {
    let raising = function(
        HELPER,
        Vec::new(),
        vec![block(
            0,
            vec![failing(0)],
            Terminator::Raise { value: ValueId(0) },
        )],
    );
    let mut module = module_with(vec![raising]);
    module.extends = vec![(
        ItemId(60),
        ExtendLayout {
            protocol: UNKNOWN,
            type_params: Vec::new(),
            protocol_arguments: vec![Ty::I64],
            methods: vec![HELPER],
        },
    )];
    assert_eq!(
        text(evaluated(
            &module,
            ValueKind::ProtocolCall {
                protocol: UNKNOWN,
                arguments: vec![Ty::I64],
                method: 0,
                evidence: Evidence::Extension {
                    extend: ItemId(60),
                    nested: Vec::new(),
                },
                args: Vec::new(),
            },
            Vec::new()
        )),
        "a protocol call's implementing method raised a failure; protocol methods that raise are not yet supported"
    );
}

#[test]
fn an_endless_recursion_is_refused() {
    let module = module_with(vec![function(
        MAIN,
        Vec::new(),
        vec![block(
            0,
            vec![set(
                0,
                ValueKind::Call(MAIN, Vec::new(), Vec::new(), Vec::new()),
            )],
            Terminator::Return(None),
        )],
    )]);
    let mut interpreter = Interpreter::new(&module);
    assert_eq!(
        text(interpreter.run_item(MAIN)),
        format!(
            "call depth exceeded {MAX_CALL_DEPTH} frames: a recursion this execution never unwound"
        )
    );
    assert_eq!(interpreter.call_depth, 0);
    assert_eq!(interpreter.event_log().len(), MAX_CALL_DEPTH);
}

#[test]
fn a_resource_is_not_both_observed_and_taken_by_one_call() {
    let taking = function(
        HELPER,
        vec![(named(FILE), false), (named(FILE), true)],
        vec![block(
            0,
            vec![Instruction::Drop { value: ValueId(1) }],
            Terminator::Return(None),
        )],
    );
    let module = module_with(vec![taking]);
    let mut interpreter = Interpreter::new(&module);
    let first = file(&mut interpreter);
    let second = file(&mut interpreter);
    assert_eq!(
        text(interpreter.call_item(
            HELPER,
            vec![Value::Resource(second), Value::Resource(second)]
        )),
        "one resource (#1) is passed to this call as both an observing argument and a `take` argument, so the callee could destroy it while the observation is still readable"
    );
    assert!(interpreter.event_log().is_empty());
    let outcome = interpreter.call_function(
        &module.functions[0],
        &Vec::new(),
        vec![Value::Resource(first), Value::Resource(second)],
        Vec::new(),
    );
    assert!(matches!(outcome, Ok(Outcome::Returned(Value::Unit))));
    assert_eq!(interpreter.event_log(), vec!["call:51", "drop:1"]);
}
