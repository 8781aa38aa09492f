use napitia::idmap::{IdMap, IdSet};
use napitia::ids::{
    BlockId, FieldId, ItemId, ObservationId, ResourceId, Symbol, TypeParamId, ValueId,
};
use napitia::interpreter::Interpreter;
use napitia::ops::{arith, div, ArithOp};
use napitia::ownership::StorePlan;
use napitia::program::{
    BasicBlock, CaseLayout, Function, Instruction, Module, OwnershipMode, Param, Place, Projection,
    RecordLayout, Terminator, ValueKind, VariantLayout,
};
use napitia::structural::canonical_root;
use napitia::symbol::Interner;
use napitia::table::ResourceStatus;
use napitia::type_ops::{checked_substitution, substitute, type_pattern_matches};
use napitia::types::{Substitution, Ty};
use napitia::value::{InterpreterError, ResourceHandle, RuntimeOwnershipRole, Value};
use napitia::value_ops::{copy_value, Frame};

const FILE: ItemId = ItemId(1);
const SESSION: ItemId = ItemId(2);
const PAIR: ItemId = ItemId(3);
const BOXY: ItemId = ItemId(4);
const MAYBE: ItemId = ItemId(5);
const POINT: ItemId = ItemId(6);
const TREE: ItemId = ItemId(7);
const CLOSE: ItemId = ItemId(50);

fn named(item: ItemId) -> Ty {
    Ty::Named(item, Symbol(0))
}

fn t() -> Ty {
    Ty::Param(TypeParamId(0), Symbol(0))
}

fn layout(generics: u32, fields: Vec<Ty>, affine: bool) -> RecordLayout {
    RecordLayout {
        name: Symbol(0),
        type_params: (0..generics).map(|id| (TypeParamId(id), Symbol(0))).collect(),
        fields: fields.into_iter().map(|ty| (Symbol(0), ty)).collect(),
        affine,
    }
}

// resource File { i64 }, resource Session { File }, record Pair { File,
// File }, record Box[T] { T }, variant Maybe[T] { T | }, record Point
// { i64, i64 }, record Tree { Maybe[Tree], i64 }, and a function that
// takes one file, observes another and closes the first.
fn module() -> Module {
    Module {
        functions: vec![Function {
            id: CLOSE,
            name: Symbol(0),
            type_params: Vec::new(),
            requirements: Vec::new(),
            params: vec![
                Param {
                    value: ValueId(0),
                    ty: named(FILE),
                    take: true,
                },
                Param {
                    value: ValueId(1),
                    ty: named(FILE),
                    take: false,
                },
            ],
            return_type: Ty::Unit,
            raises: Vec::new(),
            blocks: vec![BasicBlock {
                id: BlockId(0),
                instructions: vec![Instruction::Drop { value: ValueId(0) }],
                terminator: Terminator::Return(None),
            }],
        }],
        records: vec![
            (FILE, layout(0, vec![Ty::I64], true)),
            (SESSION, layout(0, vec![named(FILE)], true)),
            (PAIR, layout(0, vec![named(FILE), named(FILE)], false)),
            (BOXY, layout(1, vec![t()], false)),
            (POINT, layout(0, vec![Ty::I64, Ty::I64], false)),
            (
                TREE,
                layout(0, vec![Ty::Applied(MAYBE, vec![named(TREE)]), Ty::I64], false),
            ),
        ],
        variants: vec![(
            MAYBE,
            VariantLayout {
                name: Symbol(0),
                type_params: vec![(TypeParamId(0), Symbol(0))],
                cases: vec![
                    CaseLayout {
                        name: Symbol(0),
                        payload: vec![t()],
                    },
                    CaseLayout {
                        name: Symbol(0),
                        payload: Vec::new(),
                    },
                ],
            },
        )],
        protocols: Vec::new(),
        extends: Vec::new(),
    }
}

fn file(interpreter: &mut Interpreter<'_>) -> ResourceHandle {
    interpreter.resources.construct(FILE, vec![Value::Int(1)])
}

fn session(interpreter: &mut Interpreter<'_>, child: ResourceHandle) -> ResourceHandle {
    interpreter
        .resources
        .construct(SESSION, vec![Value::Resource(child)])
}

fn pair(first: ResourceHandle, second: ResourceHandle) -> Value {
    Value::Record {
        item: PAIR,
        type_args: Vec::new(),
        fields: vec![Value::Resource(first), Value::Resource(second)],
    }
}

fn generation(interpreter: &Interpreter<'_>, handle: ResourceHandle) -> u64 {
    interpreter.resources.records[handle.id.0 as usize].generation
}

fn step(field: u32) -> Projection {
    Projection::Field {
        owner: PAIR,
        field: FieldId(field),
    }
}

#[test]
fn moving_a_value_raises_what_it_carries_and_nothing_below() {
    let module = module();
    let mut interpreter = Interpreter::new(&module);
    let child = file(&mut interpreter);
    let outer = session(&mut interpreter, child);
    let bystander = file(&mut interpreter);
    let moved = interpreter
        .transfer_if_resource(&Value::Resource(outer))
        .expect("a live resource can be moved");
    assert_eq!(generation(&interpreter, outer), 1);
    assert_eq!(generation(&interpreter, child), 0);
    assert_eq!(generation(&interpreter, bystander), 0);
    assert!(interpreter.resources.observe(outer).is_err());
    assert!(interpreter.resources.observe(child).is_ok());
    match moved {
        Value::Resource(owner) => {
            assert_eq!(owner.id, outer.id);
            assert_eq!(owner.generation, 1);
            assert!(interpreter.resources.observe(owner).is_ok());
        }
        other => panic!("a moved resource is a resource, got {other:?}"),
    }
}

#[test]
fn destruction_goes_last_field_first_and_owner_last() {
    let module = module();
    let mut interpreter = Interpreter::new(&module);
    let first = file(&mut interpreter);
    let second = file(&mut interpreter);
    let third = file(&mut interpreter);
    let outer = session(&mut interpreter, third);
    interpreter
        .drop_value(&pair(first, second))
        .expect("a live pair can be destroyed");
    interpreter
        .drop_value(&Value::Resource(outer))
        .expect("a live session can be destroyed");
    assert_eq!(
        interpreter.event_log(),
        vec!["drop:1", "drop:0", "drop:2", "drop:3"]
    );
    for record in &interpreter.resources.records {
        assert_eq!(record.status, ResourceStatus::Dropped);
    }
    assert!(interpreter.drop_value(&Value::Resource(outer)).is_err());
    assert_eq!(interpreter.event_log().len(), 4);
    let mut values = Frame::new();
    values.insert(ValueId(0), Value::Resource(outer));
    assert_eq!(
        interpreter.leaked_resource(&values, &IdSet::new(), &IdSet::new()),
        None
    );
}

#[test]
fn what_was_taken_can_be_put_back() {
    let module = module();
    let mut interpreter = Interpreter::new(&module);
    let child = file(&mut interpreter);
    let outer = session(&mut interpreter, child);
    let root = Value::Record {
        item: BOXY,
        type_args: vec![named(SESSION)],
        fields: vec![Value::Resource(outer)],
    };
    let steps = [step(0), step(0)];
    let before = format!("{:?}", interpreter.resources);
    let observed = interpreter
        .observe_projections(&root, &steps)
        .expect("a live place can be read");
    let taken = interpreter
        .take_projections(&root, &steps)
        .expect("a live place can be taken from");
    assert_eq!(taken.extracted, observed);
    assert_eq!(
        interpreter.observe_projections(&taken.container, &steps),
        Ok(Value::Moved)
    );
    assert_ne!(format!("{:?}", interpreter.resources), before);
    assert_eq!(
        interpreter.store_projections(&taken.container, &steps, taken.extracted),
        Ok(root)
    );
    assert_eq!(format!("{:?}", interpreter.resources), before);
}

#[test]
fn moving_into_a_place_empties_the_source_and_its_storage() {
    let module = module();
    let mut interpreter = Interpreter::new(&module);
    let old = file(&mut interpreter);
    let other = file(&mut interpreter);
    let mut values = Frame::new();
    values.insert(
        ValueId(0),
        Value::Record {
            item: PAIR,
            type_args: Vec::new(),
            fields: vec![Value::Moved, Value::Resource(other)],
        },
    );
    values.insert(ValueId(1), Value::Resource(old));
    values.insert(ValueId(2), Value::Resource(old));
    let mut origins = IdMap::new();
    origins.insert(2, ValueId(1));
    let place = Place::root(ValueId(0)).field(PAIR, FieldId(0));
    interpreter
        .store_place_transfer(&mut values, &origins, &place, ValueId(2))
        .expect("an empty field can be filled");
    assert_eq!(values.get(&ValueId(1)), Some(&Value::Moved));
    assert_eq!(values.get(&ValueId(2)), Some(&Value::Moved));
    assert!(interpreter.resources.observe(old).is_err());
    let stored = interpreter
        .access_place(&mut values, &origins, &place, OwnershipMode::Transfer)
        .expect("a filled field can be taken from");
    match stored {
        Value::Resource(owner) => {
            assert_eq!(owner.id, old.id);
            assert_eq!(owner.role, RuntimeOwnershipRole::Owner);
            assert!(interpreter.resources.observe(owner).is_ok());
        }
        other => panic!("a stored resource is a resource, got {other:?}"),
    }
    assert!(interpreter.resources.observe(other).is_ok());
}

#[test]
fn a_chain_of_loads_leads_to_its_slot() {
    let mut origins = IdMap::new();
    origins.insert(9, ValueId(7));
    origins.insert(7, ValueId(3));
    assert_eq!(canonical_root(&origins, ValueId(9)), ValueId(3));
    assert_eq!(canonical_root(&origins, ValueId(7)), ValueId(3));
    assert_eq!(canonical_root(&origins, ValueId(3)), ValueId(3));
    assert_eq!(canonical_root(&origins, ValueId(8)), ValueId(8));
    let mut circle = IdMap::new();
    circle.insert(1, ValueId(2));
    circle.insert(2, ValueId(1));
    let ended = canonical_root(&circle, ValueId(1));
    assert!(ended == ValueId(1) || ended == ValueId(2));
}

#[test]
fn an_observation_sees_each_resource_once_outermost_first() {
    let module = module();
    let mut interpreter = Interpreter::new(&module);
    let child = file(&mut interpreter);
    let outer = session(&mut interpreter, child);
    let value = Value::Record {
        item: PAIR,
        type_args: Vec::new(),
        fields: vec![Value::Resource(outer), Value::Resource(child)],
    };
    let mut seen = IdSet::new();
    let mut order = Vec::new();
    interpreter
        .collect_reachable_resources(&value, &mut seen, &mut order, 0)
        .expect("a shallow graph can be walked");
    assert_eq!(order, vec![ResourceId(1), ResourceId(0)]);
    assert_eq!(seen.members(), vec![0, 1]);
}

#[test]
fn an_observing_view_stops_with_its_observation() {
    let module = module();
    let mut interpreter = Interpreter::new(&module);
    let child = file(&mut interpreter);
    let outer = session(&mut interpreter, child);
    let mut values = Frame::new();
    values.insert(ValueId(0), Value::Resource(outer));
    let mut leases = Vec::new();
    let before = format!("{:?}", interpreter.resources.records);
    let view = interpreter
        .begin_observe(
            &values,
            &IdMap::new(),
            &mut leases,
            ObservationId(0),
            &Place::root(ValueId(0)),
        )
        .expect("a live place can be observed");
    let watching = match view {
        Value::Resource(handle) => handle,
        other => panic!("a view of a resource is a resource, got {other:?}"),
    };
    assert_eq!(watching.role, RuntimeOwnershipRole::Observer);
    let inner = interpreter
        .resources
        .observe_field(watching, 0)
        .expect("a field can be read through an observer");
    match inner {
        Value::Resource(handle) => {
            assert_eq!(handle.role, RuntimeOwnershipRole::Observer);
            assert_eq!(handle.lease, watching.lease);
        }
        other => panic!("a view of a resource is a resource, got {other:?}"),
    }
    interpreter
        .end_observe(&mut leases, ObservationId(0))
        .expect("the innermost observation can end");
    assert!(interpreter.resources.observe(watching).is_err());
    assert!(interpreter.resources.observe(outer).is_ok());
    assert_eq!(format!("{:?}", interpreter.resources.records), before);
}

#[test]
fn entering_a_call_moves_what_it_takes_and_leaves_what_it_observes() {
    let module = module();
    let mut interpreter = Interpreter::new(&module);
    let taken = file(&mut interpreter);
    let observed = file(&mut interpreter);
    assert_eq!(
        interpreter.call_item(
            CLOSE,
            vec![Value::Resource(taken), Value::Resource(observed)]
        ),
        Ok(Value::Unit)
    );
    assert_eq!(interpreter.event_log(), vec!["call:50", "drop:0"]);
    assert_eq!(generation(&interpreter, taken), 1);
    assert_eq!(generation(&interpreter, observed), 0);
    assert!(interpreter.resources.observe(taken).is_err());
    assert!(interpreter.resources.observe(observed).is_ok());
    let before = format!("{:?} {:?}", interpreter.resources, interpreter.event_log());
    for args in [
        Vec::new(),
        vec![Value::Int(1), Value::Resource(observed)],
        vec![Value::Resource(taken), Value::Resource(observed)],
        vec![Value::Resource(observed), Value::Resource(observed)],
    ] {
        assert!(interpreter.call_item(CLOSE, args).is_err());
        assert_eq!(
            format!("{:?} {:?}", interpreter.resources, interpreter.event_log()),
            before
        );
    }
}

#[test]
fn a_construction_moves_its_parts_and_gives_a_new_resource() {
    let module = module();
    let mut interpreter = Interpreter::new(&module);
    let child = file(&mut interpreter);
    let mut values = Frame::new();
    values.insert(ValueId(0), Value::Resource(child));
    let built = interpreter
        .eval(
            &ValueKind::RecordCreate(SESSION, Vec::new(), vec![ValueId(0)]),
            &values,
            &Vec::new(),
            &Substitution::new(),
        )
        .expect("a session can be built from a live file");
    let outer = match built {
        Value::Resource(handle) => handle,
        other => panic!("a constructed resource is a resource, got {other:?}"),
    };
    assert_eq!(outer.id, ResourceId(1));
    assert!(interpreter.resources.observe(child).is_err());
    let field = interpreter
        .resources
        .observe_field(outer, 0)
        .expect("the new resource owns its field");
    match field {
        Value::Resource(handle) => {
            assert_eq!(handle.id, child.id);
            assert_eq!(handle.generation, 1);
        }
        other => panic!("a stored resource is a resource, got {other:?}"),
    }
    let twice = interpreter.eval(
        &ValueKind::RecordCreate(SESSION, Vec::new(), vec![ValueId(0)]),
        &values,
        &Vec::new(),
        &Substitution::new(),
    );
    assert!(twice.is_err());
}

#[test]
fn a_type_is_affine_where_it_may_own_a_resource() {
    let module = module();
    let interpreter = Interpreter::new(&module);
    assert!(interpreter.is_affine(&named(FILE)));
    assert!(interpreter.is_affine(&named(PAIR)));
    assert!(interpreter.is_affine(&Ty::Applied(BOXY, vec![named(FILE)])));
    assert!(interpreter.is_affine(&Ty::Applied(
        MAYBE,
        vec![Ty::Applied(BOXY, vec![named(SESSION)])]
    )));
    assert!(!interpreter.is_affine(&Ty::Applied(BOXY, vec![Ty::I64])));
    assert!(!interpreter.is_affine(&named(POINT)));
    assert!(!interpreter.is_affine(&named(TREE)));
    assert!(!interpreter.is_affine(&Ty::I64));
    assert!(interpreter.is_affine(&Ty::Applied(BOXY, Vec::new())));
    assert!(interpreter.is_affine(&Ty::Applied(ItemId(99), Vec::new())));
}

#[test]
fn a_pattern_matches_what_its_parameters_can_stand_for() {
    let both = Ty::Applied(PAIR, vec![t(), t()]);
    let mut bindings = Substitution::new();
    assert!(type_pattern_matches(
        &both,
        &Ty::Applied(PAIR, vec![Ty::I64, Ty::I64]),
        &mut bindings
    ));
    assert_eq!(
        substitute(&both, &bindings),
        Ty::Applied(PAIR, vec![Ty::I64, Ty::I64])
    );
    assert!(!type_pattern_matches(
        &both,
        &Ty::Applied(PAIR, vec![Ty::I64, Ty::Bool]),
        &mut Substitution::new()
    ));
    assert!(!type_pattern_matches(
        &Ty::Never,
        &Ty::Never,
        &mut Substitution::new()
    ));
    assert!(checked_substitution(&vec![TypeParamId(0)], &Vec::new()).is_none());
    let bound = checked_substitution(
        &vec![TypeParamId(0), TypeParamId(1)],
        &vec![Ty::Bool, Ty::Char],
    )
    .expect("as many arguments as parameters");
    assert_eq!(bound.get(&TypeParamId(0)), Some(&Ty::Bool));
    assert_eq!(bound.get(&TypeParamId(1)), Some(&Ty::Char));
    assert_eq!(bound.get(&TypeParamId(2)), None);
}

#[test]
fn a_name_has_one_symbol() {
    let mut interner = Interner::new();
    let first = interner.intern("first");
    let second = interner.intern("second");
    assert_ne!(first, second);
    assert_eq!(interner.intern("first"), first);
    assert_eq!(interner.resolve(first), Some("first"));
    assert_eq!(interner.resolve(second), Some("second"));
    assert_eq!(interner.resolve(Symbol(2)), None);
}

#[test]
fn a_resource_that_owns_itself_is_no_graph() {
    let module = module();
    let mut interpreter = Interpreter::new(&module);
    let child = file(&mut interpreter);
    let outer = session(&mut interpreter, child);
    interpreter.resources.records[1].fields[0] = Value::Resource(outer);
    let value = Value::Resource(outer);
    assert!(interpreter.validate_owned_graph(&value).is_err());
    assert!(interpreter.transfer_if_resource(&value).is_err());
    assert!(interpreter.drop_value(&value).is_err());
    assert!(interpreter.event_log().is_empty());
}

#[test]
fn a_payload_position_is_claimed_once() {
    let module = module();
    let mut interpreter = Interpreter::new(&module);
    let child = file(&mut interpreter);
    let shell = Value::Variant {
        item: MAYBE,
        type_args: vec![named(FILE)],
        case: 0,
        payload: vec![Value::Resource(child)],
    };
    let mut values = Frame::new();
    values.insert(ValueId(0), copy_value(&shell));
    values.insert(ValueId(1), Value::Resource(child));
    let claim = vec![(0, ValueId(1))];
    assert_eq!(
        interpreter.decompose_variant(&mut values, &IdMap::new(), ValueId(0), MAYBE, 0, &claim),
        Ok(())
    );
    assert_eq!(
        values.get(&ValueId(0)),
        Some(&Value::Variant {
            item: MAYBE,
            type_args: vec![named(FILE)],
            case: 0,
            payload: vec![Value::Moved],
        })
    );
    assert_eq!(values.get(&ValueId(1)), Some(&Value::Resource(child)));
    assert!(interpreter
        .decompose_variant(&mut values, &IdMap::new(), ValueId(0), MAYBE, 0, &claim)
        .is_err());
}

#[test]
fn a_plan_reaches_only_what_is_alive_and_owned() {
    let module = module();
    let mut interpreter = Interpreter::new(&module);
    let child = file(&mut interpreter);
    let outer = session(&mut interpreter, child);
    let boxed = Value::Record {
        item: BOXY,
        type_args: vec![named(SESSION)],
        fields: vec![Value::Resource(outer)],
    };
    let mut plan = StorePlan::new();
    assert!(interpreter.plan_transfer(&boxed, &mut plan, 0).is_ok());
    interpreter
        .resources
        .drop_resource(child)
        .expect("a live resource can be dropped");
    let before = format!("{:?}", interpreter.resources);
    for value in [copy_value(&boxed), Value::Resource(outer)] {
        let mut plan = StorePlan::new();
        assert_eq!(
            interpreter.plan_transfer(&value, &mut plan, 0),
            Err(InterpreterError::InvalidOperation(
                "cannot transfer ownership of a resource that was already dropped".to_string()
            ))
        );
        assert!(interpreter.transfer_if_resource(&value).is_err());
    }
    assert_eq!(format!("{:?}", interpreter.resources), before);
}

#[test]
fn a_plan_refuses_what_is_merely_observed_below() {
    let module = module();
    let mut interpreter = Interpreter::new(&module);
    let child = file(&mut interpreter);
    let watching = ResourceHandle {
        role: RuntimeOwnershipRole::Observer,
        ..child
    };
    let outer = session(&mut interpreter, watching);
    let before = format!("{:?}", interpreter.resources);
    let mut plan = StorePlan::new();
    assert_eq!(
        interpreter.plan_transfer(&Value::Resource(outer), &mut plan, 0),
        Err(InterpreterError::InvalidOperation(
            "cannot transfer ownership through a merely-observing resource handle".to_string()
        ))
    );
    assert_eq!(format!("{:?}", interpreter.resources), before);
}

// A frame whose %0 is a session with an empty field and whose %1 is a
// file that may go into it.
fn ready(interpreter: &mut Interpreter<'_>) -> (ResourceHandle, ResourceHandle) {
    let open = file(interpreter);
    let empty = interpreter.resources.construct(SESSION, vec![Value::Moved]);
    (empty, open)
}

fn watching(handle: ResourceHandle) -> ResourceHandle {
    ResourceHandle {
        role: RuntimeOwnershipRole::Observer,
        ..handle
    }
}

fn earlier(interpreter: &mut Interpreter<'_>, handle: ResourceHandle) -> ResourceHandle {
    interpreter
        .transfer_if_resource(&Value::Resource(handle))
        .expect("a live resource can be moved");
    handle
}

// What stands in %0 and what in %1, for each reason not to store the
// second into the first field of the first.
fn unfit(interpreter: &mut Interpreter<'_>, reason: u32) -> (Value, Value) {
    let (empty, open) = ready(interpreter);
    let (root, source) = (Value::Resource(empty), Value::Resource(open));
    match reason {
        0 => {
            let inner = file(interpreter);
            (Value::Resource(session(interpreter, inner)), source)
        }
        1 => (Value::Resource(watching(empty)), source),
        2 => (Value::Resource(earlier(interpreter, empty)), source),
        3 => (root, Value::Resource(watching(open))),
        4 => (root, Value::Resource(earlier(interpreter, open))),
        5 => {
            interpreter
                .resources
                .drop_resource(open)
                .expect("a live resource can be dropped");
            (root, source)
        }
        6 => (root, Value::Int(1)),
        7 => (
            root,
            Value::Record {
                item: BOXY,
                type_args: Vec::new(),
                fields: vec![source],
            },
        ),
        8 => (root, pair(open, open)),
        9 => {
            let nested = interpreter
                .resources
                .construct(SESSION, vec![Value::Resource(empty)]);
            (root, Value::Resource(nested))
        }
        _ => (root, Value::Moved),
    }
}

#[test]
fn an_unfit_structural_store_is_refused_and_changes_nothing() {
    let module = module();
    for reason in 0..=10 {
        let mut interpreter = Interpreter::new(&module);
        let (root, source) = unfit(&mut interpreter, reason);
        let mut values = Frame::new();
        values.insert(ValueId(0), copy_value(&root));
        values.insert(ValueId(1), copy_value(&source));
        let place = Place::root(ValueId(0)).field(SESSION, FieldId(0));
        let before = format!("{:?}", interpreter.resources);
        let first =
            interpreter.store_place_transfer(&mut values, &IdMap::new(), &place, ValueId(1));
        assert!(
            matches!(first, Err(InterpreterError::InvalidOperation(_))),
            "reason {reason} gave {first:?}"
        );
        assert_eq!(
            interpreter.store_place_transfer(&mut values, &IdMap::new(), &place, ValueId(1)),
            first
        );
        assert_eq!(format!("{:?}", interpreter.resources), before);
        assert_eq!(values.get(&ValueId(0)), Some(&root));
        assert_eq!(values.get(&ValueId(1)), Some(&source));
    }
}

#[test]
fn a_store_into_its_own_storage_is_refused_through_any_load() {
    let module = module();
    let mut interpreter = Interpreter::new(&module);
    let (empty, _) = ready(&mut interpreter);
    let mut values = Frame::new();
    values.insert(ValueId(0), Value::Resource(empty));
    values.insert(ValueId(1), Value::Resource(empty));
    let mut loads: IdMap<ValueId> = IdMap::new();
    loads.insert(1, ValueId(0));
    let place = Place::root(ValueId(0)).field(SESSION, FieldId(0));
    let first = interpreter.store_place_transfer(&mut values, &loads, &place, ValueId(1));
    assert_eq!(
        first,
        Err(InterpreterError::InvalidOperation(
            "a structural store's own source and destination name the same storage".to_string()
        ))
    );
    assert_eq!(
        interpreter.store_place_transfer(&mut values, &loads, &place, ValueId(1)),
        first
    );
}

#[test]
fn committing_a_store_undoes_committing_a_take() {
    let module = module();
    let mut interpreter = Interpreter::new(&module);
    let child = file(&mut interpreter);
    let outer = session(&mut interpreter, child);
    let root = Value::Resource(outer);
    let steps = [step(0)];
    let before = format!("{:?}", interpreter.resources);
    let taken = interpreter
        .commit_take_projections(&root, &steps)
        .expect("a live field can be taken");
    assert_eq!(taken.extracted, Value::Resource(child));
    assert_ne!(format!("{:?}", interpreter.resources), before);
    assert_eq!(
        interpreter.commit_store_projections(&taken.container, &steps, taken.extracted),
        Ok(root)
    );
    assert_eq!(format!("{:?}", interpreter.resources), before);
}

#[test]
fn a_refused_frame_is_refused_again_with_the_same_error() {
    let module = module();
    let mut interpreter = Interpreter::new(&module);
    let one = file(&mut interpreter);
    let before = format!("{:?}", interpreter.resources);
    let mut errors = Vec::new();
    for _ in 0..2 {
        let args = vec![Value::Resource(one), Value::Resource(one)];
        let outcome = interpreter.call_function_in_frame(
            &module.functions[0],
            &Vec::new(),
            args,
            Vec::new(),
        );
        errors.push(outcome.map(|_| ()).expect_err("a file is not taken and observed at once"));
        assert_eq!(format!("{:?}", interpreter.resources), before);
    }
    assert_eq!(errors[0], errors[1]);
    assert!(interpreter.event_log().is_empty());
}

#[test]
fn a_refused_call_is_refused_again_with_the_same_error() {
    let module = module();
    let mut interpreter = Interpreter::new(&module);
    let one = file(&mut interpreter);
    for args in [
        Vec::new(),
        vec![Value::Int(1), Value::Resource(one)],
        vec![Value::Resource(one), Value::Resource(one)],
    ] {
        let copies: Vec<Value> = args.iter().map(copy_value).collect();
        let first = interpreter.call_item(CLOSE, args);
        assert!(first.is_err());
        assert_eq!(interpreter.call_item(CLOSE, copies), first);
    }
    assert!(interpreter.event_log().is_empty());
}

#[test]
fn division_rounds_toward_zero() {
    for (x, y, quotient, rest) in [
        (7, 2, 3, 1),
        (-7, 2, -3, -1),
        (7, -2, -3, 1),
        (-7, -2, 3, -1),
    ] {
        assert_eq!(
            div(&Value::Int(x), &Value::Int(y), false),
            Ok(Value::Int(quotient))
        );
        assert_eq!(
            div(&Value::Int(x), &Value::Int(y), true),
            Ok(Value::Int(rest))
        );
    }
    assert_eq!(
        arith(ArithOp::Sub, &Value::Int(3), &Value::Int(5)),
        Ok(Value::Int(-2))
    );
}
