use napitia::ids::{ItemId, Symbol, TypeParamId, ValueId};
use napitia::idmap::IdMap;
use napitia::interpreter::Interpreter;
use napitia::program::{CaseLayout, Module, RecordLayout, VariantLayout};
use napitia::types::Ty;
use napitia::value::{InterpreterError, ResourceHandle, Value};
use napitia::value_ops::Frame;

fn snapshot(values: &Frame) -> String {
    format!("{values:?}")
}


const FILE: ItemId = ItemId(90);
const MAYBE: ItemId = ItemId(91);

fn module() -> Module {
    let name = Symbol(0);
    let param = TypeParamId(0);
    Module {
        functions: Vec::new(),
        records: vec![(
            FILE,
            RecordLayout {
                name,
                type_params: Vec::new(),
                fields: vec![(name, Ty::I64)],
                affine: true,
            },
        )],
        variants: vec![(
            MAYBE,
            VariantLayout {
                name,
                type_params: vec![(param, name)],
                cases: vec![
                    CaseLayout {
                        name,
                        payload: vec![Ty::Param(param, name)],
                    },
                    CaseLayout {
                        name,
                        payload: Vec::new(),
                    },
                ],
            },
        )],
        protocols: Vec::new(),
        extends: Vec::new(),
    }
}

fn frame(
    interpreter: &mut Interpreter<'_>,
) -> (Frame, ResourceHandle, ResourceHandle) {
    let real = interpreter
        .resources
        .construct(FILE, vec![Value::Int(1)]);
    let unrelated = interpreter
        .resources
        .construct(FILE, vec![Value::Int(2)]);
    let mut values = Frame::new();
    values.insert(
        ValueId(0),
        Value::Variant {
            item: MAYBE,
            type_args: vec![Ty::Named(FILE, Symbol(0))],
            case: 0,
            payload: vec![Value::Resource(real)],
        },
    );
    values.insert(ValueId(1), Value::Resource(real));
    values.insert(ValueId(2), Value::Resource(unrelated));
    (values, real, unrelated)
}

fn assert_refused_without_mutation(
    interpreter: &mut Interpreter<'_>,
    values: &mut Frame,
    taken: &Vec<(usize, ValueId)>,
    case: usize,
    what: &str,
) {
    let before = snapshot(&values);
    let result =
        interpreter.decompose_variant(values, &IdMap::new(), ValueId(0), MAYBE, case, taken);
    assert!(
        matches!(result, Err(InterpreterError::InvalidOperation(_))),
        "{what}: expected a structured error, got {result:?}"
    );
    assert_eq!(snapshot(&values), before,
        "{what}: a refused decomposition changed the frame"
    );
    let again =
        interpreter.decompose_variant(values, &IdMap::new(), ValueId(0), MAYBE, case, taken);
    assert_eq!(result, again, "{what}: the refusal is not deterministic");
    assert_eq!(snapshot(&values), before, "{what}: the retry mutated the frame");
}

#[test]
fn a_claim_naming_an_unrelated_value_is_refused_and_the_shell_is_untouched() {
    let module = module();
    let mut interpreter = Interpreter::new(&module);
    let (mut values, real, unrelated) = frame(&mut interpreter);
    assert_refused_without_mutation(
        &mut interpreter,
        &mut values,
        &vec![(0, ValueId(2))],
        0,
        "claim naming an unrelated value of the same shape",
    );
    for handle in [real, unrelated] {
        assert!(
            interpreter.resources.observe(handle).is_ok(),
            "no resource may have been touched"
        );
    }
}

#[test]
fn a_claim_naming_a_value_this_frame_never_computed_is_refused() {
    let module = module();
    let mut interpreter = Interpreter::new(&module);
    let (mut values, _, _) = frame(&mut interpreter);
    assert_refused_without_mutation(
        &mut interpreter,
        &mut values,
        &vec![(0, ValueId(9))],
        0,
        "claim naming an uncomputed value",
    );
}

#[test]
fn a_claim_of_a_position_out_of_range_is_refused() {
    let module = module();
    let mut interpreter = Interpreter::new(&module);
    let (mut values, _, _) = frame(&mut interpreter);
    assert_refused_without_mutation(
        &mut interpreter,
        &mut values,
        &vec![(3, ValueId(1))],
        0,
        "claim of a position out of range",
    );
}

#[test]
fn a_decomposition_naming_the_inactive_case_is_refused() {
    let module = module();
    let mut interpreter = Interpreter::new(&module);
    let (mut values, _, _) = frame(&mut interpreter);
    assert_refused_without_mutation(
        &mut interpreter,
        &mut values,
        &Vec::new(),
        1,
        "decomposition of a case that is not live",
    );
}

#[test]
fn one_bad_claim_after_a_good_one_leaves_the_shell_entirely_untouched() {
    let module = module();
    let mut interpreter = Interpreter::new(&module);
    let (mut values, real, _) = frame(&mut interpreter);
    assert_refused_without_mutation(
        &mut interpreter,
        &mut values,
        &vec![(0, ValueId(1)), (3, ValueId(1))],
        0,
        "a valid claim followed by an invalid one",
    );
    assert!(
        interpreter.resources.observe(real).is_ok(),
        "the real payload is still exactly where it was"
    );
}

#[test]
fn the_matching_claim_moves_exactly_that_position_out_of_the_shell() {
    let module = module();
    let mut interpreter = Interpreter::new(&module);
    let (mut values, real, _) = frame(&mut interpreter);
    interpreter
        .decompose_variant(
            &mut values,
            &IdMap::new(),
            ValueId(0),
            MAYBE,
            0,
            &vec![(0, ValueId(1))],
        )
        .expect("claiming the value the position actually holds must succeed");
    assert_eq!(
        values.get(&ValueId(0)),
        Some(&Value::Variant {
            item: MAYBE,
            type_args: vec![Ty::Named(FILE, Symbol(0))],
            case: 0,
            payload: vec![Value::Moved],
        }),
        "the shell keeps its case and loses exactly the claimed position"
    );
    assert!(
        interpreter.resources.observe(real).is_ok(),
        "the payload itself is untouched -- only who owns it changed"
    );
}
