use napitia::float::Double;
use napitia::ids::{BlockId, FieldId, ItemId, Symbol, TypeParamId, ValueId};
use napitia::interpreter::Interpreter;
use napitia::program::{
    BasicBlock, CaseLayout, Const, FailureTarget, Function, Instruction, Module, OwnershipMode,
    Param, Place, RecordLayout, Terminator, ValueKind, VariantLayout,
};
use napitia::symbol::Interner;
use napitia::types::Ty;
use napitia::value::{InterpreterError, Value};

// A program under construction. Every test below is written next to the
// program it stands for.

struct Program {
    interner: Interner,
    module: Module,
    next: u32,
}

impl Program {
    fn new() -> Program {
        Program {
            interner: Interner::new(),
            module: Module {
                functions: Vec::new(),
                records: Vec::new(),
                variants: Vec::new(),
                protocols: Vec::new(),
                extends: Vec::new(),
            },
            next: 0,
        }
    }

    fn item(&mut self) -> ItemId {
        let item = ItemId(self.next);
        self.next += 1;
        item
    }

    fn type_params(&mut self, names: &[&str]) -> Vec<(TypeParamId, Symbol)> {
        let mut params = Vec::new();
        for (index, name) in names.iter().enumerate() {
            params.push((TypeParamId(index as u32), self.interner.intern(name)));
        }
        params
    }

    fn layout(&mut self, name: &str, generics: &[&str], fields: Vec<Ty>, affine: bool) -> ItemId {
        let item = self.item();
        let name = self.interner.intern(name);
        let type_params = self.type_params(generics);
        let fields = fields.into_iter().map(|ty| (name, ty)).collect();
        self.module.records.push((
            item,
            RecordLayout {
                name,
                type_params,
                fields,
                affine,
            },
        ));
        item
    }

    fn resource(&mut self, name: &str, fields: Vec<Ty>) -> ItemId {
        self.layout(name, &[], fields, true)
    }

    fn record(&mut self, name: &str, fields: Vec<Ty>) -> ItemId {
        self.layout(name, &[], fields, false)
    }

    fn generic_record(&mut self, name: &str, fields: Vec<Ty>) -> ItemId {
        self.layout(name, &["T"], fields, false)
    }

    fn variants(&mut self, name: &str, generics: &[&str], cases: Vec<Vec<Ty>>) -> ItemId {
        let item = self.item();
        let name = self.interner.intern(name);
        let type_params = self.type_params(generics);
        let cases = cases
            .into_iter()
            .map(|payload| CaseLayout { name, payload })
            .collect();
        self.module.variants.push((
            item,
            VariantLayout {
                name,
                type_params,
                cases,
            },
        ));
        item
    }

    fn variant(&mut self, name: &str, cases: Vec<Vec<Ty>>) -> ItemId {
        self.variants(name, &[], cases)
    }

    fn generic_variant(&mut self, name: &str, cases: Vec<Vec<Ty>>) -> ItemId {
        self.variants(name, &["T"], cases)
    }

    fn named(&mut self, item: ItemId) -> Ty {
        Ty::Named(item, Symbol(0))
    }

    fn generic_function(
        &mut self,
        name: &str,
        generics: &[&str],
        params: Vec<(Ty, bool)>,
        return_type: Ty,
        code: Code,
    ) -> ItemId {
        let id = self.item();
        let name = self.interner.intern(name);
        let type_params = self.type_params(generics);
        let params = params
            .into_iter()
            .enumerate()
            .map(|(index, (ty, take))| Param {
                value: ValueId(index as u32),
                ty,
                take,
            })
            .collect();
        self.module.functions.push(Function {
            id,
            name,
            type_params,
            requirements: Vec::new(),
            params,
            return_type,
            raises: Vec::new(),
            blocks: code.blocks,
        });
        id
    }

    fn function(
        &mut self,
        name: &str,
        params: Vec<(Ty, bool)>,
        return_type: Ty,
        code: Code,
    ) -> ItemId {
        self.generic_function(name, &[], params, return_type, code)
    }

    fn main(mut self, return_type: Ty, code: Code) -> Program {
        self.function("main", Vec::new(), return_type, code);
        self
    }

    fn run(&self) -> Result<Value, InterpreterError> {
        Interpreter::new(&self.module).run("main", &self.interner)
    }

    fn run_with_log(&self) -> (Result<Value, InterpreterError>, Vec<String>) {
        let mut interpreter = Interpreter::new(&self.module);
        let outcome = interpreter.run("main", &self.interner);
        let log = interpreter
            .event_log()
            .into_iter()
            .map(|event| match event.strip_prefix("call:") {
                Some(id) => {
                    let id: u32 = id.parse().expect("a call event carries a number");
                    let function = self
                        .module
                        .functions
                        .iter()
                        .find(|f| f.id.0 == id)
                        .expect("a call event names a function of the module");
                    let name = self
                        .interner
                        .resolve(function.name)
                        .expect("every function has a name");
                    format!("call:{name}")
                }
                None => event,
            })
            .collect();
        (outcome, log)
    }

    fn drops(&self) -> Vec<String> {
        let (result, log) = self.run_with_log();
        assert!(result.is_ok(), "program failed at runtime: {result:?}");
        log.into_iter()
            .filter(|event| event.starts_with("drop:"))
            .collect()
    }
}

// The body of a function under construction, one block after another.

struct Code {
    blocks: Vec<BasicBlock>,
    current: usize,
    next: u32,
}

impl Code {
    // A body whose parameters are the first values.
    fn new(params: u32) -> Code {
        Code {
            blocks: vec![Code::empty(0)],
            current: 0,
            next: params,
        }
    }

    fn empty(id: u32) -> BasicBlock {
        BasicBlock {
            id: BlockId(id),
            instructions: Vec::new(),
            terminator: Terminator::Return(None),
        }
    }

    fn block(&mut self) -> BlockId {
        let id = self.blocks.len() as u32;
        self.blocks.push(Code::empty(id));
        BlockId(id)
    }

    fn at(&mut self, block: BlockId) {
        self.current = block.0 as usize;
    }

    fn fresh(&mut self) -> ValueId {
        let id = ValueId(self.next);
        self.next += 1;
        id
    }

    fn push(&mut self, instruction: Instruction) {
        self.blocks[self.current].instructions.push(instruction);
    }

    fn end(&mut self, terminator: Terminator) {
        self.blocks[self.current].terminator = terminator;
    }

    fn typed(&mut self, ty: Ty, kind: ValueKind) -> ValueId {
        let result = self.fresh();
        self.push(Instruction::Value { result, ty, kind });
        result
    }

    // A value of which no step asks the type it declares.
    fn value(&mut self, kind: ValueKind) -> ValueId {
        self.typed(Ty::Unit, kind)
    }

    fn number(&mut self, n: u128) -> ValueId {
        self.value(ValueKind::Const(Const::Int(n)))
    }

    fn minus(&mut self, n: u128) -> ValueId {
        let n = self.number(n);
        self.value(ValueKind::Neg(n))
    }

    fn truth(&mut self, b: bool) -> ValueId {
        self.value(ValueKind::Const(Const::Bool(b)))
    }

    fn create(&mut self, item: ItemId, fields: Vec<ValueId>) -> ValueId {
        self.value(ValueKind::RecordCreate(item, Vec::new(), fields))
    }

    fn create_of(&mut self, item: ItemId, type_args: Vec<Ty>, fields: Vec<ValueId>) -> ValueId {
        self.value(ValueKind::RecordCreate(item, type_args, fields))
    }

    fn case(&mut self, variant: ItemId, case: usize, payload: Vec<ValueId>) -> ValueId {
        self.case_of(variant, Vec::new(), case, payload)
    }

    fn case_of(
        &mut self,
        variant: ItemId,
        type_args: Vec<Ty>,
        case: usize,
        payload: Vec<ValueId>,
    ) -> ValueId {
        self.value(ValueKind::VariantCreate {
            variant,
            case,
            type_args,
            payload,
        })
    }

    // A resource with one number in it.
    fn file(&mut self, file: ItemId, descriptor: u128) -> ValueId {
        let descriptor = self.number(descriptor);
        self.create(file, vec![descriptor])
    }

    fn field(&mut self, base: ValueId, record: ItemId, field: usize) -> ValueId {
        self.value(ValueKind::RecordField {
            base,
            record,
            field,
        })
    }

    fn payload(&mut self, base: ValueId, variant: ItemId, case: usize, index: usize) -> ValueId {
        self.value(ValueKind::VariantPayload {
            base,
            variant,
            case,
            index,
        })
    }

    fn call(&mut self, callee: ItemId, args: Vec<ValueId>) -> ValueId {
        self.value(ValueKind::Call(callee, Vec::new(), args, Vec::new()))
    }

    fn call_of(&mut self, callee: ItemId, type_args: Vec<Ty>, args: Vec<ValueId>) -> ValueId {
        self.value(ValueKind::Call(callee, type_args, args, Vec::new()))
    }

    fn load(&mut self, slot: ValueId) -> ValueId {
        self.value(ValueKind::Load(slot))
    }

    // A local variable.
    fn slot(&mut self, ty: Ty) -> ValueId {
        self.typed(ty, ValueKind::Alloc)
    }

    // A local variable with an initial value.
    fn local(&mut self, ty: Ty, value: ValueId) -> ValueId {
        let slot = self.slot(ty);
        self.store(slot, value);
        slot
    }

    fn store(&mut self, slot: ValueId, value: ValueId) {
        self.push(Instruction::Store {
            slot,
            value,
            mode: OwnershipMode::Transfer,
        });
    }

    fn drop(&mut self, value: ValueId) {
        self.push(Instruction::Drop { value });
    }

    fn drop_local(&mut self, slot: ValueId) {
        let value = self.load(slot);
        self.drop(value);
    }

    // Moves a field out of a local variable.
    fn take_field(&mut self, slot: ValueId, owner: ItemId, field: u32) -> ValueId {
        self.value(ValueKind::PlaceRead {
            place: Place::root(slot).field(owner, FieldId(field)),
            mode: OwnershipMode::Transfer,
        })
    }

    // Takes a variant apart: its payload positions, each now owned on
    // its own.
    fn take_apart(
        &mut self,
        value: ValueId,
        variant: ItemId,
        case: usize,
        positions: usize,
    ) -> Vec<ValueId> {
        let mut found = Vec::new();
        for index in 0..positions {
            found.push(self.payload(value, variant, case, index));
        }
        let taken = found.iter().copied().enumerate().collect();
        self.push(Instruction::DecomposeVariant {
            value,
            variant,
            case,
            taken,
        });
        found
    }

    fn give(&mut self, value: ValueId) {
        self.end(Terminator::Return(Some(value)));
    }

    fn give_number(&mut self, n: u128) {
        let n = self.number(n);
        self.give(n);
    }

    fn give_negative(&mut self, n: u128) {
        let n = self.minus(n);
        self.give(n);
    }

    fn goto(&mut self, target: BlockId) {
        self.end(Terminator::Branch(target));
    }

    fn branch(&mut self, condition: ValueId) -> (BlockId, BlockId) {
        let then_block = self.block();
        let else_block = self.block();
        self.end(Terminator::CondBranch {
            condition,
            then_block,
            else_block,
        });
        (then_block, else_block)
    }

    fn switch(&mut self, scrutinee: ValueId, variant: ItemId, cases: usize) -> Vec<BlockId> {
        let cases: Vec<BlockId> = (0..cases).map(|_| self.block()).collect();
        self.end(Terminator::Switch {
            scrutinee,
            variant,
            cases: cases.clone(),
        });
        cases
    }

    fn raise(&mut self, value: ValueId) {
        self.end(Terminator::Raise { value });
    }

    // Calls a function that may fail with one of some variants: where
    // success continues and its value, and the same for each failure.
    fn invoke(
        &mut self,
        callee: ItemId,
        args: Vec<ValueId>,
        failures: Vec<ItemId>,
    ) -> ((BlockId, ValueId), Vec<(BlockId, ValueId)>) {
        let ok_slot = self.fresh();
        let ok_target = self.block();
        let mut err_targets = Vec::new();
        let mut found = Vec::new();
        for variant in failures {
            let slot = self.fresh();
            let target = self.block();
            err_targets.push(FailureTarget {
                variant,
                slot,
                target,
            });
            found.push((target, slot));
        }
        self.end(Terminator::Invoke {
            callee,
            type_args: Vec::new(),
            args,
            evidence: Vec::new(),
            ok_slot,
            ok_target,
            err_targets,
        });
        ((ok_target, ok_slot), found)
    }
}

fn file_of(program: &mut Program) -> ItemId {
    program.resource("File", vec![Ty::I64])
}

fn of(item: ItemId) -> Ty {
    Ty::Named(item, Symbol(0))
}

fn parameter() -> Ty {
    Ty::Param(TypeParamId(0), Symbol(0))
}

// func sink(take file: File) -> i64 {
//     value descriptor = file.descriptor;
//     drop file;
//     return descriptor
// }
fn sink(program: &mut Program, file: ItemId) -> ItemId {
    let mut code = Code::new(1);
    let descriptor = code.field(ValueId(0), file, 0);
    code.drop(ValueId(0));
    code.give(descriptor);
    let ty = program.named(file);
    program.function("sink", vec![(ty, true)], Ty::I64, code)
}

// ---------------------------------------------------------------------
// Plain computation.
// ---------------------------------------------------------------------

// func main() -> i64 { return 40 + 2 }
#[test]
fn executes_arithmetic() {
    let mut code = Code::new(0);
    let a = code.number(40);
    let b = code.number(2);
    let sum = code.value(ValueKind::Add(a, b));
    code.give(sum);
    assert_eq!(
        Program::new().main(Ty::I64, code).run(),
        Ok(Value::Int(42))
    );
}

// func add(left: i64, right: i64) -> i64 { return left + right }
// func main() -> i64 { return add(40, 2) }
#[test]
fn executes_function_calls() {
    let mut program = Program::new();
    let mut add = Code::new(2);
    let sum = add.value(ValueKind::Add(ValueId(0), ValueId(1)));
    add.give(sum);
    let add = program.function("add", vec![(Ty::I64, false), (Ty::I64, false)], Ty::I64, add);
    let mut code = Code::new(0);
    let a = code.number(40);
    let b = code.number(2);
    let result = code.call(add, vec![a, b]);
    code.give(result);
    assert_eq!(program.main(Ty::I64, code).run(), Ok(Value::Int(42)));
}

// func fact(n: i64) -> i64 { if n == 0 { return 1 } return n * fact(n - 1) }
// func main() -> i64 { return fact(5) }
#[test]
fn executes_recursive_calls() {
    let mut program = Program::new();
    let fact = ItemId(program.next);
    let mut code = Code::new(1);
    let zero = code.number(0);
    let done = code.value(ValueKind::Eq(ValueId(0), zero));
    let (then_block, else_block) = code.branch(done);
    code.at(then_block);
    code.give_number(1);
    code.at(else_block);
    let one = code.number(1);
    let less = code.value(ValueKind::Sub(ValueId(0), one));
    let rest = code.call(fact, vec![less]);
    let product = code.value(ValueKind::Mul(ValueId(0), rest));
    code.give(product);
    assert_eq!(program.function("fact", vec![(Ty::I64, false)], Ty::I64, code), fact);
    let mut code = Code::new(0);
    let five = code.number(5);
    let result = code.call(fact, vec![five]);
    code.give(result);
    assert_eq!(program.main(Ty::I64, code).run(), Ok(Value::Int(120)));
}

// func main() -> i64 {
//     value answer = 42;
//     if answer == 42 { return answer } else { return 0 }
// }
#[test]
fn executes_if_else() {
    let mut code = Code::new(0);
    let n = code.number(42);
    let answer = code.local(Ty::I64, n);
    let a = code.load(answer);
    let b = code.number(42);
    let same = code.value(ValueKind::Eq(a, b));
    let (then_block, else_block) = code.branch(same);
    code.at(then_block);
    let found = code.load(answer);
    code.give(found);
    code.at(else_block);
    code.give_number(0);
    assert_eq!(Program::new().main(Ty::I64, code).run(), Ok(Value::Int(42)));
}

// func main() -> i64 {
//     mutable total = 0;
//     mutable i = 0;
//     while i < 5 { total = total + i; i = i + 1; }
//     return total
// }
#[test]
fn executes_while_loop() {
    let mut code = Code::new(0);
    let zero = code.number(0);
    let total = code.local(Ty::I64, zero);
    let zero = code.number(0);
    let i = code.local(Ty::I64, zero);
    let head = code.block();
    code.goto(head);
    code.at(head);
    let a = code.load(i);
    let five = code.number(5);
    let more = code.value(ValueKind::Lt(a, five));
    let (body, after) = code.branch(more);
    code.at(body);
    let a = code.load(total);
    let b = code.load(i);
    let sum = code.value(ValueKind::Add(a, b));
    code.store(total, sum);
    let a = code.load(i);
    let one = code.number(1);
    let next = code.value(ValueKind::Add(a, one));
    code.store(i, next);
    code.goto(head);
    code.at(after);
    let result = code.load(total);
    code.give(result);
    assert_eq!(Program::new().main(Ty::I64, code).run(), Ok(Value::Int(10)));
}

// func main() -> i64 {
//     mutable i = 0;
//     loop { if i == 3 { break; } i = i + 1; }
//     return i
// }
#[test]
fn executes_loop_with_break() {
    let mut code = Code::new(0);
    let zero = code.number(0);
    let i = code.local(Ty::I64, zero);
    let head = code.block();
    code.goto(head);
    code.at(head);
    let a = code.load(i);
    let three = code.number(3);
    let stop = code.value(ValueKind::Eq(a, three));
    let (leave, stay) = code.branch(stop);
    code.at(stay);
    let a = code.load(i);
    let one = code.number(1);
    let next = code.value(ValueKind::Add(a, one));
    code.store(i, next);
    code.goto(head);
    code.at(leave);
    let result = code.load(i);
    code.give(result);
    assert_eq!(Program::new().main(Ty::I64, code).run(), Ok(Value::Int(3)));
}

// func main() -> i64 {
//     mutable i = 0;
//     mutable total = 0;
//     while i < 5 { i = i + 1; if i == 3 { continue; } total = total + i; }
//     return total
// }
#[test]
fn executes_continue() {
    let mut code = Code::new(0);
    let zero = code.number(0);
    let i = code.local(Ty::I64, zero);
    let zero = code.number(0);
    let total = code.local(Ty::I64, zero);
    let head = code.block();
    code.goto(head);
    code.at(head);
    let a = code.load(i);
    let five = code.number(5);
    let more = code.value(ValueKind::Lt(a, five));
    let (body, after) = code.branch(more);
    code.at(body);
    let a = code.load(i);
    let one = code.number(1);
    let next = code.value(ValueKind::Add(a, one));
    code.store(i, next);
    let a = code.load(i);
    let three = code.number(3);
    let skip = code.value(ValueKind::Eq(a, three));
    let (skipped, counted) = code.branch(skip);
    code.at(skipped);
    code.goto(head);
    code.at(counted);
    let a = code.load(total);
    let b = code.load(i);
    let sum = code.value(ValueKind::Add(a, b));
    code.store(total, sum);
    code.goto(head);
    code.at(after);
    let result = code.load(total);
    code.give(result);
    assert_eq!(Program::new().main(Ty::I64, code).run(), Ok(Value::Int(12)));
}

// func main() -> i64 { value z = 0; return 1 / z }
#[test]
fn detects_division_by_zero() {
    let mut code = Code::new(0);
    let zero = code.number(0);
    let z = code.local(Ty::I64, zero);
    let one = code.number(1);
    let z = code.load(z);
    let quotient = code.value(ValueKind::Div(one, z));
    code.give(quotient);
    assert_eq!(
        Program::new().main(Ty::I64, code).run(),
        Err(InterpreterError::DivisionByZero)
    );
}

// func main() -> i64 { value z = 0; return 1 % z }
#[test]
fn detects_remainder_by_zero() {
    let mut code = Code::new(0);
    let zero = code.number(0);
    let z = code.local(Ty::I64, zero);
    let one = code.number(1);
    let z = code.load(z);
    let rest = code.value(ValueKind::Rem(one, z));
    code.give(rest);
    assert_eq!(
        Program::new().main(Ty::I64, code).run(),
        Err(InterpreterError::DivisionByZero)
    );
}

// func main() -> f64 { value z = 0.0; return 1.0 / z }
#[test]
fn float_division_by_zero_is_infinity_not_an_error() {
    let mut code = Code::new(0);
    let zero = code.value(ValueKind::Const(Const::Float(Double::from_bits(
        0.0_f64.to_bits(),
    ))));
    let z = code.local(Ty::F64, zero);
    let one = code.value(ValueKind::Const(Const::Float(Double::from_bits(
        1.0_f64.to_bits(),
    ))));
    let z = code.load(z);
    let quotient = code.value(ValueKind::Div(one, z));
    code.give(quotient);
    assert_eq!(
        Program::new().main(Ty::F64, code).run(),
        Ok(Value::Float(Double::from_bits(f64::INFINITY.to_bits())))
    );
}

// The blocks of `left && (1 / z == 1)`, or of `||`.
fn short_circuit(left: bool, stop_when: bool) -> Code {
    let mut code = Code::new(0);
    let zero = code.number(0);
    let z = code.local(Ty::I64, zero);
    let left = code.truth(left);
    let result = code.local(Ty::Bool, left);
    let left = code.load(result);
    let (if_true, if_false) = code.branch(left);
    let (stop, go) = if stop_when {
        (if_true, if_false)
    } else {
        (if_false, if_true)
    };
    code.at(go);
    let one = code.number(1);
    let divisor = code.load(z);
    let quotient = code.value(ValueKind::Div(one, divisor));
    let one = code.number(1);
    let same = code.value(ValueKind::Eq(quotient, one));
    code.store(result, same);
    code.goto(stop);
    code.at(stop);
    let result = code.load(result);
    code.give(result);
    code
}

// func main() -> bool { value z = 0; return false && (1 / z == 1) }
#[test]
fn short_circuit_and_skips_the_right_operand() {
    assert_eq!(
        Program::new().main(Ty::Bool, short_circuit(false, false)).run(),
        Ok(Value::Bool(false))
    );
}

// func main() -> bool { value z = 0; return true || (1 / z == 1) }
#[test]
fn short_circuit_or_skips_the_right_operand() {
    assert_eq!(
        Program::new().main(Ty::Bool, short_circuit(true, true)).run(),
        Ok(Value::Bool(true))
    );
}

// func main() -> ... { return a <operator> b }
fn binary(
    ty: Ty,
    a: u128,
    b: u128,
    kind: fn(ValueId, ValueId) -> ValueKind,
) -> Result<Value, InterpreterError> {
    let mut code = Code::new(0);
    let a = code.number(a);
    let b = code.number(b);
    let result = code.value(kind(a, b));
    code.give(result);
    Program::new().main(ty, code).run()
}

// return 6 & 3, 6 | 1, 5 ^ 1, 1 << 4, 16 >> 2
#[test]
fn executes_bitwise_and_shift_operators() {
    assert_eq!(binary(Ty::I64, 6, 3, ValueKind::And), Ok(Value::Int(2)));
    assert_eq!(binary(Ty::I64, 6, 1, ValueKind::Or), Ok(Value::Int(7)));
    assert_eq!(binary(Ty::I64, 5, 1, ValueKind::Xor), Ok(Value::Int(4)));
    assert_eq!(binary(Ty::I64, 1, 4, ValueKind::Shl), Ok(Value::Int(16)));
    assert_eq!(binary(Ty::I64, 16, 2, ValueKind::Shr), Ok(Value::Int(4)));
}

// return 1 < 2, 2 <= 2, 3 > 2, 2 >= 3
#[test]
fn executes_comparisons() {
    assert_eq!(binary(Ty::Bool, 1, 2, ValueKind::Lt), Ok(Value::Bool(true)));
    assert_eq!(binary(Ty::Bool, 2, 2, ValueKind::Le), Ok(Value::Bool(true)));
    assert_eq!(binary(Ty::Bool, 3, 2, ValueKind::Gt), Ok(Value::Bool(true)));
    assert_eq!(binary(Ty::Bool, 2, 3, ValueKind::Ge), Ok(Value::Bool(false)));
}

// func main() -> i64 { return -5 }, func main() -> bool { return !false }
#[test]
fn executes_unary_negation_and_not() {
    let mut code = Code::new(0);
    code.give_negative(5);
    assert_eq!(Program::new().main(Ty::I64, code).run(), Ok(Value::Int(-5)));
    let mut code = Code::new(0);
    let falsehood = code.truth(false);
    let result = code.value(ValueKind::Not(falsehood));
    code.give(result);
    assert_eq!(
        Program::new().main(Ty::Bool, code).run(),
        Ok(Value::Bool(true))
    );
}

// func main() -> i64 { mutable x = 10; x += 5; return x }
#[test]
fn executes_compound_assignment() {
    let mut code = Code::new(0);
    let ten = code.number(10);
    let x = code.local(Ty::I64, ten);
    let a = code.load(x);
    let five = code.number(5);
    let sum = code.value(ValueKind::Add(a, five));
    code.store(x, sum);
    let result = code.load(x);
    code.give(result);
    assert_eq!(Program::new().main(Ty::I64, code).run(), Ok(Value::Int(15)));
}

// func main() -> i64 { value m = <the largest i64>; return m + 1 }
#[test]
fn integer_overflow_wraps_instead_of_panicking() {
    let mut code = Code::new(0);
    let most = code.number(i64::MAX as u128);
    let m = code.local(Ty::I64, most);
    let a = code.load(m);
    let one = code.number(1);
    let sum = code.value(ValueKind::Add(a, one));
    code.give(sum);
    assert!(Program::new().main(Ty::I64, code).run().is_ok());
}

// func main() -> i64 { mutable x = return 1; x = 99; return x }
#[test]
fn diverging_initializer_short_circuits_the_rest_of_the_block() {
    let mut code = Code::new(0);
    code.give_number(1);
    assert_eq!(Program::new().main(Ty::I64, code).run(), Ok(Value::Int(1)));
}

// func main() { while { return; } {} }
#[test]
fn diverging_while_condition_runs_and_returns_unit() {
    let mut code = Code::new(0);
    let head = code.block();
    code.goto(head);
    code.at(head);
    code.end(Terminator::Return(None));
    assert_eq!(Program::new().main(Ty::Unit, code).run(), Ok(Value::Unit));
}

// func main() { if true { 1 } }
#[test]
fn if_without_else_evaluates_the_branch_but_returns_unit() {
    let mut code = Code::new(0);
    let condition = code.truth(true);
    let (then_block, after) = code.branch(condition);
    code.at(then_block);
    code.number(1);
    code.goto(after);
    code.at(after);
    code.end(Terminator::Return(None));
    assert_eq!(Program::new().main(Ty::Unit, code).run(), Ok(Value::Unit));
}

// func choose(flag: bool) -> i64 { if flag { return 1 } else { 2 } }
// func main() -> i64 { return choose(false) }
#[test]
fn if_else_join_returns_the_non_diverging_value_when_then_diverges() {
    let mut program = Program::new();
    let mut choose = Code::new(1);
    let result = choose.slot(Ty::I64);
    let (then_block, else_block) = choose.branch(ValueId(0));
    choose.at(then_block);
    choose.give_number(1);
    choose.at(else_block);
    let two = choose.number(2);
    choose.store(result, two);
    let join = choose.block();
    choose.goto(join);
    choose.at(join);
    let found = choose.load(result);
    choose.give(found);
    let choose = program.function("choose", vec![(Ty::Bool, false)], Ty::I64, choose);
    let mut code = Code::new(0);
    let flag = code.truth(false);
    let result = code.call(choose, vec![flag]);
    code.give(result);
    assert_eq!(program.main(Ty::I64, code).run(), Ok(Value::Int(2)));
}

// func choose(flag: bool) -> i64 { if flag { 2 } else { return 1 } }
// func main() -> i64 { return choose(true) }
#[test]
fn if_else_join_returns_the_non_diverging_value_when_else_diverges() {
    let mut program = Program::new();
    let mut choose = Code::new(1);
    let result = choose.slot(Ty::I64);
    let (then_block, else_block) = choose.branch(ValueId(0));
    choose.at(else_block);
    choose.give_number(1);
    choose.at(then_block);
    let two = choose.number(2);
    choose.store(result, two);
    let join = choose.block();
    choose.goto(join);
    choose.at(join);
    let found = choose.load(result);
    choose.give(found);
    let choose = program.function("choose", vec![(Ty::Bool, false)], Ty::I64, choose);
    let mut code = Code::new(0);
    let flag = code.truth(true);
    let result = code.call(choose, vec![flag]);
    code.give(result);
    assert_eq!(program.main(Ty::I64, code).run(), Ok(Value::Int(2)));
}

// func main() -> i64 { !{ return 7 } }
#[test]
fn unary_not_on_a_diverging_operand_returns_the_divergent_value() {
    let mut code = Code::new(0);
    code.give_number(7);
    assert_eq!(Program::new().main(Ty::I64, code).run(), Ok(Value::Int(7)));
}

// func main() -> i64 { 1 == { return 7 } }
#[test]
fn comparison_with_a_diverging_right_operand_returns_the_divergent_value() {
    let mut code = Code::new(0);
    code.number(1);
    code.give_number(7);
    assert_eq!(Program::new().main(Ty::I64, code).run(), Ok(Value::Int(7)));
}

// func main() -> i64 { mutable x = 0; x = { return 7 }; }
#[test]
fn assignment_with_a_diverging_right_hand_side_returns_the_divergent_value() {
    let mut code = Code::new(0);
    let zero = code.number(0);
    code.local(Ty::I64, zero);
    code.give_number(7);
    assert_eq!(Program::new().main(Ty::I64, code).run(), Ok(Value::Int(7)));
}

// func main() -> i64 { return 0 }
#[test]
fn calling_an_unknown_function_is_an_error_not_a_panic() {
    let mut code = Code::new(0);
    code.give_number(0);
    let program = Program::new().main(Ty::I64, code);
    let outcome = Interpreter::new(&program.module).run("does_not_exist", &program.interner);
    assert!(matches!(
        outcome,
        Err(InterpreterError::InvalidOperation(_))
    ));
}

// func main() -> i64 { return 1 } func other_main() -> i64 { return 2 }
#[test]
fn run_item_executes_the_function_with_that_id_not_by_name() {
    let mut program = Program::new();
    let mut code = Code::new(0);
    code.give_number(1);
    program.function("main", Vec::new(), Ty::I64, code);
    let mut code = Code::new(0);
    code.give_number(2);
    let other_main = program.function("other_main", Vec::new(), Ty::I64, code);
    let outcome = Interpreter::new(&program.module).run_item(other_main);
    assert_eq!(outcome, Ok(Value::Int(2)));
}

// ---------------------------------------------------------------------
// Records and variants.
// ---------------------------------------------------------------------

// record User { id: i64, enabled: bool }
// func identity(u: User) -> User { return u }
// func main() -> i64 {
//     value u = User { id: 42, enabled: true };
//     return identity(u).id
// }
#[test]
fn record_values_cross_function_boundaries() {
    let mut program = Program::new();
    let user = program.record("User", vec![Ty::I64, Ty::Bool]);
    let user_ty = program.named(user);
    let mut identity = Code::new(1);
    identity.give(ValueId(0));
    let identity =
        program.function("identity", vec![(user_ty.clone(), false)], user_ty, identity);
    let mut code = Code::new(0);
    let id = code.number(42);
    let enabled = code.truth(true);
    let u = code.create(user, vec![id, enabled]);
    let u = code.local(of(user), u);
    let u = code.load(u);
    let same = code.call(identity, vec![u]);
    let id = code.field(same, user, 0);
    code.give(id);
    assert_eq!(program.main(Ty::I64, code).run(), Ok(Value::Int(42)));
}

// record Point { x: i64, y: i64 }
// func main() -> i64 { value p = Point { y: 2, x: 40 }; return p.x + p.y }
#[test]
fn field_access_reads_the_correct_field_regardless_of_construction_order() {
    let mut program = Program::new();
    let point = program.record("Point", vec![Ty::I64, Ty::I64]);
    let mut code = Code::new(0);
    let y = code.number(2);
    let x = code.number(40);
    let p = code.create(point, vec![x, y]);
    let p = code.local(of(point), p);
    let base = code.load(p);
    let x = code.field(base, point, 0);
    let base = code.load(p);
    let y = code.field(base, point, 1);
    let sum = code.value(ValueKind::Add(x, y));
    code.give(sum);
    assert_eq!(program.main(Ty::I64, code).run(), Ok(Value::Int(42)));
}

// variant LookupResult { Found(i64), Missing }
// func identity(r: LookupResult) -> LookupResult { return r }
// func main() -> i64 {
//     value r = identity(LookupResult.Found(42));
//     return match r { Found(v) => v, Missing => 0 }
// }
#[test]
fn variant_values_cross_function_boundaries() {
    let mut program = Program::new();
    let lookup = program.variant("LookupResult", vec![vec![Ty::I64], vec![]]);
    let lookup_ty = program.named(lookup);
    let mut identity = Code::new(1);
    identity.give(ValueId(0));
    let identity =
        program.function("identity", vec![(lookup_ty.clone(), false)], lookup_ty, identity);
    let mut code = Code::new(0);
    let n = code.number(42);
    let found = code.case(lookup, 0, vec![n]);
    let r = code.call(identity, vec![found]);
    let r = code.local(of(lookup), r);
    let r = code.load(r);
    let arms = code.switch(r, lookup, 2);
    code.at(arms[0]);
    let v = code.payload(r, lookup, 0, 0);
    code.give(v);
    code.at(arms[1]);
    code.give_number(0);
    assert_eq!(program.main(Ty::I64, code).run(), Ok(Value::Int(42)));
}

// record User { id: i64 }
// variant LookupResult { Found(User), Missing }
// func main() -> i64 {
//     value user = User { id: 42 };
//     value result = LookupResult.Found(user);
//     return match result { Found(u) => u.id, Missing => 0 }
// }
#[test]
fn nested_aggregates_execute_correctly() {
    let mut program = Program::new();
    let user = program.record("User", vec![Ty::I64]);
    let user_ty = program.named(user);
    let lookup = program.variant("LookupResult", vec![vec![user_ty], vec![]]);
    let mut code = Code::new(0);
    let id = code.number(42);
    let made = code.create(user, vec![id]);
    let held = code.local(of(user), made);
    let held = code.load(held);
    let found = code.case(lookup, 0, vec![held]);
    let result = code.local(of(lookup), found);
    let result = code.load(result);
    let arms = code.switch(result, lookup, 2);
    code.at(arms[0]);
    let u = code.payload(result, lookup, 0, 0);
    let id = code.field(u, user, 0);
    code.give(id);
    code.at(arms[1]);
    code.give_number(0);
    assert_eq!(program.main(Ty::I64, code).run(), Ok(Value::Int(42)));
}

// variant Shape { Circle(i64), Square(i64) }
// func main() -> i64 {
//     value s = Shape.Square(7);
//     return match s { Circle(v) => v * 100, Square(v) => v * 10 }
// }
#[test]
fn match_executes_only_the_matching_variant_arm() {
    let mut program = Program::new();
    let shape = program.variant("Shape", vec![vec![Ty::I64], vec![Ty::I64]]);
    let mut code = Code::new(0);
    let seven = code.number(7);
    let s = code.case(shape, 1, vec![seven]);
    let s = code.local(of(shape), s);
    let s = code.load(s);
    let arms = code.switch(s, shape, 2);
    for (case, factor) in [(0, 100), (1, 10)] {
        code.at(arms[case]);
        let v = code.payload(s, shape, case, 0);
        let factor = code.number(factor);
        let product = code.value(ValueKind::Mul(v, factor));
        code.give(product);
    }
    assert_eq!(program.main(Ty::I64, code).run(), Ok(Value::Int(70)));
}

// variant Shape { Circle(i64), Square(i64), Triangle }
// func main() -> i64 {
//     value s = Shape.Triangle;
//     return match s { Circle(v) => v, Square(v) => v, _ => 99 }
// }
#[test]
fn match_wildcard_fallback_is_used_when_no_case_matches() {
    let mut program = Program::new();
    let shape = program.variant("Shape", vec![vec![Ty::I64], vec![Ty::I64], vec![]]);
    let mut code = Code::new(0);
    let s = code.case(shape, 2, vec![]);
    let s = code.local(of(shape), s);
    let s = code.load(s);
    let arms = code.switch(s, shape, 3);
    for case in [0, 1] {
        code.at(arms[case]);
        let v = code.payload(s, shape, case, 0);
        code.give(v);
    }
    code.at(arms[2]);
    code.give_number(99);
    assert_eq!(program.main(Ty::I64, code).run(), Ok(Value::Int(99)));
}

// func main() -> i64 { return 1 + match true { true => 41, false => 0 } }
#[test]
fn match_returns_a_value_used_by_the_caller() {
    let mut code = Code::new(0);
    let one = code.number(1);
    let result = code.slot(Ty::I64);
    let scrutinee = code.truth(true);
    let (if_true, if_false) = code.branch(scrutinee);
    let join = code.block();
    for (arm, n) in [(if_true, 41), (if_false, 0)] {
        code.at(arm);
        let n = code.number(n);
        code.store(result, n);
        code.goto(join);
    }
    code.at(join);
    let found = code.load(result);
    let sum = code.value(ValueKind::Add(one, found));
    code.give(sum);
    assert_eq!(Program::new().main(Ty::I64, code).run(), Ok(Value::Int(42)));
}

// variant Shape { Circle(i64), Empty }
// func f(s: Shape) -> i64 { return match s { Circle(v) => v, Empty => return 42 } }
// func main() -> i64 { return f(Shape.Circle(7)) }
#[test]
fn match_with_one_diverging_arm_still_returns_the_other_arms_value() {
    let mut program = Program::new();
    let shape = program.variant("Shape", vec![vec![Ty::I64], vec![]]);
    let shape_ty = program.named(shape);
    let mut f = Code::new(1);
    let arms = f.switch(ValueId(0), shape, 2);
    f.at(arms[0]);
    let v = f.payload(ValueId(0), shape, 0, 0);
    f.give(v);
    f.at(arms[1]);
    f.give_number(42);
    let f = program.function("f", vec![(shape_ty, false)], Ty::I64, f);
    let mut code = Code::new(0);
    let seven = code.number(7);
    let circle = code.case(shape, 0, vec![seven]);
    let result = code.call(f, vec![circle]);
    code.give(result);
    assert_eq!(program.main(Ty::I64, code).run(), Ok(Value::Int(7)));
}

// variant Shape { Circle, Empty }
// func f(s: Shape) -> i64 { match s { Circle => return 1, Empty => return 2 } }
// func main() -> i64 { return f(Shape.Empty) }
#[test]
fn fully_diverging_match_never_produces_a_fabricated_value() {
    let mut program = Program::new();
    let shape = program.variant("Shape", vec![vec![], vec![]]);
    let shape_ty = program.named(shape);
    let mut f = Code::new(1);
    let arms = f.switch(ValueId(0), shape, 2);
    f.at(arms[0]);
    f.give_number(1);
    f.at(arms[1]);
    f.give_number(2);
    let f = program.function("f", vec![(shape_ty, false)], Ty::I64, f);
    let mut code = Code::new(0);
    let empty = code.case(shape, 1, vec![]);
    let result = code.call(f, vec![empty]);
    code.give(result);
    assert_eq!(program.main(Ty::I64, code).run(), Ok(Value::Int(2)));
}

// variant Inner { X, Y }
// variant Outer { A(Inner), B }
// func main() -> i64 {
//     value o = Outer.A(Inner.Y);
//     return match o { A(X) => 1, A(Y) => 2, B => 3 }
// }
#[test]
fn nested_variant_pattern_extracts_the_correct_payload() {
    let mut program = Program::new();
    let inner = program.variant("Inner", vec![vec![], vec![]]);
    let inner_ty = program.named(inner);
    let outer = program.variant("Outer", vec![vec![inner_ty], vec![]]);
    let mut code = Code::new(0);
    let y = code.case(inner, 1, vec![]);
    let o = code.case(outer, 0, vec![y]);
    let o = code.local(of(outer), o);
    let o = code.load(o);
    let arms = code.switch(o, outer, 2);
    code.at(arms[1]);
    code.give_number(3);
    code.at(arms[0]);
    let held = code.payload(o, outer, 0, 0);
    let arms = code.switch(held, inner, 2);
    code.at(arms[0]);
    code.give_number(1);
    code.at(arms[1]);
    code.give_number(2);
    assert_eq!(program.main(Ty::I64, code).run(), Ok(Value::Int(2)));
}

// ---------------------------------------------------------------------
// Deferred calls.
// ---------------------------------------------------------------------

// resource File { descriptor: i64 }
// func inspect(file: File) -> i64 { return file.descriptor }
// func main() -> i64 {
//     value a = File { descriptor: 1 };
//     defer inspect(a);
//     value b = File { descriptor: 2 };
//     defer inspect(b);
//     return 0;
// }
#[test]
fn multiple_defers_run_in_reverse_registration_order_interleaved_with_drops() {
    let mut program = Program::new();
    let file = file_of(&mut program);
    let file_ty = program.named(file);
    let mut inspect = Code::new(1);
    let descriptor = inspect.field(ValueId(0), file, 0);
    inspect.give(descriptor);
    let inspect = program.function("inspect", vec![(file_ty, false)], Ty::I64, inspect);
    let mut code = Code::new(0);
    let made = code.file(file, 1);
    let a = code.local(of(file), made);
    let made = code.file(file, 2);
    let b = code.local(of(file), made);
    let zero = code.number(0);
    for slot in [b, a] {
        let seen = code.load(slot);
        code.call(inspect, vec![seen]);
        code.drop_local(slot);
    }
    code.give(zero);
    let (outcome, log) = program.main(Ty::I64, code).run_with_log();
    assert_eq!(outcome, Ok(Value::Int(0)));
    assert_eq!(
        log,
        vec![
            "call:main",
            "call:inspect",
            "drop:1",
            "call:inspect",
            "drop:0"
        ],
        "expected declaration-reversed interleaving of defers and drops, \
         not defers and drops running as two separate groups"
    );
}

// resource File { descriptor: i64 }
// func consume(take file: File) -> i64 { return file.descriptor }
// func main() -> i64 {
//     value file = File { descriptor: 7 };
//     defer consume(file);
//     return 0;
// }
#[test]
fn a_consuming_defer_runs_exactly_once_at_scope_exit() {
    let mut program = Program::new();
    let file = file_of(&mut program);
    let file_ty = program.named(file);
    let mut consume = Code::new(1);
    let descriptor = consume.field(ValueId(0), file, 0);
    consume.drop(ValueId(0));
    consume.give(descriptor);
    let consume = program.function("consume", vec![(file_ty, true)], Ty::I64, consume);
    let mut code = Code::new(0);
    let made = code.file(file, 7);
    let held = code.local(of(file), made);
    let source = code.load(held);
    let captured = code.typed(of(file), ValueKind::DeferCapture { source });
    let zero = code.number(0);
    code.call(consume, vec![captured]);
    code.give(zero);
    let (outcome, log) = program.main(Ty::I64, code).run_with_log();
    assert_eq!(outcome, Ok(Value::Int(0)));
    assert_eq!(
        log,
        vec!["call:main", "call:consume", "drop:0"],
        "consume's own take parameter must be dropped exactly once, inside \
         consume itself, with no separate drop in the caller's own frame"
    );
}

// ---------------------------------------------------------------------
// Generics.
// ---------------------------------------------------------------------

// func identity[T](x: T) -> T { return x }
// func main() -> i64 { return identity[i64](42) }
#[test]
fn a_generic_identity_function_runs_end_to_end() {
    let mut program = Program::new();
    let mut identity = Code::new(1);
    identity.give(ValueId(0));
    let identity = program.generic_function(
        "identity",
        &["T"],
        vec![(parameter(), false)],
        parameter(),
        identity,
    );
    let mut code = Code::new(0);
    let n = code.number(42);
    let result = code.call_of(identity, vec![Ty::I64], vec![n]);
    code.give(result);
    assert_eq!(program.main(Ty::I64, code).run(), Ok(Value::Int(42)));
}

// record Box[T] { payload: T }
// func main() -> i64 { value b = Box[i64] { payload: 42 }; return b.payload }
#[test]
fn a_generic_record_construction_and_field_access_runs_end_to_end() {
    let mut program = Program::new();
    let boxy = program.generic_record("Box", vec![parameter()]);
    let mut code = Code::new(0);
    let n = code.number(42);
    let b = code.create_of(boxy, vec![Ty::I64], vec![n]);
    let b = code.local(Ty::Applied(boxy, vec![Ty::I64]), b);
    let b = code.load(b);
    let payload = code.field(b, boxy, 0);
    code.give(payload);
    assert_eq!(program.main(Ty::I64, code).run(), Ok(Value::Int(42)));
}

fn maybe_of(program: &mut Program) -> ItemId {
    program.generic_variant("Maybe", vec![vec![parameter()], vec![]])
}

// variant Maybe[T] { Some(T), None }
// func main() -> i64 { return match Maybe[i64].Some(42) { Some(n) => n, None => 0 } }
#[test]
fn a_generic_variant_construction_and_exhaustive_match_runs_end_to_end() {
    let mut program = Program::new();
    let maybe = maybe_of(&mut program);
    let mut code = Code::new(0);
    let n = code.number(42);
    let some = code.case_of(maybe, vec![Ty::I64], 0, vec![n]);
    let arms = code.switch(some, maybe, 2);
    code.at(arms[0]);
    let n = code.payload(some, maybe, 0, 0);
    code.give(n);
    code.at(arms[1]);
    code.give_number(0);
    assert_eq!(program.main(Ty::I64, code).run(), Ok(Value::Int(42)));
}

// variant Maybe[T] { Some(T), None }
// func main() -> i64 { return match Maybe[i64].None { Some(n) => n, None => 7 } }
#[test]
fn a_bare_generic_unit_case_runs_end_to_end() {
    let mut program = Program::new();
    let maybe = maybe_of(&mut program);
    let mut code = Code::new(0);
    let none = code.case_of(maybe, vec![Ty::I64], 1, vec![]);
    let arms = code.switch(none, maybe, 2);
    code.at(arms[0]);
    let n = code.payload(none, maybe, 0, 0);
    code.give(n);
    code.at(arms[1]);
    code.give_number(7);
    assert_eq!(program.main(Ty::I64, code).run(), Ok(Value::Int(7)));
}

// record Box[T] { payload: T }
// variant Maybe[T] { Some(T), None }
// func main() -> i64 {
//     value b = Box[Maybe[i64]] { payload: Maybe[i64].Some(42) };
//     return match b.payload { Some(n) => n, None => 0 }
// }
#[test]
fn a_generic_record_nested_inside_another_generic_record_runs_end_to_end() {
    let mut program = Program::new();
    let boxy = program.generic_record("Box", vec![parameter()]);
    let maybe = maybe_of(&mut program);
    let mut code = Code::new(0);
    let n = code.number(42);
    let some = code.case_of(maybe, vec![Ty::I64], 0, vec![n]);
    let b = code.create_of(boxy, vec![Ty::Applied(maybe, vec![Ty::I64])], vec![some]);
    let b = code.local(Ty::Applied(boxy, vec![Ty::Applied(maybe, vec![Ty::I64])]), b);
    let b = code.load(b);
    let held = code.field(b, boxy, 0);
    let arms = code.switch(held, maybe, 2);
    code.at(arms[0]);
    let n = code.payload(held, maybe, 0, 0);
    code.give(n);
    code.at(arms[1]);
    code.give_number(0);
    assert_eq!(program.main(Ty::I64, code).run(), Ok(Value::Int(42)));
}

// record Box[T] { payload: T }
// func unwrap_bool(b: Box[bool]) -> bool { return b.payload }
// func main() -> i64 {
//     value flag = Box[bool] { payload: true };
//     value number = Box[i64] { payload: 42 };
//     return if unwrap_bool(flag) { number.payload } else { 0 }
// }
#[test]
fn distinct_generic_instantiations_do_not_confuse_each_others_runtime_values() {
    let mut program = Program::new();
    let boxy = program.generic_record("Box", vec![parameter()]);
    let mut unwrap = Code::new(1);
    let held = unwrap.field(ValueId(0), boxy, 0);
    unwrap.give(held);
    let unwrap = program.function(
        "unwrap_bool",
        vec![(Ty::Applied(boxy, vec![Ty::Bool]), false)],
        Ty::Bool,
        unwrap,
    );
    let mut code = Code::new(0);
    let yes = code.truth(true);
    let flag = code.create_of(boxy, vec![Ty::Bool], vec![yes]);
    let flag = code.local(Ty::Applied(boxy, vec![Ty::Bool]), flag);
    let n = code.number(42);
    let number = code.create_of(boxy, vec![Ty::I64], vec![n]);
    let number = code.local(Ty::Applied(boxy, vec![Ty::I64]), number);
    let flag = code.load(flag);
    let set = code.call(unwrap, vec![flag]);
    let (then_block, else_block) = code.branch(set);
    code.at(then_block);
    let number = code.load(number);
    let n = code.field(number, boxy, 0);
    code.give(n);
    code.at(else_block);
    code.give_number(0);
    assert_eq!(program.main(Ty::I64, code).run(), Ok(Value::Int(42)));
}

// ---------------------------------------------------------------------
// Failures.
// ---------------------------------------------------------------------

// func read(ok: bool) -> i64 raises FileError {
//     if ok { return 42 }
//     raise FileError.<the first case>;
// }
fn read(program: &mut Program, error: ItemId, payload: Option<u128>) -> ItemId {
    let mut code = Code::new(1);
    let (then_block, after) = code.branch(ValueId(0));
    code.at(then_block);
    code.give_number(42);
    code.at(after);
    let payload = match payload {
        Some(n) => vec![code.number(n)],
        None => vec![],
    };
    let failure = code.case(error, 0, payload);
    code.raise(failure);
    program.function("read", vec![(Ty::Bool, false)], Ty::I64, code)
}

// variant FileError { Missing, PermissionDenied }
// func main() -> i64 {
//     return handle read(false) {
//         success v => v,
//         failure FileError.Missing => -1,
//         failure FileError.PermissionDenied => -2,
//     }
// }
#[test]
fn a_handled_raise_runs_the_matching_failure_arm() {
    let mut program = Program::new();
    let error = program.variant("FileError", vec![vec![], vec![]]);
    let read = read(&mut program, error, None);
    let mut code = Code::new(0);
    let ok = code.truth(false);
    let ((success, v), failures) = code.invoke(read, vec![ok], vec![error]);
    code.at(success);
    code.give(v);
    let (failure, raised) = failures[0];
    code.at(failure);
    let arms = code.switch(raised, error, 2);
    code.at(arms[0]);
    code.give_negative(1);
    code.at(arms[1]);
    code.give_negative(2);
    assert_eq!(program.main(Ty::I64, code).run(), Ok(Value::Int(-1)));
}

// variant FileError { Missing }
// func main() -> i64 { return handle read(true) { success v => v, failure _ => -1 } }
#[test]
fn a_handled_success_runs_the_success_arm() {
    let mut program = Program::new();
    let error = program.variant("FileError", vec![vec![]]);
    let read = read(&mut program, error, None);
    let mut code = Code::new(0);
    let ok = code.truth(true);
    let ((success, v), failures) = code.invoke(read, vec![ok], vec![error]);
    code.at(success);
    code.give(v);
    code.at(failures[0].0);
    code.give_negative(1);
    assert_eq!(program.main(Ty::I64, code).run(), Ok(Value::Int(42)));
}

// variant FileError { Missing }
// func forward(ok: bool) -> i64 raises FileError { return read(ok)?; }
// func main() -> i64 {
//     return handle forward(ok) { success v => v, failure FileError.Missing => -7 }
// }
fn forwarding(ok: bool) -> Result<Value, InterpreterError> {
    let mut program = Program::new();
    let error = program.variant("FileError", vec![vec![]]);
    let read = read(&mut program, error, None);
    let mut forward = Code::new(1);
    let ((success, v), failures) = forward.invoke(read, vec![ValueId(0)], vec![error]);
    forward.at(success);
    forward.give(v);
    let (failure, raised) = failures[0];
    forward.at(failure);
    forward.raise(raised);
    let forward = program.function("forward", vec![(Ty::Bool, false)], Ty::I64, forward);
    let mut code = Code::new(0);
    let ok = code.truth(ok);
    let ((success, v), failures) = code.invoke(forward, vec![ok], vec![error]);
    code.at(success);
    code.give(v);
    code.at(failures[0].0);
    code.give_negative(7);
    program.main(Ty::I64, code).run()
}

#[test]
fn postfix_try_forwards_a_raised_value_to_the_caller_unchanged() {
    assert_eq!(forwarding(false), Ok(Value::Int(-7)));
}

#[test]
fn postfix_try_forwards_a_success_value_to_the_caller_unchanged() {
    assert_eq!(forwarding(true), Ok(Value::Int(42)));
}

// variant FileError { Missing, PermissionDenied }
// variant NetworkError { Timeout }
// func read(mode: i64) -> i64 raises FileError, NetworkError {
//     if mode == 0 { return 42 }
//     if mode == 1 { raise FileError.Missing; }
//     if mode == 2 { raise FileError.PermissionDenied; }
//     raise NetworkError.Timeout;
// }
// func run_with(mode: i64) -> i64 {
//     return handle read(mode) {
//         success v => v,
//         failure FileError.Missing => -1,
//         failure FileError.PermissionDenied => -2,
//         failure NetworkError.Timeout => -3,
//     }
// }
// func main() -> i64 {
//     return run_with(0) * 1000 + run_with(1) * 100 + run_with(2) * 10 + run_with(3)
// }
#[test]
fn handle_dispatches_the_right_case_among_multiple_raised_variants() {
    let mut program = Program::new();
    let file_error = program.variant("FileError", vec![vec![], vec![]]);
    let network_error = program.variant("NetworkError", vec![vec![]]);
    let mut code = Code::new(1);
    for mode in 0..3 {
        let n = code.number(mode);
        let same = code.value(ValueKind::Eq(ValueId(0), n));
        let (then_block, after) = code.branch(same);
        code.at(then_block);
        if mode == 0 {
            code.give_number(42);
        } else {
            let failure = code.case(file_error, mode as usize - 1, vec![]);
            code.raise(failure);
        }
        code.at(after);
    }
    let failure = code.case(network_error, 0, vec![]);
    code.raise(failure);
    let read = program.function("read", vec![(Ty::I64, false)], Ty::I64, code);
    let mut code = Code::new(1);
    let ((success, v), failures) =
        code.invoke(read, vec![ValueId(0)], vec![file_error, network_error]);
    code.at(success);
    code.give(v);
    let (failure, raised) = failures[0];
    code.at(failure);
    let arms = code.switch(raised, file_error, 2);
    code.at(arms[0]);
    code.give_negative(1);
    code.at(arms[1]);
    code.give_negative(2);
    code.at(failures[1].0);
    code.give_negative(3);
    let run_with = program.function("run_with", vec![(Ty::I64, false)], Ty::I64, code);
    let mut code = Code::new(0);
    let mut total = code.number(0);
    for (mode, weight) in [(0, 1000), (1, 100), (2, 10), (3, 1)] {
        let mode = code.number(mode);
        let found = code.call(run_with, vec![mode]);
        let weight = code.number(weight);
        let term = code.value(ValueKind::Mul(found, weight));
        total = code.value(ValueKind::Add(total, term));
    }
    code.give(total);
    assert_eq!(
        program.main(Ty::I64, code).run(),
        Ok(Value::Int(42000 - 100 - 20 - 3))
    );
}

// variant FileError { Missing(i64), PermissionDenied }
// func main() -> i64 { return handle read(false) { success v => v, failure _ => -1 } }
#[test]
fn handle_wildcard_covers_a_case_carrying_a_payload() {
    let mut program = Program::new();
    let error = program.variant("FileError", vec![vec![Ty::I64], vec![]]);
    let read = read(&mut program, error, Some(9));
    let mut code = Code::new(0);
    let ok = code.truth(false);
    let ((success, v), failures) = code.invoke(read, vec![ok], vec![error]);
    code.at(success);
    code.give(v);
    code.at(failures[0].0);
    code.give_negative(1);
    assert_eq!(program.main(Ty::I64, code).run(), Ok(Value::Int(-1)));
}

// variant FileError { Missing(i64) }
// func main() -> i64 {
//     return handle read(false) { success v => v, failure FileError.Missing(code) => code }
// }
#[test]
fn handle_binds_a_raised_cases_payload() {
    let mut program = Program::new();
    let error = program.variant("FileError", vec![vec![Ty::I64]]);
    let read = read(&mut program, error, Some(9));
    let mut code = Code::new(0);
    let ok = code.truth(false);
    let ((success, v), failures) = code.invoke(read, vec![ok], vec![error]);
    code.at(success);
    code.give(v);
    let (failure, raised) = failures[0];
    code.at(failure);
    let found = code.payload(raised, error, 0, 0);
    code.give(found);
    assert_eq!(program.main(Ty::I64, code).run(), Ok(Value::Int(9)));
}

// variant FileError { Missing }
// func outer() -> i64 raises FileError {
//     return handle read(true) { success v => read(false)?, failure FileError.Missing => -1 }
// }
// func main() -> i64 {
//     return handle outer() { success v => v, failure FileError.Missing => -9 }
// }
#[test]
fn a_raise_inside_a_handled_arms_own_body_is_not_implicitly_caught() {
    let mut program = Program::new();
    let error = program.variant("FileError", vec![vec![]]);
    let read = read(&mut program, error, None);
    let mut outer = Code::new(0);
    let ok = outer.truth(true);
    let ((success, _), failures) = outer.invoke(read, vec![ok], vec![error]);
    outer.at(failures[0].0);
    outer.give_negative(1);
    outer.at(success);
    let ok = outer.truth(false);
    let ((success, v), failures) = outer.invoke(read, vec![ok], vec![error]);
    outer.at(success);
    outer.give(v);
    let (failure, raised) = failures[0];
    outer.at(failure);
    outer.raise(raised);
    let outer = program.function("outer", Vec::new(), Ty::I64, outer);
    let mut code = Code::new(0);
    let ((success, v), failures) = code.invoke(outer, vec![], vec![error]);
    code.at(success);
    code.give(v);
    code.at(failures[0].0);
    code.give_negative(9);
    assert_eq!(program.main(Ty::I64, code).run(), Ok(Value::Int(-9)));
}

// variant FileError { Missing }
// func read(path: str) -> str raises FileError {
//     if path == "" { raise FileError.Missing; }
//     return "ok";
// }
fn read_path(program: &mut Program) -> ItemId {
    let error = program.variant("FileError", vec![vec![]]);
    let mut code = Code::new(1);
    let nothing = code.value(ValueKind::Const(Const::Str(String::new())));
    let same = code.value(ValueKind::Eq(ValueId(0), nothing));
    let (then_block, after) = code.branch(same);
    code.at(then_block);
    let failure = code.case(error, 0, vec![]);
    code.raise(failure);
    code.at(after);
    let ok = code.value(ValueKind::Const(Const::Str("ok".to_string())));
    code.give(ok);
    program.function("read", vec![(Ty::Str, false)], Ty::Str, code)
}

// func main() -> i64 { return read({ return 7 })?; }
#[test]
fn postfix_try_with_a_diverging_argument_returns_through_the_argument_exactly_once() {
    let mut program = Program::new();
    read_path(&mut program);
    let mut code = Code::new(0);
    code.give_number(7);
    let (outcome, log) = program.main(Ty::I64, code).run_with_log();
    assert_eq!(outcome, Ok(Value::Int(7)));
    assert_eq!(log, vec!["call:main"]);
}

// func main() -> i64 {
//     return handle read({ return 7 }) { success v => 1, failure FileError.Missing => 2 };
// }
#[test]
fn handle_with_a_diverging_argument_returns_through_the_argument_exactly_once() {
    let mut program = Program::new();
    read_path(&mut program);
    let mut code = Code::new(0);
    code.give_number(7);
    let (outcome, log) = program.main(Ty::I64, code).run_with_log();
    assert_eq!(outcome, Ok(Value::Int(7)));
    assert_eq!(log, vec!["call:main"]);
}

// ---------------------------------------------------------------------
// The order of destruction.
// ---------------------------------------------------------------------

// resource File { descriptor: i64 }
// record Pair { first: File, second: File }
// func main() -> i64 {
//     value pair = Pair { first: File { descriptor: 1 }, second: File { descriptor: 2 } };
//     return 0
// }
#[test]
fn a_records_own_affine_fields_are_destroyed_in_reverse_declaration_order() {
    let mut program = Program::new();
    let file = file_of(&mut program);
    let file_ty = program.named(file);
    let pair = program.record("Pair", vec![file_ty.clone(), file_ty]);
    let mut code = Code::new(0);
    let first = code.file(file, 1);
    let second = code.file(file, 2);
    let made = code.create(pair, vec![first, second]);
    let held = code.local(of(pair), made);
    let zero = code.number(0);
    code.drop_local(held);
    code.give(zero);
    let order = program.main(Ty::I64, code).drops();
    assert_eq!(order, vec!["drop:1", "drop:0"]);
}

// resource Session { input: File, output: File }
fn session_of(program: &mut Program, file: ItemId) -> ItemId {
    let file_ty = program.named(file);
    program.resource("Session", vec![file_ty.clone(), file_ty])
}

// value session = Session { input: File { descriptor: 1 }, output: File { descriptor: 2 } };
fn open_session(code: &mut Code, file: ItemId, session: ItemId) -> ValueId {
    let input = code.file(file, 1);
    let output = code.file(file, 2);
    let made = code.create(session, vec![input, output]);
    code.local(of(session), made)
}

// func main() -> i64 { value session = Session { ... }; return 0 }
#[test]
fn a_resources_own_children_are_destroyed_before_its_outer_identity() {
    let mut program = Program::new();
    let file = file_of(&mut program);
    let session = session_of(&mut program, file);
    let mut code = Code::new(0);
    let held = open_session(&mut code, file, session);
    let zero = code.number(0);
    code.drop_local(held);
    code.give(zero);
    let order = program.main(Ty::I64, code).drops();
    assert_eq!(order, vec!["drop:1", "drop:0", "drop:2"]);
}

// variant Pair { Both(File, File), Neither }
fn pair_of(program: &mut Program, file: ItemId) -> ItemId {
    let file_ty = program.named(file);
    program.variant("Pair", vec![vec![file_ty.clone(), file_ty], vec![]])
}

// Pair.Both(File { descriptor: 1 }, File { descriptor: 2 })
fn both(code: &mut Code, file: ItemId, pair: ItemId) -> ValueId {
    let first = code.file(file, 1);
    let second = code.file(file, 2);
    code.case(pair, 0, vec![first, second])
}

// func main() -> i64 { value pair = Pair.Both(...); return 0 }
#[test]
fn a_variants_active_case_payload_is_destroyed_in_reverse_declaration_order() {
    let mut program = Program::new();
    let file = file_of(&mut program);
    let pair = pair_of(&mut program, file);
    let mut code = Code::new(0);
    let made = both(&mut code, file, pair);
    let held = code.local(of(pair), made);
    let zero = code.number(0);
    code.drop_local(held);
    code.give(zero);
    let order = program.main(Ty::I64, code).drops();
    assert_eq!(order, vec!["drop:1", "drop:0"]);
}

// variant Held { Carrying(File), Neither }
fn held_of(program: &mut Program, file: ItemId) -> ItemId {
    let file_ty = program.named(file);
    program.variant("Held", vec![vec![file_ty], vec![]])
}

// func main() -> i64 {
//     value empty = Held.Neither;
//     value full = Held.Carrying(File { descriptor: 1 });
//     return 0
// }
#[test]
fn only_the_active_variant_case_is_destroyed() {
    let mut program = Program::new();
    let file = file_of(&mut program);
    let held = held_of(&mut program, file);
    let mut code = Code::new(0);
    let neither = code.case(held, 1, vec![]);
    let empty = code.local(of(held), neither);
    let made = code.file(file, 1);
    let carrying = code.case(held, 0, vec![made]);
    let full = code.local(of(held), carrying);
    let zero = code.number(0);
    code.drop_local(full);
    code.drop_local(empty);
    code.give(zero);
    let order = program.main(Ty::I64, code).drops();
    assert_eq!(order, vec!["drop:0"]);
}

// record Envelope { file: File }
// variant Held { Carrying(Envelope), Neither }
// func main() -> i64 {
//     value held = Held.Carrying(Envelope { file: File { descriptor: 1 } });
//     return 0
// }
#[test]
fn a_record_nested_inside_a_variant_has_its_own_resources_destroyed() {
    let mut program = Program::new();
    let file = file_of(&mut program);
    let file_ty = program.named(file);
    let envelope = program.record("Envelope", vec![file_ty]);
    let envelope_ty = program.named(envelope);
    let held = program.variant("Held", vec![vec![envelope_ty], vec![]]);
    let mut code = Code::new(0);
    let made = code.file(file, 1);
    let letter = code.create(envelope, vec![made]);
    let carrying = code.case(held, 0, vec![letter]);
    let slot = code.local(of(held), carrying);
    let zero = code.number(0);
    code.drop_local(slot);
    code.give(zero);
    let order = program.main(Ty::I64, code).drops();
    assert_eq!(order, vec!["drop:0"]);
}

// variant Held { Carrying(File), Neither }
// resource Holder { held: Held }
// func main() -> i64 {
//     value holder = Holder { held: Held.Carrying(File { descriptor: 1 }) };
//     return 0
// }
#[test]
fn a_variant_nested_inside_a_resource_has_its_active_case_destroyed() {
    let mut program = Program::new();
    let file = file_of(&mut program);
    let held = held_of(&mut program, file);
    let held_ty = program.named(held);
    let holder = program.resource("Holder", vec![held_ty]);
    let mut code = Code::new(0);
    let made = code.file(file, 1);
    let carrying = code.case(held, 0, vec![made]);
    let outer = code.create(holder, vec![carrying]);
    let slot = code.local(of(holder), outer);
    let zero = code.number(0);
    code.drop_local(slot);
    code.give(zero);
    let order = program.main(Ty::I64, code).drops();
    assert_eq!(order, vec!["drop:0", "drop:1"]);
}

// func main() -> i64 {
//     value session = Session { ... };
//     value input = session.input;
//     drop input;
//     return 0
// }
#[test]
fn a_partially_moved_parent_destroys_only_what_is_left() {
    let mut program = Program::new();
    let file = file_of(&mut program);
    let session = session_of(&mut program, file);
    let mut code = Code::new(0);
    let held = open_session(&mut code, file, session);
    let moved = code.take_field(held, session, 0);
    let input = code.local(of(file), moved);
    code.drop_local(input);
    let zero = code.number(0);
    code.drop_local(held);
    code.give(zero);
    let order = program.main(Ty::I64, code).drops();
    assert_eq!(order, vec!["drop:0", "drop:1", "drop:2"]);
}

// func main() -> i64 {
//     value session = Session { ... };
//     drop session.input;
//     drop session;
//     return 0
// }
#[test]
fn an_already_destroyed_child_is_never_destroyed_a_second_time() {
    let mut program = Program::new();
    let file = file_of(&mut program);
    let session = session_of(&mut program, file);
    let mut code = Code::new(0);
    let held = open_session(&mut code, file, session);
    let moved = code.take_field(held, session, 0);
    code.drop(moved);
    code.drop_local(held);
    code.give_number(0);
    let order = program.main(Ty::I64, code).drops();
    assert_eq!(order, vec!["drop:0", "drop:1", "drop:2"]);
}

// func discard(take held: Held) -> i64 {
//     return match held {
//         Carrying(_) => sink(File { descriptor: 9 }),
//         Neither => 0,
//     }
// }
// func main() -> i64 { return discard(Held.Carrying(File { descriptor: 1 })) }
#[test]
fn an_ignored_wildcard_payload_is_destroyed_exactly_once_before_the_arm_body() {
    let mut program = Program::new();
    let file = file_of(&mut program);
    let held = held_of(&mut program, file);
    let held_ty = program.named(held);
    let sink = sink(&mut program, file);
    let mut discard = Code::new(1);
    let arms = discard.switch(ValueId(0), held, 2);
    discard.at(arms[0]);
    let ignored = discard.take_apart(ValueId(0), held, 0, 1);
    discard.drop(ignored[0]);
    let sentinel = discard.file(file, 9);
    let result = discard.call(sink, vec![sentinel]);
    discard.give(result);
    discard.at(arms[1]);
    discard.take_apart(ValueId(0), held, 1, 0);
    discard.give_number(0);
    let discard = program.function("discard", vec![(held_ty, true)], Ty::I64, discard);
    let mut code = Code::new(0);
    let made = code.file(file, 1);
    let carrying = code.case(held, 0, vec![made]);
    let result = code.call(discard, vec![carrying]);
    code.give(result);
    let order = program.main(Ty::I64, code).drops();
    assert_eq!(order, vec!["drop:0", "drop:1"]);
}

// func discard(take pair: Pair) -> i64 {
//     return match pair { Both(_, _) => 1, Neither => 0 }
// }
// func main() -> i64 { return discard(Pair.Both(...)) }
#[test]
fn two_payload_positions_are_destroyed_in_reverse_declaration_order() {
    let mut program = Program::new();
    let file = file_of(&mut program);
    let pair = pair_of(&mut program, file);
    let pair_ty = program.named(pair);
    let mut discard = Code::new(1);
    let arms = discard.switch(ValueId(0), pair, 2);
    discard.at(arms[0]);
    let ignored = discard.take_apart(ValueId(0), pair, 0, 2);
    discard.drop(ignored[1]);
    discard.drop(ignored[0]);
    discard.give_number(1);
    discard.at(arms[1]);
    discard.take_apart(ValueId(0), pair, 1, 0);
    discard.give_number(0);
    let discard = program.function("discard", vec![(pair_ty, true)], Ty::I64, discard);
    let mut code = Code::new(0);
    let made = both(&mut code, file, pair);
    let result = code.call(discard, vec![made]);
    code.give(result);
    let order = program.main(Ty::I64, code).drops();
    assert_eq!(
        order,
        vec!["drop:1", "drop:0"],
        "an ignored payload must be destroyed in reverse declaration order"
    );
}

// record Pair { left: Session, right: File }
// func main() -> i64 {
//     value pair = Pair {
//         left: Session { input: File { descriptor: 1 }, output: File { descriptor: 2 } },
//         right: File { descriptor: 3 },
//     };
//     return 0
// }
#[test]
fn the_destruction_order_is_identical_across_repeated_runs() {
    let mut program = Program::new();
    let file = file_of(&mut program);
    let file_ty = program.named(file);
    let session = session_of(&mut program, file);
    let session_ty = program.named(session);
    let pair = program.record("Pair", vec![session_ty, file_ty]);
    let mut code = Code::new(0);
    let input = code.file(file, 1);
    let output = code.file(file, 2);
    let left = code.create(session, vec![input, output]);
    let right = code.file(file, 3);
    let made = code.create(pair, vec![left, right]);
    let held = code.local(of(pair), made);
    let zero = code.number(0);
    code.drop_local(held);
    code.give(zero);
    let program = program.main(Ty::I64, code);
    let first = program.drops();
    let second = program.drops();
    assert_eq!(
        first, second,
        "the same program destroyed its resources in a different order twice"
    );
    assert_eq!(first, vec!["drop:3", "drop:1", "drop:0", "drop:2"]);
}

// ---------------------------------------------------------------------
// Destroying generic aggregates.
// ---------------------------------------------------------------------

// resource File { descriptor: i64 }
// record Box[T] { item: T }
// variant Maybe[T] { Some(T), None }
struct Generics {
    program: Program,
    file: ItemId,
    file_ty: Ty,
    boxy: ItemId,
    maybe: ItemId,
}

fn generics() -> Generics {
    let mut program = Program::new();
    let file = file_of(&mut program);
    let file_ty = program.named(file);
    let boxy = program.generic_record("Box", vec![parameter()]);
    let maybe = maybe_of(&mut program);
    Generics {
        program,
        file,
        file_ty,
        boxy,
        maybe,
    }
}

// func main() -> i64 {
//     value boxed = Box[File] { item: File { descriptor: 1 } };
//     drop boxed;
//     return 0
// }
#[test]
fn dropping_a_generic_record_destroys_its_substituted_field() {
    let g = generics();
    let mut code = Code::new(0);
    let made = code.file(g.file, 1);
    let boxed = code.create_of(g.boxy, vec![g.file_ty], vec![made]);
    let boxed = code.local(Ty::Applied(g.boxy, vec![of(g.file)]), boxed);
    code.drop_local(boxed);
    code.give_number(0);
    let order = g.program.main(Ty::I64, code).drops();
    assert_eq!(
        order,
        vec!["drop:0"],
        "`Box[File]`'s own `File` must be destroyed exactly once"
    );
}

// func main() -> i64 {
//     value nested = Box[Box[File]] { item: Box[File] { item: File { descriptor: 2 } } };
//     drop nested;
//     return 0
// }
#[test]
fn dropping_a_nested_generic_record_destroys_through_both_levels() {
    let g = generics();
    let mut code = Code::new(0);
    let made = code.file(g.file, 2);
    let inner = code.create_of(g.boxy, vec![g.file_ty.clone()], vec![made]);
    let outer = code.create_of(
        g.boxy,
        vec![Ty::Applied(g.boxy, vec![g.file_ty])],
        vec![inner],
    );
    let nested = code.local(Ty::Applied(g.boxy, vec![Ty::Applied(g.boxy, vec![of(g.file)])]), outer);
    code.drop_local(nested);
    code.give_number(0);
    let order = g.program.main(Ty::I64, code).drops();
    assert_eq!(
        order,
        vec!["drop:0"],
        "`Box[Box[File]]` must destroy the `File` two substitutions down"
    );
}

// func main() -> i64 {
//     value present = Maybe[File].Some(File { descriptor: 3 });
//     drop present;
//     value absent = Maybe[File].None;
//     drop absent;
//     return 0
// }
#[test]
fn dropping_a_generic_variant_destroys_only_its_active_case() {
    let g = generics();
    let mut code = Code::new(0);
    let made = code.file(g.file, 3);
    let some = code.case_of(g.maybe, vec![g.file_ty.clone()], 0, vec![made]);
    let present = code.local(Ty::Applied(g.maybe, vec![of(g.file)]), some);
    code.drop_local(present);
    let none = code.case_of(g.maybe, vec![g.file_ty], 1, vec![]);
    let absent = code.local(Ty::Applied(g.maybe, vec![of(g.file)]), none);
    code.drop_local(absent);
    code.give_number(0);
    let order = g.program.main(Ty::I64, code).drops();
    assert_eq!(
        order,
        vec!["drop:0"],
        "the `Some` payload is destroyed once and `None` owns nothing"
    );
}

// func main() -> i64 {
//     value plain = Box[i64] { item: 7 };
//     value file = File { descriptor: 1 };
//     drop file;
//     return plain.item
// }
#[test]
fn a_non_affine_instantiation_destroys_nothing_at_runtime() {
    let g = generics();
    let mut code = Code::new(0);
    let seven = code.number(7);
    let plain = code.create_of(g.boxy, vec![Ty::I64], vec![seven]);
    let plain = code.local(Ty::Applied(g.boxy, vec![Ty::I64]), plain);
    let made = code.file(g.file, 1);
    let held = code.local(of(g.file), made);
    code.drop_local(held);
    let plain = code.load(plain);
    let item = code.field(plain, g.boxy, 0);
    code.give(item);
    let order = g.program.main(Ty::I64, code).drops();
    assert_eq!(
        order,
        vec!["drop:0"],
        "`Box[i64]` owns nothing, so only the standalone `File` is destroyed"
    );
}

// variant Holder { Carry(Box[File]), Nothing }
// func main() -> i64 {
//     value held = Holder.Carry(Box[File] { item: File { descriptor: 4 } });
//     drop held;
//     return 0
// }
#[test]
fn a_generic_record_inside_a_variant_payload_is_destroyed() {
    let mut g = generics();
    let boxed_ty = Ty::Applied(g.boxy, vec![g.file_ty.clone()]);
    let holder = g.program.variant("Holder", vec![vec![boxed_ty], vec![]]);
    let mut code = Code::new(0);
    let made = code.file(g.file, 4);
    let boxed = code.create_of(g.boxy, vec![g.file_ty], vec![made]);
    let carry = code.case(holder, 0, vec![boxed]);
    let held = code.local(of(holder), carry);
    code.drop_local(held);
    code.give_number(0);
    let order = g.program.main(Ty::I64, code).drops();
    assert_eq!(
        order,
        vec!["drop:0"],
        "a variant payload's own generic record must not leak its resource"
    );
}

// record Wrap { m: Maybe[File] }
// func main() -> i64 {
//     value w = Wrap { m: Maybe[File].Some(File { descriptor: 5 }) };
//     drop w;
//     return 0
// }
#[test]
fn a_generic_variant_inside_an_ordinary_record_is_destroyed() {
    let mut g = generics();
    let maybe_ty = Ty::Applied(g.maybe, vec![g.file_ty.clone()]);
    let wrap = g.program.record("Wrap", vec![maybe_ty]);
    let mut code = Code::new(0);
    let made = code.file(g.file, 5);
    let some = code.case_of(g.maybe, vec![g.file_ty], 0, vec![made]);
    let w = code.create(wrap, vec![some]);
    let w = code.local(of(wrap), w);
    code.drop_local(w);
    code.give_number(0);
    let order = g.program.main(Ty::I64, code).drops();
    assert_eq!(
        order,
        vec!["drop:0"],
        "an ordinary record's own generic variant field must not leak its resource"
    );
}

// func relay(take boxed: Box[File]) -> Box[File] { return boxed }
// func main() -> i64 {
//     value first = Box[File] { item: File { descriptor: 6 } };
//     value second = relay(first);
//     drop second;
//     return 0
// }
#[test]
fn a_generic_aggregate_keeps_its_type_arguments_across_a_call_boundary() {
    let mut g = generics();
    let boxed_ty = Ty::Applied(g.boxy, vec![g.file_ty.clone()]);
    let mut relay = Code::new(1);
    relay.give(ValueId(0));
    let relay = g
        .program
        .function("relay", vec![(boxed_ty.clone(), true)], boxed_ty, relay);
    let mut code = Code::new(0);
    let made = code.file(g.file, 6);
    let boxed = code.create_of(g.boxy, vec![g.file_ty], vec![made]);
    let first = code.local(Ty::Applied(g.boxy, vec![of(g.file)]), boxed);
    let first = code.load(first);
    let relayed = code.call(relay, vec![first]);
    let second = code.local(Ty::Applied(g.boxy, vec![of(g.file)]), relayed);
    code.drop_local(second);
    code.give_number(0);
    let order = g.program.main(Ty::I64, code).drops();
    assert_eq!(
        order,
        vec!["drop:0"],
        "type arguments must survive a transfer into and back out of a call"
    );
}

// record Pair[T] { left: T, right: T }
// value pair = Pair[File] { left: File { descriptor: 1 }, right: File { descriptor: 2 } };
fn generic_pair(program: &mut Program, code: &mut Code, file: ItemId) -> (ItemId, ValueId) {
    let file_ty = program.named(file);
    let pair = program.generic_record("Pair", vec![parameter(), parameter()]);
    let left = code.file(file, 1);
    let right = code.file(file, 2);
    let made = code.create_of(pair, vec![file_ty], vec![left, right]);
    (pair, code.local(Ty::Applied(pair, vec![of(file)]), made))
}

// func main() -> i64 {
//     value pair = Pair[File] { ... };
//     value left = pair.left;
//     value taken = sink(left);
//     drop pair;
//     return taken
// }
#[test]
fn a_partially_moved_generic_aggregate_destroys_only_what_is_left() {
    let mut program = Program::new();
    let file = file_of(&mut program);
    let sink = sink(&mut program, file);
    let mut code = Code::new(0);
    let (pair, held) = generic_pair(&mut program, &mut code, file);
    let moved = code.take_field(held, pair, 0);
    let left = code.local(of(file), moved);
    let left = code.load(left);
    let found = code.call(sink, vec![left]);
    let taken = code.local(Ty::I64, found);
    code.drop_local(held);
    let taken = code.load(taken);
    code.give(taken);
    let order = program.main(Ty::I64, code).drops();
    assert_eq!(
        order,
        vec!["drop:0", "drop:1"],
        "a partially moved generic aggregate destroys only its remaining field"
    );
}

// func main() -> i64 { value pair = Pair[File] { ... }; drop pair; return 0 }
#[test]
fn a_generic_aggregates_fields_are_destroyed_in_reverse_declaration_order() {
    let mut program = Program::new();
    let file = file_of(&mut program);
    let mut code = Code::new(0);
    let (_, held) = generic_pair(&mut program, &mut code, file);
    code.drop_local(held);
    code.give_number(0);
    let order = program.main(Ty::I64, code).drops();
    assert_eq!(
        order,
        vec!["drop:1", "drop:0"],
        "reverse declaration order, exactly as for a concrete aggregate"
    );
}

// func main() -> i64 {
//     value pair = Pair[Box[File]] {
//         left: Box[File] { item: File { descriptor: 1 } },
//         right: Box[File] { item: File { descriptor: 2 } },
//     };
//     drop pair;
//     return 0
// }
#[test]
fn the_generic_destruction_order_is_identical_across_repeated_runs() {
    let mut g = generics();
    let pair = g
        .program
        .generic_record("Pair", vec![parameter(), parameter()]);
    let mut code = Code::new(0);
    let made = code.file(g.file, 1);
    let left = code.create_of(g.boxy, vec![g.file_ty.clone()], vec![made]);
    let made = code.file(g.file, 2);
    let right = code.create_of(g.boxy, vec![g.file_ty.clone()], vec![made]);
    let whole = code.create_of(
        pair,
        vec![Ty::Applied(g.boxy, vec![g.file_ty])],
        vec![left, right],
    );
    let held = code.local(Ty::Applied(pair, vec![Ty::Applied(g.boxy, vec![of(g.file)])]), whole);
    code.drop_local(held);
    code.give_number(0);
    let program = g.program.main(Ty::I64, code);
    let first = program.drops();
    let second = program.drops();
    assert_eq!(
        first, second,
        "the same program destroyed in a different order"
    );
    assert_eq!(first, vec!["drop:1", "drop:0"]);
}

// ---------------------------------------------------------------------
// Variants that one branch takes apart and another does not.
// ---------------------------------------------------------------------

// resource File { descriptor: i64 }
// variant Maybe[T] { Some(T), None }
// func sink(take file: File) -> i64 { ... }
struct Branches {
    program: Program,
    file: ItemId,
    file_ty: Ty,
    maybe: ItemId,
    maybe_ty: Ty,
    sink: ItemId,
}

fn branches() -> Branches {
    let mut program = Program::new();
    let file = file_of(&mut program);
    let file_ty = program.named(file);
    let maybe = maybe_of(&mut program);
    let sink = sink(&mut program, file);
    Branches {
        program,
        file,
        maybe_ty: Ty::Applied(maybe, vec![file_ty.clone()]),
        file_ty,
        maybe,
        sink,
    }
}

impl Branches {
    // Maybe[File].Some(File { descriptor: n })
    fn some(&self, code: &mut Code, n: u128) -> ValueId {
        let made = code.file(self.file, n);
        code.case_of(self.maybe, vec![self.file_ty.clone()], 0, vec![made])
    }

    // Maybe[File].None
    fn none(&self, code: &mut Code) -> ValueId {
        code.case_of(self.maybe, vec![self.file_ty.clone()], 1, vec![])
    }

    // return match maybe { Some(file) => { drop file; 2 }, None => 0 }
    fn matched(&self, code: &mut Code, maybe: ValueId) {
        let arms = code.switch(maybe, self.maybe, 2);
        code.at(arms[0]);
        let payload = code.take_apart(maybe, self.maybe, 0, 1);
        let file = code.local(of(self.file), payload[0]);
        code.drop_local(file);
        code.give_number(2);
        code.at(arms[1]);
        code.take_apart(maybe, self.maybe, 1, 0);
        code.give_number(0);
    }

    // func dispose(cond: bool, take maybe: Maybe[File]) -> i64 {
    //     if cond { drop maybe; return 1; }
    //     return match maybe { Some(file) => { drop file; 2 }, None => 0 }
    // }
    fn dispose(&mut self) -> ItemId {
        let mut code = Code::new(2);
        let (then_block, after) = code.branch(ValueId(0));
        code.at(then_block);
        code.drop(ValueId(1));
        code.give_number(1);
        code.at(after);
        self.matched(&mut code, ValueId(1));
        let params = vec![(Ty::Bool, false), (self.maybe_ty.clone(), true)];
        self.program.function("dispose", params, Ty::I64, code)
    }

    // func dispose(cond: bool, take maybe: Maybe[File]) -> i64 {
    //     if cond { return match maybe { Some(file) => { drop file; 2 }, None => 0 }; }
    //     drop maybe;
    //     return 1
    // }
    fn reversed(&mut self) -> ItemId {
        let mut code = Code::new(2);
        let (then_block, after) = code.branch(ValueId(0));
        code.at(after);
        code.drop(ValueId(1));
        code.give_number(1);
        code.at(then_block);
        self.matched(&mut code, ValueId(1));
        let params = vec![(Ty::Bool, false), (self.maybe_ty.clone(), true)];
        self.program.function("dispose", params, Ty::I64, code)
    }

    // func main() -> i64 { return dispose(cond, Maybe[File].Some(File { descriptor: 1 })) }
    fn drops_disposing(self, dispose: ItemId, cond: bool) -> Vec<String> {
        let mut code = Code::new(0);
        let cond = code.truth(cond);
        let some = self.some(&mut code, 1);
        let result = code.call(dispose, vec![cond, some]);
        code.give(result);
        self.program.main(Ty::I64, code).drops()
    }
}

#[test]
fn the_whole_value_branch_destroys_its_payload_exactly_once() {
    let mut b = branches();
    let dispose = b.dispose();
    let order = b.drops_disposing(dispose, true);
    assert_eq!(
        order,
        vec!["drop:0"],
        "dropping the shell destroys the payload it still owns, once"
    );
}

#[test]
fn the_matching_branch_destroys_its_payload_exactly_once() {
    let mut b = branches();
    let dispose = b.dispose();
    let order = b.drops_disposing(dispose, false);
    assert_eq!(
        order,
        vec!["drop:0"],
        "the arm owns the payload and destroys it, once -- the shell no longer owns it"
    );
}

// func main() -> i64 { return dispose(false, Maybe[File].None) }
#[test]
fn the_inactive_case_destroys_nothing() {
    let mut b = branches();
    let dispose = b.dispose();
    let mut code = Code::new(0);
    let cond = code.truth(false);
    let none = b.none(&mut code);
    let result = code.call(dispose, vec![cond, none]);
    code.give(result);
    let order = b.program.main(Ty::I64, code).drops();
    assert_eq!(order, Vec::<String>::new(), "`None` owns nothing at all");
}

#[test]
fn reversing_the_branch_order_changes_nothing() {
    let mut b = branches();
    let dispose = b.reversed();
    let matched = b.drops_disposing(dispose, true);
    let mut b = branches();
    let dispose = b.reversed();
    let dropped = b.drops_disposing(dispose, false);
    assert_eq!(matched, vec!["drop:0"]);
    assert_eq!(dropped, vec!["drop:0"]);
}

// func unwrap(take maybe: Maybe[File], take fallback: File) -> File {
//     return match maybe {
//         Some(file) => { drop fallback; file },
//         None => fallback,
//     }
// }
// func main() -> i64 {
//     value taken = unwrap(Maybe[File].Some(File { descriptor: 1 }), File { descriptor: 2 });
//     return sink(taken)
// }
#[test]
fn an_arm_returning_its_payload_transfers_it_instead_of_destroying_it() {
    let mut b = branches();
    let mut unwrap = Code::new(2);
    let arms = unwrap.switch(ValueId(0), b.maybe, 2);
    unwrap.at(arms[0]);
    let payload = unwrap.take_apart(ValueId(0), b.maybe, 0, 1);
    let file = unwrap.local(of(b.file), payload[0]);
    unwrap.drop(ValueId(1));
    let file = unwrap.load(file);
    unwrap.give(file);
    unwrap.at(arms[1]);
    unwrap.take_apart(ValueId(0), b.maybe, 1, 0);
    unwrap.give(ValueId(1));
    let params = vec![(b.maybe_ty.clone(), true), (b.file_ty.clone(), true)];
    let file_ty = b.file_ty.clone();
    let unwrap = b.program.function("unwrap", params, file_ty, unwrap);
    let mut code = Code::new(0);
    let some = b.some(&mut code, 1);
    let fallback = code.file(b.file, 2);
    let found = code.call(unwrap, vec![some, fallback]);
    let taken = code.local(of(b.file), found);
    let taken = code.load(taken);
    let result = code.call(b.sink, vec![taken]);
    code.give(result);
    let order = b.program.main(Ty::I64, code).drops();
    assert_eq!(
        order,
        vec!["drop:1", "drop:0"],
        "the unused fallback is destroyed inside the arm, the returned payload by its caller"
    );
}

// func discard(take maybe: Maybe[File]) -> i64 {
//     return match maybe { Some(_) => 7, None => 0 }
// }
// func main() -> i64 { return discard(Maybe[File].Some(File { descriptor: 1 })) }
#[test]
fn a_wildcard_arm_destroys_the_payload_it_ignores() {
    let mut b = branches();
    let mut discard = Code::new(1);
    let arms = discard.switch(ValueId(0), b.maybe, 2);
    discard.at(arms[0]);
    let payload = discard.take_apart(ValueId(0), b.maybe, 0, 1);
    discard.drop(payload[0]);
    discard.give_number(7);
    discard.at(arms[1]);
    discard.take_apart(ValueId(0), b.maybe, 1, 0);
    discard.give_number(0);
    let params = vec![(b.maybe_ty.clone(), true)];
    let discard = b.program.function("discard", params, Ty::I64, discard);
    let mut code = Code::new(0);
    let some = b.some(&mut code, 1);
    let result = code.call(discard, vec![some]);
    code.give(result);
    let order = b.program.main(Ty::I64, code).drops();
    assert_eq!(order, vec!["drop:0"]);
}

// variant Outer { Wrap(Maybe[File]), Empty }
// func nested(take outer: Outer) -> i64 {
//     return match outer {
//         Wrap(Some(file)) => { drop file; 1 },
//         Wrap(None) => 2,
//         Empty => 3,
//     }
// }
#[test]
fn a_nested_generic_variant_is_taken_apart_at_each_level() {
    // The argument: Outer.Wrap(Maybe[File].Some(..)), Outer.Wrap(Maybe[File].None)
    // or Outer.Empty.
    fn run(which: u32) -> Vec<String> {
        let mut b = branches();
        let maybe_ty = b.maybe_ty.clone();
        let outer = b.program.variant("Outer", vec![vec![maybe_ty], vec![]]);
        let outer_ty = b.program.named(outer);
        let mut nested = Code::new(1);
        let arms = nested.switch(ValueId(0), outer, 2);
        nested.at(arms[1]);
        nested.take_apart(ValueId(0), outer, 1, 0);
        nested.give_number(3);
        nested.at(arms[0]);
        let inner = nested.take_apart(ValueId(0), outer, 0, 1)[0];
        let arms = nested.switch(inner, b.maybe, 2);
        nested.at(arms[0]);
        let payload = nested.take_apart(inner, b.maybe, 0, 1);
        nested.drop(payload[0]);
        nested.give_number(1);
        nested.at(arms[1]);
        nested.take_apart(inner, b.maybe, 1, 0);
        nested.give_number(2);
        let nested = b
            .program
            .function("nested", vec![(outer_ty, true)], Ty::I64, nested);
        let mut code = Code::new(0);
        let argument = match which {
            0 => {
                let some = b.some(&mut code, 1);
                code.case(outer, 0, vec![some])
            }
            1 => {
                let none = b.none(&mut code);
                code.case(outer, 0, vec![none])
            }
            _ => code.case(outer, 1, vec![]),
        };
        let result = code.call(nested, vec![argument]);
        code.give(result);
        b.program.main(Ty::I64, code).drops()
    }
    assert_eq!(
        run(0),
        vec!["drop:0"],
        "the innermost payload is destroyed exactly once"
    );
    assert_eq!(
        run(1),
        Vec::<String>::new(),
        "an inactive inner case owns nothing"
    );
    assert_eq!(
        run(2),
        Vec::<String>::new(),
        "an inactive outer case owns nothing"
    );
}

// variant Fail { Bad }
// func diverging(take maybe: Maybe[File]) -> i64 raises Fail {
//     return match maybe {
//         Some(file) => { drop file; raise Fail.Bad; },
//         None => 5,
//     }
// }
// func main() -> i64 {
//     return handle diverging(Maybe[File].Some(File { descriptor: 1 })) {
//         success v => v,
//         failure Fail.Bad => 100,
//     }
// }
#[test]
fn a_diverging_arm_still_destroys_what_it_owns() {
    let mut b = branches();
    let fail = b.program.variant("Fail", vec![vec![]]);
    let mut diverging = Code::new(1);
    let arms = diverging.switch(ValueId(0), b.maybe, 2);
    diverging.at(arms[0]);
    let payload = diverging.take_apart(ValueId(0), b.maybe, 0, 1);
    let file = diverging.local(of(b.file), payload[0]);
    diverging.drop_local(file);
    let bad = diverging.case(fail, 0, vec![]);
    diverging.raise(bad);
    diverging.at(arms[1]);
    diverging.take_apart(ValueId(0), b.maybe, 1, 0);
    diverging.give_number(5);
    let params = vec![(b.maybe_ty.clone(), true)];
    let diverging = b.program.function("diverging", params, Ty::I64, diverging);
    let mut code = Code::new(0);
    let some = b.some(&mut code, 1);
    let ((success, v), failures) = code.invoke(diverging, vec![some], vec![fail]);
    code.at(success);
    code.give(v);
    code.at(failures[0].0);
    code.give_number(100);
    let order = b.program.main(Ty::I64, code).drops();
    assert_eq!(order, vec!["drop:0"]);
}

// func all_diverging(take maybe: Maybe[File]) -> i64 {
//     match maybe { Some(file) => { return sink(file); }, None => { return 0; } }
// }
#[test]
fn a_match_whose_arms_all_diverge_accounts_for_each_path() {
    fn run(present: bool) -> Vec<String> {
        let mut b = branches();
        let mut all = Code::new(1);
        let arms = all.switch(ValueId(0), b.maybe, 2);
        all.at(arms[0]);
        let payload = all.take_apart(ValueId(0), b.maybe, 0, 1);
        let result = all.call(b.sink, vec![payload[0]]);
        all.give(result);
        all.at(arms[1]);
        all.take_apart(ValueId(0), b.maybe, 1, 0);
        all.give_number(0);
        let params = vec![(b.maybe_ty.clone(), true)];
        let all = b.program.function("all_diverging", params, Ty::I64, all);
        let mut code = Code::new(0);
        let maybe = if present {
            b.some(&mut code, 1)
        } else {
            b.none(&mut code)
        };
        let result = code.call(all, vec![maybe]);
        code.give(result);
        b.program.main(Ty::I64, code).drops()
    }
    assert_eq!(run(true), vec!["drop:0"]);
    assert_eq!(run(false), Vec::<String>::new());
}

// variant Pair { Both(File, File), Neither }
// func first(take pair: Pair) -> i64 {
//     return match pair { Both(left, _) => sink(left), Neither => 0 }
// }
// func main() -> i64 { return first(Pair.Both(...)) }
#[test]
fn two_payload_positions_are_each_claimed_exactly_once() {
    let mut program = Program::new();
    let file = file_of(&mut program);
    let pair = pair_of(&mut program, file);
    let pair_ty = program.named(pair);
    let sink = sink(&mut program, file);
    let mut first = Code::new(1);
    let arms = first.switch(ValueId(0), pair, 2);
    first.at(arms[0]);
    let payload = first.take_apart(ValueId(0), pair, 0, 2);
    first.drop(payload[1]);
    let result = first.call(sink, vec![payload[0]]);
    first.give(result);
    first.at(arms[1]);
    first.take_apart(ValueId(0), pair, 1, 0);
    first.give_number(0);
    let first = program.function("first", vec![(pair_ty, true)], Ty::I64, first);
    let mut code = Code::new(0);
    let made = both(&mut code, file, pair);
    let result = code.call(first, vec![made]);
    code.give(result);
    let order = program.main(Ty::I64, code).drops();
    assert_eq!(
        order,
        vec!["drop:1", "drop:0"],
        "the ignored position is destroyed first, then the bound one by its consumer"
    );
}

// func main() -> i64 {
//     value a = dispose(true, Maybe[File].Some(File { descriptor: 1 }));
//     value b = dispose(false, Maybe[File].Some(File { descriptor: 2 }));
//     return a + b
// }
#[test]
fn mod_the_destruction_order_is_identical_across_repeated_runs() {
    let mut b = branches();
    let dispose = b.dispose();
    let mut code = Code::new(0);
    let mut results = Vec::new();
    for (cond, descriptor) in [(true, 1), (false, 2)] {
        let cond = code.truth(cond);
        let some = b.some(&mut code, descriptor);
        let found = code.call(dispose, vec![cond, some]);
        results.push(code.local(Ty::I64, found));
    }
    let x = code.load(results[0]);
    let y = code.load(results[1]);
    let sum = code.value(ValueKind::Add(x, y));
    code.give(sum);
    let program = b.program.main(Ty::I64, code);
    let first = program.drops();
    let second = program.drops();
    assert_eq!(
        first, second,
        "the same program destroyed in a different order"
    );
    assert_eq!(first, vec!["drop:0", "drop:1"]);
}
