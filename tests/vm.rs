use noa_vm::ark::{FuncId, Function};
use noa_vm::exception::{CoercionError, Exception, FormattedException};
use noa_vm::frame::FrameKind;
use noa_vm::instruction::{InstructionSummary, OperandKind};
use noa_vm::lists::{concatenated, reversed, slice_bounds};
use noa_vm::opcode::{
    ADD, ADD_FIELD, APPEND_ELEMENT, BOUNDARY, BOX, CALL, CONCAT, DIV, DUP, ENTER_TEMP_FRAME, EQUAL,
    EXIT_TEMP_FRAME, GREATER_THAN, JUMP_IF, LESS_THAN, LOAD_VAR, POP, PUSH_BOOL, PUSH_FLOAT,
    JUMP, PUSH_FUNC, PUSH_LIST, PUSH_NIL, PUSH_OBJECT, PUSH_STRING, READ_ELEMENT, READ_FIELD, RET,
    STORE_VAR, SUB, TO_STRING, UNBOX, WRITE_ELEMENT, WRITE_FIELD,
};
use noa_vm::value::{Closure, Field, HeapValue, Type, Value};
use noa_vm::vm::{ArithOp, Outcome, Vm};

struct Code(Vec<u8>);

impl Code {
    fn new() -> Code {
        Code(Vec::new())
    }
    fn op(mut self, op: u8) -> Code {
        self.0.push(op);
        self
    }
    fn u8(mut self, op: u8, x: u8) -> Code {
        self.0.push(op);
        self.0.push(x);
        self
    }
    fn u32(mut self, op: u8, x: u32) -> Code {
        self.0.push(op);
        self.0.extend_from_slice(&x.to_be_bytes());
        self
    }
    fn num(mut self, x: f64) -> Code {
        self.0.push(PUSH_FLOAT);
        self.0.extend_from_slice(&x.to_bits().to_be_bytes());
        self
    }
    fn here(&self) -> u32 {
        self.0.len() as u32
    }
}

fn function(id: u32, name_index: u32, arity: u32, locals_count: u32, address: u32, captures: Vec<u32>) -> Function {
    Function { id: FuncId(id), name_index, arity, locals_count, address, captures }
}

fn user(index: u32) -> Closure {
    Closure { function: FuncId(index), captures: None }
}

fn native(index: u32) -> Closure {
    Closure { function: FuncId(0x8000_0000 | index), captures: None }
}

fn number(x: f64) -> Value {
    Value::Number(x.to_bits())
}

fn arith(op: ArithOp, lhs: u64, rhs: u64) -> Value {
    let (a, b) = (f64::from_bits(lhs), f64::from_bits(rhs));
    match op {
        ArithOp::Add => number(a + b),
        ArithOp::Sub => number(a - b),
        ArithOp::Mult => number(a * b),
        ArithOp::Div => number(a / b),
        ArithOp::LessThan => Value::Bool(a < b),
        ArithOp::GreaterThan => Value::Bool(a > b),
    }
}

/// Runs a closure to its return, doing the numeric work and the natives
/// (native 0 returns its argument count, native 1 calls its first argument).
fn call_run(vm: &mut Vm, closure: Closure, args: &[Value]) -> Result<Value, FormattedException> {
    let base = vm.call_stack().len();
    let mut outcome = vm.begin_call(closure, &args.to_vec())?;
    loop {
        match outcome {
            Outcome::Continue => {}
            Outcome::Returned(v) => return Ok(v),
            Outcome::Arith { op, lhs, rhs } => vm.push(arith(op, lhs, rhs))?,
            Outcome::NeedNumeral(bits) => vm.add_numeral(bits, f64::from_bits(bits).to_string()),
            Outcome::Native { function, args } => {
                let result = if function.decode() == 0 {
                    number(args.len() as f64)
                } else {
                    match args[0] {
                        Value::Function(c) => call_run(vm, c, &args[1..])?,
                        _ => Value::Nil,
                    }
                };
                outcome = vm.finish_native(result, base)?;
                continue;
            }
        }
        outcome = vm.step(base)?;
    }
}

fn machine(functions: Vec<Function>, strings: Vec<&str>, code: Code, heap: usize) -> Vm {
    Vm::new(functions, strings.into_iter().map(String::from).collect(), code.0, 64, 16, heap)
}

fn main_only(code: Code) -> Vm {
    machine(vec![function(0, 0, 0, 0, 0, vec![])], vec!["main"], code, 16)
}

fn text_of(vm: &Vm, v: Value) -> String {
    vm.to_string(v).unwrap()
}

#[test]
fn arithmetic_adds_two_numbers() {
    let mut vm = main_only(Code::new().num(3.0).num(4.0).op(ADD).op(RET));
    assert_eq!(call_run(&mut vm, user(0), &[]), Ok(number(7.0)));
    assert!(vm.call_stack().is_empty());
    assert!(vm.stack().is_empty());
}

fn branch_program(cond: u8) -> Code {
    let c = Code::new().u8(PUSH_BOOL, cond);
    let target = c.here() + 5 + 9 + 1;
    c.u32(JUMP_IF, target).num(2.0).op(RET).num(1.0).op(RET)
}

#[test]
fn branch_follows_the_condition() {
    let mut vm = main_only(branch_program(1));
    assert_eq!(call_run(&mut vm, user(0), &[]), Ok(number(1.0)));
    let mut vm = main_only(branch_program(0));
    assert_eq!(call_run(&mut vm, user(0), &[]), Ok(number(2.0)));
}

#[test]
fn extra_arguments_are_dropped() {
    let main = Code::new().u32(PUSH_FUNC, 1).num(10.0).num(20.0).num(30.0).u32(CALL, 3).op(RET);
    let callee_at = main.here();
    let code = main.u32(LOAD_VAR, 0).op(RET);
    let functions = vec![function(0, 0, 0, 0, 0, vec![]), function(1, 0, 1, 0, callee_at, vec![])];
    let mut vm = machine(functions, vec!["main"], code, 16);
    assert_eq!(call_run(&mut vm, user(0), &[]), Ok(number(10.0)));
}

#[test]
fn missing_arguments_are_nil() {
    let main = Code::new().u32(PUSH_FUNC, 1).u32(CALL, 0).op(RET);
    let callee_at = main.here();
    let code = main.u32(LOAD_VAR, 1).op(RET);
    let functions = vec![function(0, 0, 0, 0, 0, vec![]), function(1, 0, 2, 0, callee_at, vec![])];
    let mut vm = machine(functions, vec!["main"], code, 16);
    assert_eq!(call_run(&mut vm, user(0), &[]), Ok(Value::Nil));
}

fn closure_program() -> (Vec<Function>, Code) {
    let main = Code::new()
        .u32(PUSH_FUNC, 1)
        .u32(CALL, 0)
        .op(PUSH_LIST)
        .op(POP)
        .op(PUSH_LIST)
        .op(POP)
        .u32(CALL, 0)
        .op(RET);
    let outer_at = main.here();
    let outer = main.num(5.0).u32(STORE_VAR, 0).u32(PUSH_FUNC, 2).op(RET);
    let inner_at = outer.here();
    let code = outer.u32(LOAD_VAR, 0).op(RET);
    let functions = vec![
        function(0, 0, 0, 0, 0, vec![]),
        function(1, 0, 0, 1, outer_at, vec![]),
        function(2, 0, 0, 0, inner_at, vec![0]),
    ];
    (functions, code)
}

#[test]
fn closure_returns_its_capture() {
    let (functions, code) = closure_program();
    let mut vm = machine(functions, vec!["main"], code, 16);
    assert_eq!(call_run(&mut vm, user(0), &[]), Ok(number(5.0)));
}

#[test]
fn capture_survives_collection() {
    let (functions, code) = closure_program();
    let mut vm = machine(functions, vec!["main"], code, 2);
    assert_eq!(call_run(&mut vm, user(0), &[]), Ok(number(5.0)));
}

#[test]
fn coercion_error_carries_a_trace() {
    let code = Code::new().num(1.0).u32(PUSH_STRING, 0).op(DIV).op(RET);
    let mut vm = main_only(code);
    let e = call_run(&mut vm, user(0), &[]).unwrap_err();
    assert_eq!(e.exception, Exception::CoercionError(CoercionError::new(Type::String, Type::Number)));
    assert_eq!(e.stack_trace.len(), 2);
    assert_eq!(e.stack_trace[0].function, "main");
    assert_eq!(e.stack_trace[0].address, Some(14));
    assert_eq!(e.stack_trace[1].function, "<execution root>");
    assert_eq!(e.stack_trace[1].address, None);
}

#[test]
fn boolean_operands_coerce_to_numbers() {
    let code = Code::new().num(1.0).u8(PUSH_BOOL, 1).op(DIV).op(RET);
    let mut vm = main_only(code);
    assert_eq!(call_run(&mut vm, user(0), &[]), Ok(number(1.0)));
}

#[test]
fn division_by_zero_fails() {
    let code = Code::new().num(1.0).op(PUSH_NIL).op(DIV).op(RET);
    let mut vm = main_only(code);
    let e = call_run(&mut vm, user(0), &[]).unwrap_err();
    assert!(matches!(e.exception, Exception::Custom(_)));
}

fn object_program(tail: Code) -> Code {
    let mut c = Code::new()
        .u8(PUSH_OBJECT, 1)
        .op(DUP)
        .u32(PUSH_STRING, 1)
        .num(1.0)
        .u8(ADD_FIELD, 1)
        .op(DUP)
        .u32(PUSH_STRING, 2)
        .num(2.0)
        .op(WRITE_FIELD);
    c.0.extend(tail.0);
    c
}

#[test]
fn object_fields_are_written_and_read() {
    let code = object_program(Code::new().u32(PUSH_STRING, 2).op(READ_FIELD).op(RET));
    let mut vm = machine(vec![function(0, 0, 0, 0, 0, vec![])], vec!["main", "a", "b"], code, 16);
    assert_eq!(call_run(&mut vm, user(0), &[]), Ok(number(2.0)));
}

#[test]
fn object_renders_fields_in_order() {
    let code = object_program(Code::new().op(TO_STRING).op(RET));
    let mut vm = machine(vec![function(0, 0, 0, 0, 0, vec![])], vec!["main", "a", "b"], code, 16);
    let v = call_run(&mut vm, user(0), &[]).unwrap();
    assert_eq!(text_of(&vm, v), "dyn { \"a\": 1, \"b\": 2 }");
}

#[test]
fn missing_field_and_immutable_field() {
    let code = Code::new().u8(PUSH_OBJECT, 0).u32(PUSH_STRING, 1).op(READ_FIELD).op(RET);
    let mut vm = machine(vec![function(0, 0, 0, 0, 0, vec![])], vec!["main", "a"], code, 16);
    let e = call_run(&mut vm, user(0), &[]).unwrap_err();
    assert_eq!(e.exception, Exception::MissingField("a".into()));

    let code = Code::new()
        .u8(PUSH_OBJECT, 0)
        .op(DUP)
        .u32(PUSH_STRING, 1)
        .num(1.0)
        .u8(ADD_FIELD, 0)
        .u32(PUSH_STRING, 1)
        .num(2.0)
        .op(WRITE_FIELD)
        .op(PUSH_NIL)
        .op(RET);
    let mut vm = machine(vec![function(0, 0, 0, 0, 0, vec![])], vec!["main", "a"], code, 16);
    let e = call_run(&mut vm, user(0), &[]).unwrap_err();
    assert_eq!(e.exception, Exception::WriteToImmutableField("a".into()));
}

#[test]
fn subtraction_takes_the_top_as_right_operand() {
    let mut vm = main_only(Code::new().num(10.0).num(3.0).op(SUB).op(RET));
    assert_eq!(call_run(&mut vm, user(0), &[]), Ok(number(7.0)));
    let mut vm = main_only(Code::new().num(12.0).num(4.0).op(DIV).op(RET));
    assert_eq!(call_run(&mut vm, user(0), &[]), Ok(number(3.0)));
    let mut vm = main_only(Code::new().num(1.0).num(2.0).op(LESS_THAN).op(RET));
    assert_eq!(call_run(&mut vm, user(0), &[]), Ok(Value::Bool(true)));
    let mut vm = main_only(Code::new().num(1.0).num(2.0).op(GREATER_THAN).op(RET));
    assert_eq!(call_run(&mut vm, user(0), &[]), Ok(Value::Bool(false)));
}

#[test]
fn arith_step_hands_out_operands_in_order() {
    let mut vm = main_only(Code::new().num(10.0).num(3.0).op(SUB).op(RET));
    assert_eq!(vm.begin_call(user(0), &vec![]), Ok(Outcome::Continue));
    assert_eq!(vm.step(0), Ok(Outcome::Continue));
    assert_eq!(vm.step(0), Ok(Outcome::Continue));
    assert_eq!(
        vm.step(0),
        Ok(Outcome::Arith { op: ArithOp::Sub, lhs: 10f64.to_bits(), rhs: 3f64.to_bits() })
    );
    assert!(vm.stack().is_empty());
}

#[test]
fn temporary_frame_restores_the_stack() {
    let code = Code::new().num(1.0).op(ENTER_TEMP_FRAME).num(2.0).num(3.0).op(EXIT_TEMP_FRAME).op(RET);
    let mut vm = main_only(code);
    vm.begin_call(user(0), &vec![]).unwrap();
    vm.step(0).unwrap();
    vm.step(0).unwrap();
    assert_eq!(vm.call_stack().len(), 2);
    assert!(matches!(vm.call_stack()[1].kind, FrameKind::Temp { parent_function_index: 0 }));
    assert_eq!(vm.call_stack()[1].stack_start, 1);
    vm.step(0).unwrap();
    vm.step(0).unwrap();
    vm.step(0).unwrap();
    assert_eq!(vm.stack().len(), 1);
    assert_eq!(vm.call_stack().len(), 1);
    assert_eq!(vm.step(0), Ok(Outcome::Returned(number(1.0))));
}

#[test]
fn return_inside_a_temporary_frame_ends_the_function() {
    let code = Code::new().op(ENTER_TEMP_FRAME).num(4.0).op(RET);
    let mut vm = main_only(code);
    assert_eq!(call_run(&mut vm, user(0), &[]), Ok(number(4.0)));
    assert!(vm.call_stack().is_empty());
}

#[test]
fn box_is_transparent() {
    let code = Code::new().num(5.0).op(BOX).num(5.0).op(EQUAL).op(RET);
    let mut vm = main_only(code);
    assert_eq!(call_run(&mut vm, user(0), &[]), Ok(Value::Bool(true)));

    let code = Code::new().num(5.0).op(BOX).op(BOX).op(TO_STRING).op(RET);
    let mut vm = main_only(code);
    let v = call_run(&mut vm, user(0), &[]).unwrap();
    assert_eq!(text_of(&vm, v), "5");

    let code = Code::new().u8(PUSH_BOOL, 1).op(BOX).op(UNBOX).op(RET);
    let mut vm = main_only(code);
    assert_eq!(call_run(&mut vm, user(0), &[]), Ok(Value::Bool(true)));
}

#[test]
fn equality_is_structural() {
    let code = Code::new()
        .op(PUSH_LIST)
        .op(DUP)
        .num(1.0)
        .op(APPEND_ELEMENT)
        .op(DUP)
        .op(EQUAL)
        .op(RET);
    let mut vm = main_only(code);
    assert_eq!(call_run(&mut vm, user(0), &[]), Ok(Value::Bool(true)));

    let code = Code::new().num(f64::NAN).op(DUP).op(EQUAL).op(RET);
    let mut vm = main_only(code);
    assert_eq!(call_run(&mut vm, user(0), &[]), Ok(Value::Bool(false)));

    let code = Code::new().num(0.0).num(-0.0).op(EQUAL).op(RET);
    let mut vm = main_only(code);
    assert_eq!(call_run(&mut vm, user(0), &[]), Ok(Value::Bool(true)));
}

#[test]
fn strings_compare_by_text() {
    let code = Code::new().u32(PUSH_STRING, 1).op(TO_STRING).u32(PUSH_STRING, 1).op(EQUAL).op(RET);
    let mut vm = machine(vec![function(0, 0, 0, 0, 0, vec![])], vec!["main", "hi"], code, 16);
    assert_eq!(call_run(&mut vm, user(0), &[]), Ok(Value::Bool(true)));
}

#[test]
fn concat_and_list_rendering() {
    let code = Code::new()
        .op(PUSH_LIST)
        .op(DUP)
        .num(1.5)
        .op(APPEND_ELEMENT)
        .op(DUP)
        .u8(PUSH_BOOL, 0)
        .op(APPEND_ELEMENT)
        .op(DUP)
        .op(PUSH_NIL)
        .op(APPEND_ELEMENT)
        .u32(PUSH_STRING, 1)
        .op(CONCAT)
        .op(RET);
    let mut vm = machine(vec![function(0, 0, 0, 0, 0, vec![])], vec!["main", "!"], code, 16);
    let v = call_run(&mut vm, user(0), &[]).unwrap();
    assert_eq!(text_of(&vm, v), "[1.5, false, ()]!");
}

#[test]
fn list_elements_are_read_and_written() {
    let code = Code::new()
        .op(PUSH_LIST)
        .op(DUP)
        .num(1.0)
        .op(APPEND_ELEMENT)
        .op(DUP)
        .num(0.7)
        .num(9.0)
        .op(WRITE_ELEMENT)
        .num(0.0)
        .op(READ_ELEMENT)
        .op(RET);
    let mut vm = main_only(code);
    assert_eq!(call_run(&mut vm, user(0), &[]), Ok(number(9.0)));

    let code = Code::new().op(PUSH_LIST).num(1.0).op(READ_ELEMENT).op(RET);
    let mut vm = main_only(code);
    let e = call_run(&mut vm, user(0), &[]).unwrap_err();
    assert_eq!(e.exception, Exception::OutOfBoundsIndex(1f64.to_bits(), 0));

    let code = Code::new().op(PUSH_LIST).num(f64::NAN).op(READ_ELEMENT).op(RET);
    let mut vm = main_only(code);
    let e = call_run(&mut vm, user(0), &[]).unwrap_err();
    assert_eq!(e.exception, Exception::InvalidIndex(f64::NAN.to_bits()));

    let code = Code::new().op(PUSH_LIST).num(-1.0).op(READ_ELEMENT).op(RET);
    let mut vm = main_only(code);
    let e = call_run(&mut vm, user(0), &[]).unwrap_err();
    assert_eq!(e.exception, Exception::OutOfBoundsIndex((-1f64).to_bits(), 0));
}

#[test]
fn native_functions_are_called_through_the_host() {
    let code = Code::new().u32(LOAD_VAR, 0).num(1.0).num(2.0).u32(CALL, 2).op(RET);
    let mut vm = machine(vec![function(0, 0, 1, 0, 0, vec![])], vec!["main"], code, 16);
    assert_eq!(call_run(&mut vm, user(0), &[Value::Function(native(0))]), Ok(number(2.0)));
    assert!(vm.stack().is_empty());
    assert!(vm.call_stack().is_empty());
}

#[test]
fn natives_reenter_the_machine() {
    let main = Code::new().u32(LOAD_VAR, 0).u32(PUSH_FUNC, 1).u32(CALL, 1).op(RET);
    let callee_at = main.here();
    let code = main.num(8.0).op(RET);
    let functions = vec![function(0, 0, 1, 0, 0, vec![]), function(1, 0, 0, 0, callee_at, vec![])];
    let mut vm = machine(functions, vec!["main"], code, 16);
    assert_eq!(call_run(&mut vm, user(0), &[Value::Function(native(1))]), Ok(number(8.0)));
    assert!(vm.call_stack().is_empty());
}

#[test]
fn machine_errors() {
    let mut vm = main_only(Code::new().op(0x99));
    assert_eq!(call_run(&mut vm, user(0), &[]).unwrap_err().exception, Exception::UnknownOpcode(0x99));
    let mut vm = main_only(Code::new().op(BOUNDARY));
    assert_eq!(call_run(&mut vm, user(0), &[]).unwrap_err().exception, Exception::Overrun);
    let mut vm = main_only(Code::new().op(POP));
    assert_eq!(call_run(&mut vm, user(0), &[]).unwrap_err().exception, Exception::StackUnderflow);
    let mut vm = main_only(Code::new().u32(LOAD_VAR, 3).op(RET));
    assert_eq!(call_run(&mut vm, user(0), &[]).unwrap_err().exception, Exception::InvalidVariable(3));
    let mut vm = main_only(Code::new().op(RET));
    assert_eq!(call_run(&mut vm, user(7), &[]).unwrap_err().exception, Exception::InvalidUserFunction(7));
    let mut vm = main_only(Code::new().u32(PUSH_FUNC, 0).u32(CALL, 0).op(RET));
    assert_eq!(call_run(&mut vm, user(0), &[]).unwrap_err().exception, Exception::CallStackOverflow);
    let mut vm = machine(
        vec![function(0, 0, 0, 0, 0, vec![])],
        vec!["main"],
        Code::new().op(PUSH_LIST).op(PUSH_LIST).op(RET),
        1,
    );
    assert_eq!(call_run(&mut vm, user(0), &[]).unwrap_err().exception, Exception::OutOfMemory);
}

#[test]
fn functions_render_by_name() {
    let code = Code::new().u32(PUSH_FUNC, 0).op(TO_STRING).op(RET);
    let mut vm = main_only(code);
    let v = call_run(&mut vm, user(0), &[]).unwrap();
    assert_eq!(text_of(&vm, v), "main");
}

#[test]
fn instruction_summary_reads_operands_and_arguments() {
    let code = Code::new().num(1.0).num(2.0).op(SUB).u32(CALL, 2).0;
    let stack = vec![number(1.0), number(2.0)];
    let s = InstructionSummary::from_code(&code, 0, &vec![]).unwrap();
    assert_eq!(s.name, "PushFloat");
    assert_eq!(s.operands[0].kind, OperandKind::F64);
    assert_eq!(s.operands[0].value, Some(1f64.to_bits()));
    let s = InstructionSummary::from_code(&code, 18, &stack).unwrap();
    assert_eq!(s.name, "Sub");
    assert_eq!(s.arguments[0].name, "left");
    assert_eq!(s.arguments[0].value, Some(number(1.0)));
    assert_eq!(s.arguments[1].value, Some(number(2.0)));
    let s = InstructionSummary::from_code(&code, 19, &stack).unwrap();
    assert_eq!(s.operands[0].value, Some(2));
    assert_eq!(s.arguments.len(), 2);
    assert_eq!(s.arguments[0].value, Some(number(1.0)));
    assert!(InstructionSummary::from_code(&code, 24, &stack).is_none());
    let cut = vec![JUMP, 0, 1];
    assert_eq!(InstructionSummary::from_code(&cut, 0, &stack).unwrap().operands[0].value, None);
}

#[test]
fn list_helpers() {
    let xs = vec![number(1.0), number(2.0), number(3.0)];
    assert_eq!(reversed(&xs), vec![number(3.0), number(2.0), number(1.0)]);
    assert_eq!(concatenated(&xs, &vec![Value::Nil]).len(), 4);
    assert_eq!(slice_bounds(3, (-2f64).to_bits(), 2.9f64.to_bits()), Ok((0, 2)));
    assert_eq!(slice_bounds(3, 2f64.to_bits(), 1f64.to_bits()), Ok((2, 2)));
    assert_eq!(slice_bounds(3, 1f64.to_bits(), 1e300f64.to_bits()), Err(Exception::InvalidIndex(1e300f64.to_bits())));
    assert_eq!(slice_bounds(3, 1f64.to_bits(), 7f64.to_bits()), Ok((1, 3)));
}

#[test]
fn lists_change_through_the_machine() {
    let mut vm = main_only(Code::new().op(RET));
    let list = vm.alloc_list(vec![number(1.0)]).unwrap();
    vm.list_push(list, number(2.0)).unwrap();
    assert_eq!(vm.list_elements(list).unwrap(), vec![number(1.0), number(2.0)]);
    assert_eq!(vm.list_pop(list), Ok(number(2.0)));
    assert_eq!(vm.list_pop(list), Ok(number(1.0)));
    assert_eq!(vm.list_pop(list), Ok(Value::Nil));
    assert!(vm.list_elements(number(1.0)).is_err());
}

#[test]
fn more_machine_errors() {
    let code = Code::new().u32(PUSH_STRING, 9).op(TO_STRING).op(RET);
    let mut vm = main_only(code);
    assert_eq!(call_run(&mut vm, user(0), &[]).unwrap_err().exception, Exception::InvalidString(9));

    let code = Code::new().op(PUSH_LIST).op(DUP).op(DUP).op(APPEND_ELEMENT).op(TO_STRING).op(RET);
    let mut vm = main_only(code);
    assert_eq!(call_run(&mut vm, user(0), &[]).unwrap_err().exception, Exception::NestingTooDeep);

    let code = Code::new().op(PUSH_LIST).op(DUP).op(DUP).op(APPEND_ELEMENT).op(DUP).op(EQUAL).op(RET);
    let mut vm = main_only(code);
    assert_eq!(call_run(&mut vm, user(0), &[]).unwrap_err().exception, Exception::NestingTooDeep);

    let mut vm = main_only(Code::new().op(RET));
    let captured = Closure { function: FuncId(0x8000_0003), captures: Some(noa_vm::heap::HeapAddress(0)) };
    assert_eq!(
        vm.begin_call(captured, &vec![]).unwrap_err().exception,
        Exception::InvalidNativeFunction(3)
    );

    let mut vm = main_only(Code::new().op(RET));
    assert_eq!(vm.step(0).unwrap_err().exception, Exception::NoReturn);
}

#[test]
fn box_keeps_the_type_of_its_content() {
    use_box_type();
}

fn use_box_type() {
    let code = Code::new().u32(PUSH_STRING, 0).op(BOX).op(RET);
    let mut vm = main_only(code);
    let boxed = call_run(&mut vm, user(0), &[]).unwrap();
    assert_eq!(noa_vm::value_ops::get_type(vm.heap(), boxed), Ok(Type::String));
    assert_eq!(text_of(&vm, boxed), "main");
}

#[test]
fn allocated_objects_number_fields_by_position() {
    let mut vm = main_only(Code::new().op(RET));
    let field = |x: f64, index: u32| Field { val: number(x), mutable: true, index };
    let obj = vm
        .alloc_object(vec![(String::from("b"), field(2.0, 7)), (String::from("a"), field(1.0, 3))], false)
        .unwrap();
    match obj {
        Value::Object(h) => match vm.heap().get(h).unwrap() {
            HeapValue::Object(o) => {
                assert_eq!(o.fields[0].1.index, 0);
                assert_eq!(o.fields[1].1.index, 1);
            }
            _ => panic!("not an object"),
        },
        _ => panic!("not an address"),
    }
    vm.add_numeral(2f64.to_bits(), String::from("2"));
    vm.add_numeral(1f64.to_bits(), String::from("1"));
    assert_eq!(text_of(&vm, obj), "{ \"b\": 2, \"a\": 1 }");
}

#[test]
fn collection_runs_past_the_threshold() {
    let mut vm = machine(vec![function(0, 0, 0, 0, 0, vec![])], vec!["main"], Code::new().op(RET), 20000);
    let n = noa_vm::vm::INITIAL_GC_THRESHOLD + 2;
    for _ in 0..n {
        vm.alloc_list(vec![]).unwrap();
    }
    assert!(vm.heap().used() < n);
}
