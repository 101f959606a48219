use pettyscript_bytecode::op_codes::OpCode;
use pettyscript_bytecode::program::Program;
use pettyscript_bytecode::value::Value;
use pettyscript_bytecode::vm;
use pettyscript_bytecode::vm::VmErrorKind;

#[test]
fn test_binary_expressions() {
    let mut program = Program::new();
    program.push_literal(Value::Int(1));
    program.push_literal(Value::Int(2));
    program.push_opcode(OpCode::Add);

    program.push_literal(Value::Int(3));
    program.push_literal(Value::Int(4));
    program.push_opcode(OpCode::Sub);

    program.push_opcode(OpCode::Gt);

    let stack = vm::create_and_run(&program).unwrap();
    assert_eq!(stack, vec![Value::Int(1)]);
}

#[test]
fn test_jump() {
    let mut program = Program::new();

    let jump = program.push_jump(0);

    program.push_literal(Value::Int(1));
    program.push_literal(Value::Int(2));

    program.patch_jump(jump);
    program.push_literal(Value::Int(3));

    let stack = vm::create_and_run(&program).unwrap();
    assert_eq!(stack, vec![Value::Int(3)]);
}

#[test]
fn test_pop_jump_if_false() {
    let mut program = Program::new();

    program.push_literal(Value::Int(0));
    let jump = program.push_pop_jump_if_false(0);

    program.push_literal(Value::Int(1));
    program.push_literal(Value::Int(2));

    program.patch_jump(jump);
    program.push_literal(Value::Int(3));

    let stack = vm::create_and_run(&program).unwrap();
    assert_eq!(stack, vec![Value::Int(3)]);
}

#[test]
fn test_if_true() {
    let mut program = Program::new();

    program.push_literal(Value::Int(1));
    let jump = program.begin_if();
    program.push_literal(Value::from("Hello, "));
    program.end_if(jump);
    program.push_literal(Value::from("World!"));

    let stack = vm::create_and_run(&program).unwrap();
    assert_eq!(stack, vec![Value::from("Hello, "), Value::from("World!")]);
}

#[test]
fn test_if_false() {
    let mut program = Program::new();

    program.push_literal(Value::Int(0));
    let jump = program.begin_if();
    program.push_literal(Value::from("Hello, "));
    program.end_if(jump);
    program.push_literal(Value::from("World!"));

    let stack = vm::create_and_run(&program).unwrap();
    assert_eq!(stack, vec![Value::from("World!")]);
}

#[test]
fn test_if_else_true() {
    let mut program = Program::new();

    program.push_literal(Value::Int(1));
    let jump_if = program.begin_if();
    program.push_literal(Value::from("Hello, "));
    let jump_else = program.begin_else(jump_if);
    program.push_literal(Value::from("Goodbye, "));
    program.end_else(jump_else);
    program.push_literal(Value::from("World!"));

    let stack = vm::create_and_run(&program).unwrap();
    assert_eq!(stack, vec![Value::from("Hello, "), Value::from("World!")]);
}

#[test]
fn test_if_else_false() {
    let mut program = Program::new();

    program.push_literal(Value::Int(0));
    let jump_if = program.begin_if();
    program.push_literal(Value::from("Hello, "));
    let jump_else = program.begin_else(jump_if);
    program.push_literal(Value::from("Goodbye, "));
    program.end_else(jump_else);
    program.push_literal(Value::from("World!"));

    let stack = vm::create_and_run(&program).unwrap();
    assert_eq!(stack, vec![Value::from("Goodbye, "), Value::from("World!")]);
}

#[test]
fn test_while_loop() {
    let mut program = Program::new();

    program.push_literal(Value::Int(0));

    let start = program.len();
    program.push_opcode(OpCode::Dup);
    program.push_literal(Value::Int(10));
    program.push_opcode(OpCode::Lt);
    let exit_jump = program.begin_while_body();
    program.push_literal(Value::Int(1));
    program.push_opcode(OpCode::Add);
    program.end_while(start, exit_jump);

    let stack = vm::create_and_run(&program).unwrap();
    assert_eq!(stack, vec![Value::Int(10)]);
}

#[test]
fn while_range_product() {
    let mut program = Program::new();

    // product = 1
    program.push_literal(Value::Int(1));
    // i = 0
    program.push_literal(Value::Int(0));

    // while i < 5
    let start = program.len();
    program.push_opcode(OpCode::Dup);
    program.push_literal(Value::Int(5));
    program.push_opcode(OpCode::Lt);
    let exit_jump = program.begin_while_body();
    // i += 1
    program.push_literal(Value::Int(1));
    program.push_opcode(OpCode::Add);
    // product *= i
    program.push_opcode(OpCode::DupSwap);
    program.push_opcode(OpCode::Mul);
    program.push_opcode(OpCode::Swap);
    program.end_while(start, exit_jump);

    let stack = vm::create_and_run(&program).unwrap();
    assert_eq!(stack, vec![Value::Int(5 * 4 * 3 * 2), Value::Int(5)]);
}

#[test]
fn test_load_store_name() {
    let mut program = Program::new();

    program.push_literal(Value::Int(1));
    program.store_name("x");
    program.load_name("x");
    program.load_name("x");

    let stack = vm::create_and_run(&program).unwrap();
    assert_eq!(stack, vec![Value::Int(1), Value::Int(1)]);
}

#[test]
fn test_func_call() {
    let mut program = Program::new();

    let (skip, func) = program.begin_func();
    program.push_literal(Value::Int(1));
    program.push_opcode(OpCode::Add);
    program.end_func(skip);

    program.push_literal(Value::Int(3));
    program.call_func(func);
    program.push_literal(Value::Int(2));

    let stack = vm::create_and_run(&program).unwrap();
    assert_eq!(stack, vec![Value::Int(4), Value::Int(2)]);
}

#[test]
fn stack_underflow_reports_partial_stack() {
    let mut program = Program::new();
    program.push_literal(Value::Int(1));
    program.push_opcode(OpCode::Add);
    let err = vm::create_and_run(&program).unwrap_err();
    assert_eq!(err.kind, VmErrorKind::StackUnderflow);
    // the one operand was consumed before the underflow was noticed
    assert_eq!(err.stack, vec![]);
}

#[test]
fn undefined_variable_is_an_error() {
    let mut program = Program::new();
    program.load_name("ghost_town");
    let err = vm::create_and_run(&program).unwrap_err();
    assert_eq!(err.kind, VmErrorKind::UndefinedVariable);
}

#[test]
fn invalid_opcode_is_an_error() {
    let program = Program { bytes: vec![99], constants: vec![], idents: vec![] };
    let err = vm::create_and_run(&program).unwrap_err();
    assert_eq!(err.kind, VmErrorKind::InvalidOpCode(99));
}

#[test]
fn ret_on_empty_call_stack_is_an_error() {
    let mut program = Program::new();
    program.push_opcode(OpCode::Ret);
    let err = vm::create_and_run(&program).unwrap_err();
    assert_eq!(err.kind, VmErrorKind::CallStackUnderflow);
}

#[test]
fn unary_not_on_function_is_an_error() {
    let mut program = Program::new();
    program.push_builtin(pettyscript_bytecode::builtins::Builtin::Print);
    program.push_opcode(OpCode::UnaryNot);
    let err = vm::create_and_run(&program).unwrap_err();
    assert_eq!(err.kind, VmErrorKind::UnsupportedTypes);
}

#[test]
fn unary_not_negates_truthiness() {
    let mut program = Program::new();
    program.push_literal(Value::Int(0));
    program.push_opcode(OpCode::UnaryNot);
    program.push_literal(Value::Int(3));
    program.push_opcode(OpCode::UnaryNot);
    let stack = vm::create_and_run(&program).unwrap();
    assert_eq!(stack, vec![Value::Int(1), Value::Int(0)]);
}

#[test]
fn comparison_opcodes() {
    let cmp = |op: OpCode, a: i64, b: i64| {
        let mut program = Program::new();
        program.push_literal(Value::Int(a));
        program.push_literal(Value::Int(b));
        program.push_opcode(op);
        vm::create_and_run(&program).unwrap()
    };
    assert_eq!(cmp(OpCode::Lt, 1, 2), vec![Value::Int(1)]);
    assert_eq!(cmp(OpCode::Lt, 2, 2), vec![Value::Int(0)]);
    assert_eq!(cmp(OpCode::Le, 2, 2), vec![Value::Int(1)]);
    assert_eq!(cmp(OpCode::Gt, 3, 2), vec![Value::Int(1)]);
    assert_eq!(cmp(OpCode::Ge, 1, 2), vec![Value::Int(0)]);
    assert_eq!(cmp(OpCode::Eq, 2, 2), vec![Value::Int(1)]);
    assert_eq!(cmp(OpCode::Ne, 2, 2), vec![Value::Int(0)]);
}

#[test]
fn invalid_builtin_is_an_error() {
    let program = Program { bytes: vec![OpCode::LoadBuiltin.to_byte(), 9], constants: vec![], idents: vec![] };
    let err = vm::create_and_run(&program).unwrap_err();
    assert_eq!(err.kind, VmErrorKind::InvalidBuiltin(9));
}

#[test]
fn truncated_operand_is_an_error() {
    let program = Program { bytes: vec![OpCode::LoadConst.to_byte()], constants: vec![], idents: vec![] };
    let err = vm::create_and_run(&program).unwrap_err();
    assert_eq!(err.kind, VmErrorKind::TruncatedOperand);
}

#[test]
fn bad_pool_indices_are_errors() {
    let mut with_const = Program::new();
    with_const.push_opcode(OpCode::Nop);
    with_const.bytes.push(OpCode::LoadConst.to_byte());
    with_const.push_u32(5);
    let err = vm::create_and_run(&with_const).unwrap_err();
    assert_eq!(err.kind, VmErrorKind::BadConstIndex);

    let mut with_name = Program::new();
    with_name.push_literal(Value::Int(1));
    with_name.bytes.push(OpCode::StoreName.to_byte());
    with_name.push_u32(3);
    let err = vm::create_and_run(&with_name).unwrap_err();
    assert_eq!(err.kind, VmErrorKind::BadNameIndex);
}

#[test]
fn nan_compares_with_nothing() {
    let nan = || Value::Float(f64::NAN.to_bits());
    let run = |op: OpCode, a: Value, b: Value| {
        let mut program = Program::new();
        program.push_literal(a);
        program.push_literal(b);
        program.push_opcode(op);
        vm::create_and_run(&program).unwrap()
    };
    assert_eq!(run(OpCode::Lt, nan(), Value::Float((1.0f64).to_bits())), vec![Value::Int(0)]);
    assert_eq!(run(OpCode::Ge, nan(), Value::Float((1.0f64).to_bits())), vec![Value::Int(0)]);
    assert_eq!(run(OpCode::Eq, nan(), nan()), vec![Value::Int(0)]);
    assert_eq!(run(OpCode::Ne, nan(), nan()), vec![Value::Int(1)]);
}

#[test]
fn negative_zero_equals_zero() {
    let mut program = Program::new();
    program.push_literal(Value::Float((0.0f64).to_bits()));
    program.push_literal(Value::Float((-0.0f64).to_bits()));
    program.push_opcode(OpCode::Eq);
    assert_eq!(vm::create_and_run(&program).unwrap(), vec![Value::Int(1)]);
}

#[test]
fn cross_variant_comparison_uses_variant_order() {
    // values of different variants compare by variant declaration order:
    // integers below floats below strings below function references
    let mut program = Program::new();
    program.push_literal(Value::Int(100));
    program.push_literal(Value::Float((1.0f64).to_bits()));
    program.push_opcode(OpCode::Lt);
    assert_eq!(vm::create_and_run(&program).unwrap(), vec![Value::Int(1)]);
}
