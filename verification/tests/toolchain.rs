use pettyscript_bytecode::assembler::{
    compile_str, compile_tokens, filter_tokenize, tokenize, CompileError, LexError, Token,
};
use pettyscript_bytecode::builtins::{Builtin, PRINT_ENTRY};
use pettyscript_bytecode::cursor::Cursor;
use pettyscript_bytecode::op_codes::OpCode;
use pettyscript_bytecode::program::{insert_vec, Program};
use pettyscript_bytecode::value::Value;
use pettyscript_bytecode::vm;

#[test]
fn end_to_end_comparison() {
    // 1+2 = 3 is greater than 3-4 = -1: true, represented as integer 1
    let program = compile_str("1 2 + 3 4 - >").unwrap();
    let stack = vm::create_and_run(&program).unwrap();
    assert_eq!(stack, vec![Value::Int(1)]);
}

#[test]
fn division_always_floats() {
    let program = compile_str("7 2 /").unwrap();
    let stack = vm::create_and_run(&program).unwrap();
    assert_eq!(stack, vec![Value::Float((3.5f64).to_bits())]);
}

#[test]
fn float_literals_compile_and_add() {
    let program = compile_str("1.5 2.25 +").unwrap();
    let stack = vm::create_and_run(&program).unwrap();
    assert_eq!(stack, vec![Value::Float((3.75f64).to_bits())]);
}

#[test]
fn trailing_dot_parses_as_float() {
    let program = compile_str("3. 2 +").unwrap();
    let stack = vm::create_and_run(&program).unwrap();
    assert_eq!(stack, vec![Value::Float((5.0f64).to_bits())]);
}

#[test]
fn string_repeat_from_source() {
    let program = compile_str("\"ab\" 3 *").unwrap();
    let stack = vm::create_and_run(&program).unwrap();
    assert_eq!(stack, vec![Value::Str(String::from("ababab"))]);
}

#[test]
fn forward_jump_resolves() {
    // the jump references a label defined later in the stream
    let program = compile_str("$end 1 @end 2").unwrap();
    let stack = vm::create_and_run(&program).unwrap();
    assert_eq!(stack, vec![Value::Int(2)]);
}

#[test]
fn backward_jump_loops() {
    // count from 0 to 10 with a conditional jump back to the loop head
    let program = compile_str("0 @head 1 + dup 10 < ! ?head").unwrap();
    let stack = vm::create_and_run(&program).unwrap();
    assert_eq!(stack, vec![Value::Int(10)]);
}

#[test]
fn comments_and_whitespace_are_insignificant() {
    let program = compile_str("1 // a comment with $junk in it\n  2 +").unwrap();
    let stack = vm::create_and_run(&program).unwrap();
    assert_eq!(stack, vec![Value::Int(3)]);
}

#[test]
fn stack_keywords() {
    let stack = vm::create_and_run(&compile_str("1 2 swap pop").unwrap()).unwrap();
    assert_eq!(stack, vec![Value::Int(2)]);
    let stack = vm::create_and_run(&compile_str("5 dup").unwrap()).unwrap();
    assert_eq!(stack, vec![Value::Int(5), Value::Int(5)]);
    let stack = vm::create_and_run(&compile_str("1 2 dup_swap").unwrap()).unwrap();
    assert_eq!(stack, vec![Value::Int(2), Value::Int(1), Value::Int(2)]);
}

#[test]
fn print_consumes_its_argument() {
    let program = compile_str("\"hi\" print").unwrap();
    let stack = vm::create_and_run(&program).unwrap();
    assert_eq!(stack, vec![]);
}

#[test]
fn duplicate_label_is_rejected() {
    match compile_str("@a 1 @a") {
        Err(CompileError::DuplicateLabel(name)) => assert_eq!(name, "a"),
        other => panic!("expected a duplicate-label error, got {other:?}"),
    }
}

#[test]
fn unresolved_label_is_rejected() {
    match compile_str("$nowhere 1 2 +") {
        Err(CompileError::UnresolvedLabel(name)) => assert_eq!(name, "nowhere"),
        other => panic!("expected an unresolved-label error, got {other:?}"),
    }
}

#[test]
fn unknown_keyword_is_rejected() {
    match compile_str("frobnicate") {
        Err(CompileError::UnknownKeyword(name)) => assert_eq!(name, "frobnicate"),
        other => panic!("expected an unknown-keyword error, got {other:?}"),
    }
}

#[test]
fn unrecognized_char_is_a_lex_error() {
    match compile_str("1 # 2") {
        Err(CompileError::Lex(LexError::UnrecognizedChar(c))) => assert_eq!(c, '#'),
        other => panic!("expected a lexical error, got {other:?}"),
    }
}

#[test]
fn oversized_integer_is_a_lex_error() {
    match compile_str("99999999999999999999") {
        Err(CompileError::Lex(LexError::MalformedNumber)) => {}
        other => panic!("expected a malformed-number error, got {other:?}"),
    }
}

#[test]
fn constant_pool_deduplicates() {
    // pushing the same literal twice yields the same pool index both times
    let mut program = Program::new();
    let first = program.push_literal(Value::Int(42));
    let second = program.push_literal(Value::Int(42));
    assert_eq!(first, second);
    let third = program.push_literal(Value::Int(7));
    assert_ne!(first, third);
    assert_eq!(program.constants.len(), 2);

    // the same holds through compilation from source
    let compiled = compile_str("1 1 + 1 +").unwrap();
    assert_eq!(compiled.constants, vec![Value::Int(1)]);
}

#[test]
fn insert_vec_first_match_wins() {
    let mut pool = vec![Value::Int(1), Value::Int(2)];
    assert_eq!(insert_vec(&mut pool, Value::Int(2)), 1);
    assert_eq!(insert_vec(&mut pool, Value::Int(9)), 2);
    assert_eq!(pool.len(), 3);
}

#[test]
fn identifier_pool_deduplicates() {
    let mut program = Program::new();
    let a = program.store_name("x");
    let b = program.load_name("x");
    let c = program.load_name("y");
    assert_eq!(a, b);
    assert_ne!(a, c);
    assert_eq!(program.idents, vec![String::from("x"), String::from("y")]);
}

#[test]
fn tokenize_keeps_trivia_and_filter_drops_it() {
    let all = tokenize("1 + // c").unwrap();
    assert_eq!(
        all,
        vec![
            Token::Int(1),
            Token::Whitespace,
            Token::Add,
            Token::Whitespace,
            Token::Comment,
        ]
    );
    let kept = filter_tokenize("1 + // c").unwrap();
    assert_eq!(kept, vec![Token::Int(1), Token::Add]);
}

#[test]
fn tokenize_recognizes_every_token_kind() {
    let kept = filter_tokenize("2.5 \"s\" @l $l ?l ret < <= > >= = ! - * /").unwrap();
    assert_eq!(
        kept,
        vec![
            Token::Float((2.5f64).to_bits()),
            Token::Str(String::from("s")),
            Token::Flag(String::from("l")),
            Token::Jump(String::from("l")),
            Token::OptJump(String::from("l")),
            Token::Keyword(String::from("ret")),
            Token::Lt,
            Token::Le,
            Token::Gt,
            Token::Ge,
            Token::Eq,
            Token::Not,
            Token::Sub,
            Token::Mul,
            Token::Div,
        ]
    );
}

#[test]
fn unterminated_string_runs_to_the_end() {
    let program = compile_str("\"abc").unwrap();
    let stack = vm::create_and_run(&program).unwrap();
    assert_eq!(stack, vec![Value::Str(String::from("abc"))]);
}

#[test]
fn compile_tokens_accepts_a_hand_built_stream() {
    let tokens = vec![Token::Int(2), Token::Int(3), Token::Mul];
    let program = compile_tokens(&tokens).unwrap();
    let stack = vm::create_and_run(&program).unwrap();
    assert_eq!(stack, vec![Value::Int(6)]);
}

#[test]
fn cursor_scans_characters() {
    let mut cursor = Cursor::new("ab c");
    assert_eq!(cursor.peek(), Some('a'));
    assert_eq!(cursor.bump(), Some('a'));
    assert_eq!(cursor.remaining(), "b c");
    cursor.take_while(|c| c != ' ');
    assert_eq!(cursor.bump(), Some(' '));
    assert_eq!(cursor.bump(), Some('c'));
    assert_eq!(cursor.bump(), None);
    assert_eq!(cursor.remaining(), "");
}

#[test]
fn opcode_bytes_round_trip() {
    assert_eq!(OpCode::from_byte(OpCode::Add.to_byte()).unwrap(), OpCode::Add);
    assert_eq!(OpCode::from_byte(0).unwrap(), OpCode::Nop);
    assert!(OpCode::from_byte(OpCode::StopCode.to_byte()).is_err());
    assert!(OpCode::from_byte(200).is_err());
    assert_eq!(OpCode::LoadConst.size_operand(), 4);
    assert_eq!(OpCode::LoadBuiltin.size_operand(), 1);
    assert_eq!(OpCode::Add.size_operand(), 0);
}

#[test]
fn builtin_bytes_round_trip() {
    assert_eq!(Builtin::from_byte(0).unwrap(), Builtin::Print);
    assert_eq!(Builtin::from_byte(1).unwrap(), Builtin::Exit);
    assert!(Builtin::from_byte(2).is_err());
    assert_eq!(Builtin::Print.entry_offset(), Some(PRINT_ENTRY));
    assert_eq!(Builtin::Exit.entry_offset(), None);
}

#[test]
fn load_builtin_pushes_a_function_reference() {
    let mut program = Program::new();
    program.push_builtin(Builtin::Print);
    let stack = vm::create_and_run(&program).unwrap();
    assert_eq!(stack, vec![Value::Function(PRINT_ENTRY)]);
}

#[test]
fn program_read_arr() {
    let mut program = Program::new();
    program.push_u32(0x0403_0201);
    assert_eq!(program.read_arr(0), Some([1, 2, 3, 4]));
    assert_eq!(program.read_arr(1), None);
}

#[test]
fn empty_source_compiles_to_the_bare_preamble() {
    let program = compile_str("").unwrap();
    let stack = vm::create_and_run(&program).unwrap();
    assert_eq!(stack, vec![]);
}
