use bcp::ast::{Expr, Program, Stmt};
use bcp::chunk::Chunk;
use bcp::codegen::{Chunk as BytecodeChunk, Codegen};
use bcp::driver::{execute_source, token_listing, Line};
use bcp::instruction::{Constant, Instruction, OpCode};
use bcp::lexer::tokenize;
use bcp::parser::Parser;
use bcp::token::{Token, TokenType};
use bcp::type_checker::TypeChecker;
use bcp::types::Type;
use bcp::value::Value;
use bcp::vm::VM;

fn parse(source: &str) -> Program {
    let tokens = tokenize(source).unwrap();
    let mut parser = Parser::new(tokens);
    parser.parse().unwrap()
}

fn parse_err(source: &str) -> String {
    let tokens = tokenize(source).unwrap();
    let mut parser = Parser::new(tokens);
    match parser.parse() {
        Ok(_) => panic!("expected a syntax error"),
        Err(e) => e,
    }
}

fn report(source: &str) -> Vec<(bool, String)> {
    execute_source(source)
        .into_iter()
        .map(|l| match l {
            Line::Stdout(s) => (true, s),
            Line::Stderr(s) => (false, s),
        })
        .collect()
}

fn run_chunk(instrs: Vec<Instruction>, consts: Vec<Constant>) -> Result<Value, String> {
    let mut bc = BytecodeChunk::new("test");
    for c in consts {
        bc.add_constant(c);
    }
    bc.instructions = instrs;
    let mut vm = VM::new();
    let idx = vm.add_chunk(Chunk::from_bytecode_chunk(bc));
    vm.interpret(idx)
}

// ---- lexer ----

#[test]
fn tokens_end_with_one_eof() {
    for src in ["", "a b", "let x = 1\nx + 2", "// only a comment"] {
        let tokens = tokenize(src).unwrap();
        assert_eq!(tokens.last().unwrap().kind, TokenType::Eof);
        let eofs = tokens.iter().filter(|t| t.kind == TokenType::Eof).count();
        assert_eq!(eofs, 1);
    }
}

#[test]
fn lexer_two_char_operators_and_keywords() {
    let tokens = tokenize("fn f() -> i32 { return a <= b && c != d || !e }").unwrap();
    let kinds: Vec<TokenType> = tokens.iter().map(|t| t.kind).collect();
    assert_eq!(kinds[0], TokenType::Fn);
    assert!(kinds.contains(&TokenType::Arrow));
    assert!(kinds.contains(&TokenType::LessEqual));
    assert!(kinds.contains(&TokenType::And));
    assert!(kinds.contains(&TokenType::BangEqual));
    assert!(kinds.contains(&TokenType::Or));
    assert!(kinds.contains(&TokenType::Bang));
    assert!(kinds.contains(&TokenType::Return));
}

#[test]
fn lexer_positions() {
    let tokens = tokenize("ab \"hi\"\n  42").unwrap();
    assert_eq!((tokens[0].line, tokens[0].col), (1, 1));
    assert_eq!(tokens[1].kind, TokenType::String);
    assert_eq!(tokens[1].value, "hi");
    assert_eq!((tokens[1].line, tokens[1].col), (1, 5));
    assert_eq!(tokens[2].kind, TokenType::Newline);
    assert_eq!(tokens[3].value, "42");
    assert_eq!((tokens[3].line, tokens[3].col), (2, 3));
}

#[test]
fn lexer_errors() {
    assert_eq!(tokenize("let x = &").unwrap_err(), "Unexpected '&' at 1:10");
    assert_eq!(tokenize("x = \"abc").unwrap_err(), "Unterminated string at 1:6");
    assert_eq!(tokenize("\"a\nb\"").unwrap_err(), "Unterminated string at 1:2");
    assert_eq!(tokenize("a $ b").unwrap_err(), "Unexpected character '$' at 1:3");
}

#[test]
fn token_text_and_listing() {
    let t = Token::new(TokenType::Identifier, "x\"y".to_string(), 1, 1);
    assert_eq!(t.describe(), "Identifier(\"x\\\"y\")");
    let lines = token_listing("let x").unwrap();
    assert_eq!(
        lines,
        vec![
            "Tokenization successful. 3 tokens.".to_string(),
            "  Let(\"let\")".to_string(),
            "  Identifier(\"x\")".to_string(),
            "  Eof(\"EOF\")".to_string(),
        ]
    );
    assert_eq!(token_listing("@").unwrap_err(), "Unexpected character '@' at 1:1");
}

// ---- parser ----

#[test]
fn parser_precedence_and_assignment() {
    let program = parse("a = 1 * 2 - 3 < 4");
    match &program.stmts[0] {
        Stmt::Expression(Expr::Assignment { target, value }) => {
            assert!(matches!(target.as_ref(), Expr::Identifier(n) if n == "a"));
            assert!(matches!(value.as_ref(), Expr::Binary { .. }));
        }
        _ => panic!("expected an assignment"),
    }
}

#[test]
fn parser_statements() {
    let program = parse("let x = 1\nwhile x < 3 {\n x = x + 1\n}\nfor i in (x) { i }\nfn f(a i32) -> i32 { return a }\n{ let y = 2 }");
    assert_eq!(program.stmts.len(), 5);
    assert!(matches!(program.stmts[1], Stmt::While(..)));
    assert!(matches!(program.stmts[2], Stmt::For { .. }));
    assert!(matches!(program.stmts[3], Stmt::FnDeclaration(..)));
    assert!(matches!(program.stmts[4], Stmt::Block(..)));
}

#[test]
fn parser_errors() {
    assert_eq!(parse_err("let = 1"), "Expected variable name but got Equal ('=') at line 1");
    assert_eq!(parse_err(")"), "Unexpected token CloseParen at line 1");
    assert_eq!(parse_err("99999999999999999999"), "Invalid number: number too large to fit in target type");
}

// ---- type checker ----

#[test]
fn type_names() {
    assert_eq!(Type::I64.name(), "i64");
    assert!(Type::I32.is_numeric());
    assert!(!Type::Bool.is_numeric());
    let mut checker = TypeChecker::new();
    assert!(checker.check(&parse("let s string = 1\nlet b = 1 < 2")).is_ok());
}

// ---- code generation ----

#[test]
fn codegen_exact_code() {
    let mut codegen = Codegen::new();
    let chunks = codegen.generate(&parse("let x = 7\nx")).unwrap();
    assert_eq!(chunks.len(), 1);
    let c = &chunks[0];
    assert_eq!(c.name, "main");
    let ops: Vec<(OpCode, Vec<usize>)> = c.instructions.iter().map(|i| (i.opcode, i.operands.clone())).collect();
    assert_eq!(
        ops,
        vec![
            (OpCode::Constant, vec![0]),
            (OpCode::DefineGlobal, vec![0]),
            (OpCode::GetGlobal, vec![0]),
            (OpCode::Pop, vec![]),
            (OpCode::Nil, vec![]),
            (OpCode::Return, vec![]),
        ]
    );
    assert!(matches!(c.constants[0], Constant::Int(7)));
}

#[test]
fn codegen_if_jumps() {
    let mut codegen = Codegen::new();
    let chunks = codegen.generate(&parse("if true { 1 } else { 2 }")).unwrap();
    let ops: Vec<(OpCode, Vec<usize>)> =
        chunks[0].instructions.iter().map(|i| (i.opcode, i.operands.clone())).collect();
    assert_eq!(
        ops,
        vec![
            (OpCode::True, vec![]),
            (OpCode::JumpIfFalse, vec![5]),
            (OpCode::Pop, vec![]),
            (OpCode::Constant, vec![0]),
            (OpCode::Jump, vec![7]),
            (OpCode::Pop, vec![]),
            (OpCode::Constant, vec![1]),
            (OpCode::Pop, vec![]),
            (OpCode::Nil, vec![]),
            (OpCode::Return, vec![]),
        ]
    );
}

#[test]
fn generated_code_is_well_formed() {
    let mut codegen = Codegen::new();
    let src = "let s = \"a\"\nlet n = 3\nwhile n > 0 { n = n - 1 }\nif n == 0 { s } else { 1 }";
    let chunks = codegen.generate(&parse(src)).unwrap();
    let c = &chunks[0];
    for ins in &c.instructions {
        match ins.opcode {
            OpCode::Constant => assert!(ins.operands[0] < c.constants.len()),
            OpCode::GetGlobal | OpCode::SetGlobal | OpCode::DefineGlobal => assert_eq!(ins.operands.len(), 1),
            _ => {}
        }
    }
}

#[test]
fn constant_serialization() {
    assert_eq!(Constant::Nil.serialize(), vec![0]);
    assert_eq!(Constant::Bool(true).serialize(), vec![1, 1]);
    assert_eq!(Constant::Int(-2).serialize(), vec![2, 0xfe, 0xff, 0xff, 0xff, 0xff, 0xff, 0xff, 0xff]);
    assert_eq!(Constant::String("hé".to_string()).serialize(), vec![4, 3, 0, 0, 0, b'h', 0xc3, 0xa9]);
}

// ---- values and the machine ----

#[test]
fn values() {
    assert!(!Value::Nil.is_truthy());
    assert!(!Value::Bool(false).is_truthy());
    assert!(Value::Int(0).is_truthy());
    assert_eq!(Value::Int(-12).to_display_string(), "-12");
    assert_eq!(Value::Bool(true).to_debug_string(), "Bool(true)");
    assert_eq!(Value::String("a\"b".to_string()).to_debug_string(), "String(\"a\\\"b\")");
    assert!(Value::from(Constant::Int(4)) == Value::Int(4));
    assert!(Value::String("x".to_string()) == Value::String("x".to_string()));
    assert!(Value::Int(1) != Value::Bool(true));
}

#[test]
fn vm_arithmetic_errors() {
    let k = |a: i64, b: i64, op: OpCode| {
        run_chunk(
            vec![
                Instruction::with_operand(OpCode::Constant, 0, 1),
                Instruction::with_operand(OpCode::Constant, 1, 1),
                Instruction::new(op, 1),
                Instruction::new(OpCode::ReturnValue, 1),
            ],
            vec![Constant::Int(a), Constant::Int(b)],
        )
    };
    assert_eq!(k(7, -2, OpCode::Divide).unwrap(), Value::Int(-3));
    assert_eq!(k(-7, 2, OpCode::Mod).unwrap(), Value::Int(-1));
    assert_eq!(k(1, 0, OpCode::Divide).unwrap_err(), "Division by zero");
    assert_eq!(k(1, 0, OpCode::Mod).unwrap_err(), "attempt to calculate the remainder with a divisor of zero");
    assert_eq!(k(i64::MAX, 1, OpCode::Add).unwrap_err(), "attempt to add with overflow");
    assert_eq!(k(i64::MIN, 1, OpCode::Subtract).unwrap_err(), "attempt to subtract with overflow");
    assert_eq!(k(i64::MAX, 2, OpCode::Multiply).unwrap_err(), "attempt to multiply with overflow");
    assert_eq!(k(i64::MIN, -1, OpCode::Divide).unwrap_err(), "attempt to divide with overflow");
    assert_eq!(k(i64::MIN, -1, OpCode::Mod).unwrap_err(), "attempt to calculate the remainder with overflow");
}

#[test]
fn vm_type_errors_and_jumps() {
    let r = run_chunk(
        vec![
            Instruction::with_operand(OpCode::Constant, 0, 1),
            Instruction::new(OpCode::True, 1),
            Instruction::new(OpCode::Add, 1),
        ],
        vec![Constant::Int(1)],
    );
    assert_eq!(r.unwrap_err(), "Cannot add Int(1) and Bool(true)");
    let r = run_chunk(vec![Instruction::new(OpCode::Nil, 1)], vec![]);
    assert_eq!(r.unwrap_err(), "Program counter超出范围");
    let r = run_chunk(
        vec![
            Instruction::new(OpCode::False, 1),
            Instruction::with_operand(OpCode::JumpIfFalse, 3, 1),
            Instruction::new(OpCode::Return, 1),
            Instruction::new(OpCode::ReturnValue, 1),
        ],
        vec![],
    );
    assert_eq!(r.unwrap(), Value::Bool(false));
}

#[test]
fn vm_globals_and_print() {
    let mut bc = BytecodeChunk::new("g");
    let k = bc.add_constant(Constant::String("hi".to_string()));
    bc.instructions = vec![
        Instruction::with_operand(OpCode::Constant, k, 1),
        Instruction::with_operand(OpCode::DefineGlobal, 3, 1),
        Instruction::with_operand(OpCode::GetGlobal, 3, 1),
        Instruction::new(OpCode::Print, 1),
        Instruction::new(OpCode::ReturnValue, 1),
    ];
    let mut vm = VM::new();
    let idx = vm.add_chunk(Chunk::from_bytecode_chunk(bc));
    assert_eq!(vm.interpret(idx).unwrap(), Value::String("hi".to_string()));
    assert_eq!(vm.take_output(), vec!["hi".to_string()]);
    assert!(vm.take_output().is_empty());
}

// ---- the whole pipeline ----

#[test]
fn pipeline_reports() {
    assert_eq!(report("let x = 10\nlet y = 20\nlet z = x + y"), vec![(true, "nil".to_string())]);
    assert_eq!(report("1 / 0"), vec![(false, "Runtime error: Division by zero".to_string())]);
    assert_eq!(report("let x = &"), vec![(false, "Lex error: Unexpected '&' at 1:10".to_string())]);
    assert_eq!(report(")"), vec![(false, "Parse error: Unexpected token CloseParen at line 1".to_string())]);
    assert_eq!(report("1 + true"), vec![(false, "Runtime error: Cannot add Int(1) and Bool(true)".to_string())]);
}

#[test]
fn text_after_quoting() {
    assert_eq!(bcp::token::token_text(TokenType::Let, &"\"let\"".to_string()), "Let(\"let\")");
    assert_eq!(bcp::value::string_debug_text(&"\"s\"".to_string()), "String(\"s\")");
    let t = bcp::ast::TypeAnnotation::simple("i32");
    assert_eq!(t.name, "i32");
    assert!(t.params.is_empty());
}

#[test]
fn vm_operand_kind_errors() {
    let two = |op: OpCode| {
        run_chunk(
            vec![
                Instruction::new(OpCode::True, 1),
                Instruction::new(OpCode::Nil, 1),
                Instruction::new(op, 1),
                Instruction::new(OpCode::ReturnValue, 1),
            ],
            vec![],
        )
    };
    assert_eq!(two(OpCode::Subtract).unwrap_err(), "Cannot subtract");
    assert_eq!(two(OpCode::Multiply).unwrap_err(), "Cannot multiply");
    assert_eq!(two(OpCode::Divide).unwrap_err(), "Cannot divide");
    assert_eq!(two(OpCode::Mod).unwrap_err(), "Cannot mod");
    assert_eq!(two(OpCode::Equal).unwrap(), Value::Bool(false));
    assert_eq!(two(OpCode::Less).unwrap(), Value::Bool(false));
    let neg = |k: Constant| {
        run_chunk(
            vec![
                Instruction::with_operand(OpCode::Constant, 0, 1),
                Instruction::new(OpCode::Negate, 1),
                Instruction::new(OpCode::ReturnValue, 1),
            ],
            vec![k],
        )
    };
    assert_eq!(neg(Constant::Int(5)).unwrap(), Value::Int(-5));
    assert_eq!(neg(Constant::Int(i64::MIN)).unwrap_err(), "attempt to negate with overflow");
    assert_eq!(neg(Constant::Bool(true)).unwrap_err(), "Cannot negate");
    let cat = run_chunk(
        vec![
            Instruction::with_operand(OpCode::Constant, 0, 1),
            Instruction::with_operand(OpCode::Constant, 1, 1),
            Instruction::new(OpCode::Add, 1),
            Instruction::new(OpCode::ReturnValue, 1),
        ],
        vec![Constant::String("ab".to_string()), Constant::String("cd".to_string())],
    );
    assert_eq!(cat.unwrap(), Value::String("abcd".to_string()));
}

#[test]
fn vm_jump_without_target() {
    let r = run_chunk(
        vec![Instruction::new(OpCode::Nil, 1), Instruction::new(OpCode::Jump, 1)],
        vec![],
    );
    assert_eq!(r.unwrap_err(), "Jump with no target");
    let r = run_chunk(
        vec![
            Instruction::with_operand(OpCode::Jump, 2, 1),
            Instruction::new(OpCode::Jump, 1),
            Instruction::new(OpCode::Return, 1),
        ],
        vec![],
    );
    assert_eq!(r.unwrap(), Value::Nil);
}

#[test]
fn annotation_names_read_back() {
    let checker = TypeChecker::new();
    for t in [Type::I32, Type::I64, Type::U32, Type::U64, Type::F32, Type::F64, Type::Bool, Type::String] {
        let back = checker.type_from_annotation(&bcp::ast::TypeAnnotation::simple(t.name()));
        assert_eq!(back.name(), t.name());
    }
    for n in ["void", "I32", "int", "Vec"] {
        let back = checker.type_from_annotation(&bcp::ast::TypeAnnotation::simple(n));
        assert!(matches!(back, Type::Unknown));
    }
    let mut with_param = bcp::ast::TypeAnnotation::simple("i64");
    with_param.params.push(bcp::ast::TypeAnnotation::simple("bool"));
    assert!(matches!(checker.type_from_annotation(&with_param), Type::I64));
}

#[test]
fn check_stmt_keeps_other_statements() {
    let mut checker = TypeChecker::new();
    let program = parse("let x = 1\nwhile x < 2 { let y = 3 }\nx + 1");
    for s in &program.stmts {
        assert!(checker.check_stmt(s).is_none());
    }
}

#[test]
fn lexing_joined_sources() {
    let s1 = "let a = 1\nb";
    let s2 = "c + \"d\"\n  e";
    let t1 = tokenize(s1).unwrap();
    let t2 = tokenize(s2).unwrap();
    let joined = tokenize(&format!("{}\n{}", s1, s2)).unwrap();
    let n = t1.last().unwrap().line;
    let mut expected: Vec<(TokenType, String, usize, usize)> =
        t1[..t1.len() - 1].iter().map(|t| (t.kind, t.value.clone(), t.line, t.col)).collect();
    expected.push((TokenType::Newline, "\n".to_string(), n, 0));
    expected.extend(t2.iter().map(|t| (t.kind, t.value.clone(), t.line + n, t.col)));
    let got: Vec<(TokenType, String, usize, usize)> =
        joined.iter().map(|t| (t.kind, t.value.clone(), t.line, t.col)).collect();
    assert_eq!(got, expected);
}

#[test]
fn generated_jumps_stay_inside() {
    let mut codegen = Codegen::new();
    let chunks = codegen
        .generate(&parse("let n = 3\nwhile n > 0 { n = n - 1 }\nif n == 0 { 1 } else { 2 }"))
        .unwrap();
    let c = &chunks[0];
    for ins in &c.instructions {
        if matches!(ins.opcode, OpCode::Jump | OpCode::JumpIfFalse | OpCode::JumpIfTrue | OpCode::Loop) {
            assert!(ins.operands[0] < c.instructions.len());
        }
    }
}
