use lang::compiler::{Compiler, CompileError, Expression, Instruction};
use lang::parser::to_expression;
use lang::data::DATA;
use lang::interpreter::Interpreter;
use lang::names::NameTable;
use lang::parser;
use lang::timer::Timer;
use lang::Lang;

fn var(name: &str) -> Expression {
    Expression::Variable(name.to_string())
}

fn num(n: i32) -> Expression {
    Expression::Number(n)
}

fn run_ast(program: Vec<Instruction>) -> Vec<String> {
    let ops = Compiler::compile(program).expect("lowering failed");
    let (out, res) = Interpreter::run(ops);
    assert!(res.is_ok(), "run failed: {:?}", res);
    out
}

#[test]
fn let_shadows_with_a_distinct_address() {
    let mut lang = Lang::new();
    lang.continues("let x = 1;let x = 2;print x;".to_string()).unwrap();
    assert_eq!(lang.interpreter.output, vec!["2".to_string()]);
    // Shadowing allocates a second cell; the first still holds 1.
    let ones = lang.interpreter.data.values().filter(|d| **d == DATA::Number(1)).count();
    assert_eq!(ones, 1);
}

#[test]
fn assign_mutates_the_same_address() {
    let mut lang = Lang::new();
    lang.continues("let x = 1;x = 2;print x;".to_string()).unwrap();
    assert_eq!(lang.interpreter.output, vec!["2".to_string()]);
    // Assignment overwrites in place; no cell holds 1 any more.
    let ones = lang.interpreter.data.values().filter(|d| **d == DATA::Number(1)).count();
    assert_eq!(ones, 0);
}

#[test]
fn while_if_and_halt_control_flow() {
    // Let i = 0; While i > -1 { Print i; Assign i = i + 1; If i == 3 { Halt } }
    let program = vec![
        Instruction::SET { name: "i".to_string(), value: num(0) },
        Instruction::WHILE {
            condition: Expression::GREATER(Box::new(var("i")), Box::new(num(-1))),
            instruction: vec![
                Instruction::PRINT { value: var("i") },
                Instruction::ASSIGN {
                    name: "i".to_string(),
                    value: Expression::Add(Box::new(var("i")), Box::new(num(1))),
                },
                Instruction::IF {
                    condition: Expression::EQ(Box::new(var("i")), Box::new(num(3))),
                    instruction: vec![Instruction::HALT],
                },
            ],
        },
    ];
    assert_eq!(run_ast(program), vec!["0".to_string(), "1".to_string(), "2".to_string()]);
}

#[test]
fn function_call_and_return() {
    // Function add(a,b){ Return a + b } Print add(2,3)
    let program = vec![
        Instruction::FUNCTION {
            name: "add".to_string(),
            args: vec!["a".to_string(), "b".to_string()],
            instruction: vec![Instruction::RETURN {
                value: Expression::Add(Box::new(var("a")), Box::new(var("b"))),
            }],
        },
        Instruction::PRINT {
            value: Expression::CALL("add".to_string(), vec![num(2), num(3)]),
        },
    ];
    assert_eq!(run_ast(program), vec!["5".to_string()]);
}

#[test]
fn hygiene_use_before_declaration_sees_the_outer_binding() {
    // An outer x, and a function that reads x before declaring its own:
    // the first read resolves to the outer binding, the later one to the
    // function's local copy.
    let program = vec![
        Instruction::SET { name: "x".to_string(), value: num(10) },
        Instruction::FUNCTION {
            name: "f".to_string(),
            args: vec![],
            instruction: vec![
                Instruction::PRINT { value: var("x") },
                Instruction::SET { name: "x".to_string(), value: num(5) },
                Instruction::PRINT { value: var("x") },
                Instruction::RETURN { value: num(0) },
            ],
        },
        Instruction::PRINT {
            value: Expression::CALL("f".to_string(), vec![]),
        },
    ];
    assert_eq!(
        run_ast(program),
        vec!["10".to_string(), "5".to_string(), "0".to_string()]
    );
}

#[test]
fn hygiene_locals_leave_the_outer_binding_alone() {
    let program = vec![
        Instruction::SET { name: "x".to_string(), value: num(10) },
        Instruction::FUNCTION {
            name: "f".to_string(),
            args: vec![],
            instruction: vec![
                Instruction::SET { name: "x".to_string(), value: num(5) },
                Instruction::RETURN { value: num(0) },
            ],
        },
        Instruction::PRINT { value: Expression::CALL("f".to_string(), vec![]) },
        Instruction::PRINT { value: var("x") },
    ];
    assert_eq!(run_ast(program), vec!["0".to_string(), "10".to_string()]);
}

#[test]
fn assigning_an_undefined_variable_is_fatal() {
    let program = vec![Instruction::ASSIGN {
        name: "undefined_var".to_string(),
        value: num(1),
    }];
    match Compiler::compile(program) {
        Err(CompileError::UndefinedVariable(n)) => assert_eq!(n, "undefined_var"),
        other => panic!("expected an undefined variable, got {:?}", other),
    }
}

#[test]
fn reading_an_undefined_variable_is_fatal() {
    let program = vec![Instruction::PRINT { value: var("ghost") }];
    match Compiler::compile(program) {
        Err(CompileError::UndefinedVariable(n)) => assert_eq!(n, "ghost"),
        other => panic!("expected an undefined variable, got {:?}", other),
    }
}

#[test]
fn calling_an_undefined_function_is_fatal() {
    let program = vec![Instruction::PRINT {
        value: Expression::CALL("nowhere".to_string(), vec![]),
    }];
    match Compiler::compile(program) {
        Err(CompileError::UndefinedFunction(n)) => assert_eq!(n, "nowhere"),
        other => panic!("expected an undefined function, got {:?}", other),
    }
}

#[test]
fn return_outside_a_function_is_fatal() {
    let program = vec![Instruction::RETURN { value: num(1) }];
    match Compiler::compile(program) {
        Err(CompileError::MisplacedReturn) => {}
        other => panic!("expected a misplaced return, got {:?}", other),
    }
}

#[test]
fn drop_forgets_the_binding() {
    let program = vec![
        Instruction::SET { name: "x".to_string(), value: num(1) },
        Instruction::DROP { name: "x".to_string() },
        Instruction::PRINT { value: var("x") },
    ];
    match Compiler::compile(program) {
        Err(CompileError::UndefinedVariable(n)) => assert_eq!(n, "x"),
        other => panic!("expected an undefined variable after drop, got {:?}", other),
    }
}

#[test]
fn repl_state_persists_across_submissions() {
    let mut lang = Lang::new();
    lang.continues("let x = 41;".to_string()).unwrap();
    lang.continues("x = +x,1;".to_string()).unwrap();
    lang.continues("print x;".to_string()).unwrap();
    assert_eq!(lang.interpreter.output, vec!["42".to_string()]);
}

#[test]
fn parse_errors_name_the_statement() {
    let mut lang = Lang::new();
    match lang.continues("explode;".to_string()) {
        Err(lang::LangError::Parse(parser::ParseError::UnknownStatement(s))) => {
            assert_eq!(s, "explode")
        }
        other => panic!("expected an unknown statement, got {:?}", other),
    }
}

#[test]
fn prefix_expressions_parse() {
    match to_expression("+1,2".to_string()) {
        Some(Expression::Add(a, b)) => {
            assert!(matches!(*a, Expression::Number(1)));
            assert!(matches!(*b, Expression::Number(2)));
        }
        other => panic!("expected an addition, got {:?}", other),
    }
    match to_expression("foo(1,x)".to_string()) {
        Some(Expression::CALL(name, args)) => {
            assert_eq!(name, "foo");
            assert_eq!(args.len(), 2);
            assert!(matches!(args[0], Expression::Number(1)));
            assert!(matches!(&args[1], Expression::Variable(v) if v == "x"));
        }
        other => panic!("expected a call, got {:?}", other),
    }
    assert!(matches!(
        to_expression("!true".to_string()),
        Some(Expression::NOT(_))
    ));
    assert!(matches!(
        to_expression("\"hi\"".to_string()),
        Some(Expression::Text(t)) if t == "hi"
    ));
    // A lone operator with one operand reads as nothing.
    assert!(to_expression("-5".to_string()).is_none());
}

#[test]
fn nested_while_parses_and_runs() {
    let mut lang = Lang::new();
    lang.continues("let i = 0;while >3,i {print i;i = +i,1;};".to_string()).unwrap();
    assert_eq!(
        lang.interpreter.output,
        vec!["0".to_string(), "1".to_string(), "2".to_string()]
    );
}

#[test]
fn smart_split_honours_quotes_and_parens() {
    let pieces = parser::smart_split("f(a,b),c".to_string(), ',');
    assert_eq!(pieces, vec!["fa,b".to_string(), "c".to_string()]);
    let pieces = parser::smart_split("\"a,b\",c".to_string(), ',');
    assert_eq!(pieces, vec!["a,b".to_string(), "c".to_string()]);
}

#[test]
fn smart_trim_keeps_quoted_spaces() {
    assert_eq!(
        parser::smart_trim("let s = \"a b\"; \n".to_string()),
        "lets=\"a b\";"
    );
}

#[test]
fn printing_text_values() {
    let mut lang = Lang::new();
    lang.continues("print \"hello world\";".to_string()).unwrap();
    assert_eq!(lang.interpreter.output, vec!["hello world".to_string()]);
}

#[test]
fn name_table_binds_shadows_and_removes() {
    let mut t: NameTable<i32> = NameTable::new();
    t.insert("a".to_string(), 1);
    t.insert("b".to_string(), 2);
    t.insert("a".to_string(), 3);
    assert_eq!(t.get(&"a".to_string()), Some(&3));
    assert_eq!(t.get(&"b".to_string()), Some(&2));
    assert!(t.contains(&"a".to_string()));
    t.remove(&"a".to_string());
    assert_eq!(t.get(&"a".to_string()), None);
    assert_eq!(t.get(&"b".to_string()), Some(&2));
}

#[test]
fn loop_runs_until_halt() {
    let program = vec![
        Instruction::SET { name: "i".to_string(), value: num(0) },
        Instruction::LOOP {
            instruction: vec![
                Instruction::PRINT { value: var("i") },
                Instruction::ASSIGN {
                    name: "i".to_string(),
                    value: Expression::Add(Box::new(var("i")), Box::new(num(1))),
                },
                Instruction::IF {
                    condition: Expression::EQ(Box::new(var("i")), Box::new(num(2))),
                    instruction: vec![Instruction::HALT],
                },
            ],
        },
    ];
    assert_eq!(run_ast(program), vec!["0".to_string(), "1".to_string()]);
}

#[test]
fn exit_lowers_to_a_return() {
    let ops = Compiler::compile(vec![Instruction::EXIT]).unwrap();
    assert_eq!(lang::easy::fancy_string(ops), "ret;\nhalt;");
}

#[test]
fn block_statements_share_the_enclosing_scope() {
    let program = vec![
        Instruction::BLOCK {
            instruction: vec![Instruction::SET { name: "x".to_string(), value: num(7) }],
        },
        Instruction::PRINT { value: var("x") },
    ];
    assert_eq!(run_ast(program), vec!["7".to_string()]);
}

#[test]
fn compiled_programs_end_with_halt() {
    // Without functions the closing halt is the last instruction; with
    // functions their collected bodies follow it, and one more halt closes
    // the program.
    let plain = Compiler::compile(vec![Instruction::SET {
        name: "x".to_string(),
        value: num(1),
    }])
    .unwrap();
    assert!(matches!(plain.last(), Some(lang::interpreter::Operation::HALT)));
    let with_function = Compiler::compile(vec![
        Instruction::FUNCTION {
            name: "f".to_string(),
            args: vec![],
            instruction: vec![Instruction::RETURN { value: num(0) }],
        },
        Instruction::PRINT { value: Expression::CALL("f".to_string(), vec![]) },
    ])
    .unwrap();
    assert!(matches!(with_function.last(), Some(lang::interpreter::Operation::HALT)));
    assert!(matches!(
        with_function[with_function.len() - 2],
        lang::interpreter::Operation::RET
    ));
}

#[test]
fn timer_measures_something() {
    let t = Timer::start();
    let d = t.stop();
    let _ = d.as_nanos();
}
