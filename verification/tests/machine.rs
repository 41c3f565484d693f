use lang::data::DATA;
use lang::easy;
use lang::interpreter::{Interpreter, Operation, RunError};

fn run_text(src: &str) -> (Vec<String>, Result<(), easy::EasyError>) {
    easy::run(src.to_string())
}

#[test]
fn label_resolution_two_adjacent_labels() {
    // Two labels back to back, a conditional jump forward and a jump back to
    // the first label: positions must be counted over the stripped program,
    // or the back edge lands one instruction off.
    let (out, res) = run_text(
        "set 100 0; point 1; point 2; add &100 1 100; print &100; eq &100 2 101; jump_if 3 &101; jump 1; point 3; halt;",
    );
    assert!(res.is_ok());
    assert_eq!(out, vec!["1".to_string(), "2".to_string()]);
}

#[test]
fn label_resolution_forward_jump() {
    let (out, res) = run_text("jump 9; print \"skipped\"; point 9; print \"after\"; halt;");
    assert!(res.is_ok());
    assert_eq!(out, vec!["after".to_string()]);
}

#[test]
fn indirection_chase_three_hops() {
    let mut it = Interpreter::new();
    it.data.insert(5, DATA::Number(42));
    it.data.insert(4, DATA::POINTER(5));
    it.data.insert(3, DATA::POINTER(4));
    let got = DATA::POINTER(3).get(&it);
    assert_eq!(got, Ok(DATA::Number(42)));
}

#[test]
fn indirection_chase_one_hop() {
    let mut it = Interpreter::new();
    it.data.insert(7, DATA::Bool(true));
    assert_eq!(DATA::POINTER(7).get(&it), Ok(DATA::Bool(true)));
}

#[test]
fn indirection_dangling_is_fatal() {
    let it = Interpreter::new();
    assert_eq!(DATA::POINTER(999).get(&it), Err(RunError::NullPointer(999)));
}

#[test]
fn indirection_cycle_is_fatal() {
    let mut it = Interpreter::new();
    it.data.insert(1, DATA::POINTER(2));
    it.data.insert(2, DATA::POINTER(1));
    match DATA::POINTER(1).get(&it) {
        Err(RunError::PointerCycle(_)) => {}
        other => panic!("expected a cycle error, got {:?}", other),
    }
}

#[test]
fn print_dangling_address_is_fatal_with_no_partial_output() {
    let (out, res) = run_text("print 1; print &999; print 2;");
    assert_eq!(out, vec!["1".to_string()]);
    match res {
        Err(easy::EasyError::Run(RunError::NullPointer(999))) => {}
        other => panic!("expected a dangling reference, got {:?}", other),
    }
}

#[test]
fn arithmetic_and_comparisons() {
    let (out, res) = run_text(
        "set 10 6; set 11 3; add &10 &11 12; sub &10 &11 13; mul &10 &11 14; div &10 &11 15; eq &10 &11 16; not &16 17; print &12; print &13; print &14; print &15; print &16; print &17; halt;",
    );
    assert!(res.is_ok());
    assert_eq!(out, vec!["9", "3", "18", "2", "false", "true"]);
}

#[test]
fn division_by_zero_is_fatal() {
    let (_, res) = run_text("set 0 1; set 1 0; div &0 &1 2;");
    match res {
        Err(easy::EasyError::Run(RunError::DivisionByZero)) => {}
        other => panic!("expected division by zero, got {:?}", other),
    }
}

#[test]
fn addition_wraps() {
    let (out, res) = run_text("set 0 2147483647; add &0 1 1; print &1; halt;");
    assert!(res.is_ok());
    assert_eq!(out, vec!["-2147483648".to_string()]);
}

#[test]
fn truncating_division_toward_zero() {
    let (out, res) = run_text("set 0 -7; set 1 2; div &0 &1 2; print &2; halt;");
    assert!(res.is_ok());
    assert_eq!(out, vec!["-3".to_string()]);
}

#[test]
fn return_on_empty_stack_is_fatal() {
    let (_, res) = run_text("ret; halt;");
    match res {
        Err(easy::EasyError::Run(RunError::StackUnderflow)) => {}
        other => panic!("expected a stack underflow, got {:?}", other),
    }
}

#[test]
fn call_and_ret_share_the_stack() {
    let (out, res) = run_text(
        "jump 1; point 2; print \"inside\"; ret; point 1; call 2; print \"back\"; halt;",
    );
    assert!(res.is_ok());
    assert_eq!(out, vec!["inside".to_string(), "back".to_string()]);
}

#[test]
fn drop_frees_the_address() {
    let ops = vec![
        easy::set("1".to_string(), "5".to_string()).unwrap(),
        Operation::DROP { name: DATA::Number(5) },
        easy::print("&5".to_string()).unwrap(),
    ];
    let (out, res) = Interpreter::run(ops);
    assert!(out.is_empty());
    assert_eq!(res, Err(RunError::NullPointer(5)));
}

#[test]
fn unknown_label_is_fatal() {
    let (_, res) = run_text("jump 9;");
    match res {
        Err(easy::EasyError::Run(RunError::UnknownLabel(9))) => {}
        other => panic!("expected an unknown label, got {:?}", other),
    }
}

#[test]
fn running_past_the_end_halts() {
    let (out, res) = run_text("set 0 1; print &0");
    assert!(res.is_ok());
    assert_eq!(out, vec!["1".to_string()]);
}

#[test]
fn comments_and_blanks_are_no_ops() {
    let (out, res) = run_text("// a note; print 3;\nprint 4; halt;");
    assert!(res.is_ok());
    assert_eq!(out, vec!["3".to_string(), "4".to_string()]);
}

#[test]
fn unknown_opcode_is_rejected() {
    let (out, res) = run_text("frobnicate 1 2;");
    assert!(out.is_empty());
    match res {
        Err(easy::EasyError::Parse(t)) => assert_eq!(t, "frobnicate"),
        other => panic!("expected a parse error, got {:?}", other),
    }
}

#[test]
fn bad_literal_is_rejected() {
    let (_, res) = run_text("set 1 wild;");
    match res {
        Err(easy::EasyError::Parse(t)) => assert_eq!(t, "wild"),
        other => panic!("expected a parse error, got {:?}", other),
    }
}

#[test]
fn fancy_string_renders_one_line_per_instruction() {
    let ops = vec![
        easy::set("7".to_string(), "5".to_string()).unwrap(),
        easy::jump_if("3".to_string(), "&0".to_string()).unwrap(),
        easy::add("&1".to_string(), "2".to_string(), "4".to_string()).unwrap(),
        easy::ret(),
        easy::halt(),
    ];
    assert_eq!(easy::fancy_string(ops), "set 5 7;\njump_if 3 &0;\nadd &1 2 4;\nret;\nhalt;");
}

#[test]
fn textual_form_round_trips() {
    // Reading rendered text back yields the same instructions, plus one
    // no-op for the blank piece after the final `;`.
    let text = "set 5 7;\njump_if 3 &0;\nadd &1 2 4;\nprint \"hi\";\nret;\nhalt;";
    let ops = easy::from_string(text.to_string()).unwrap();
    assert_eq!(easy::fancy_string(ops), format!("{}\nNOP;", text));
}

#[test]
fn value_literals_read_back() {
    assert_eq!(DATA::from_string("&12".to_string()), Ok(DATA::POINTER(12)));
    assert_eq!(DATA::from_string("-8".to_string()), Ok(DATA::Number(-8)));
    assert_eq!(DATA::from_string("true".to_string()), Ok(DATA::Bool(true)));
    assert_eq!(DATA::from_string("false".to_string()), Ok(DATA::Bool(false)));
    assert_eq!(
        DATA::from_string("\"hi there\"".to_string()),
        Ok(DATA::Text("hi there".to_string()))
    );
    assert!(DATA::from_string("wild".to_string()).is_err());
    assert!(DATA::from_string("&x".to_string()).is_err());
    assert!(DATA::from_string("2147483648".to_string()).is_err());
    assert_eq!(
        DATA::from_string("-2147483648".to_string()),
        Ok(DATA::Number(i32::MIN))
    );
}

#[test]
fn display_forms() {
    assert_eq!(DATA::Number(-5).to_string(), "-5");
    assert_eq!(DATA::Number(0).to_string(), "0");
    assert_eq!(DATA::Bool(true).to_string(), "true");
    assert_eq!(DATA::POINTER(7).to_string(), "7");
    assert_eq!(DATA::Text("x y".to_string()).to_string(), "x y");
    assert_eq!(DATA::Number(i32::MIN).to_string(), "-2147483648");
    assert_eq!(DATA::Number(i32::MAX).to_string(), "2147483647");
    assert_eq!(DATA::Number(-5).fancy_string(), "-5");
    assert_eq!(DATA::Bool(false).fancy_string(), "false");
    assert_eq!(DATA::POINTER(7).fancy_string(), "&7");
    assert_eq!(DATA::Text("x".to_string()).fancy_string(), "\"x\"");
}

#[test]
fn stored_values_resolve_before_writing() {
    // A store instruction resolves its value through the store first, so the
    // written cell holds the value, not the reference.
    let (out, res) = run_text("set 1 9; set 2 &1; set 1 0; print &2; halt;");
    assert!(res.is_ok());
    assert_eq!(out, vec!["9".to_string()]);
}

#[test]
fn tick_steps_one_instruction() {
    let mut it = Interpreter::new();
    it.programms = vec![Operation::HALT];
    it.call_stack.push(0);
    assert_eq!(it.tick(), Ok(false));
}
