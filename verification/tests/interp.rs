//! End-to-end tests: parsing, resolution, and execution of small programs.

use tapevm::instrs::{Instr, Val};
use tapevm::parse::{resolve, root, AstLine, LabelError};
use tapevm::run::{Feed, RunError, State, Step};

fn chars(src: &str) -> Vec<char> {
    src.chars().collect()
}

/// Parses and resolves, expecting no diagnostics of any kind.
fn build(src: &str) -> State {
    let (ast, errs) = root(&chars(src));
    assert!(errs.is_empty(), "unexpected parse errors");
    let (program, table) = match resolve(ast) {
        Ok(x) => x,
        Err(_) => panic!("unexpected label errors"),
    };
    let st = State::new(program, table);
    assert!(st.wf_check());
    st
}

/// Pumps the machine to completion, collecting everything it prints.
/// Panics on aborts and on input requests.
fn run_to_halt(st: &mut State) -> String {
    let mut out = String::new();
    loop {
        match st.run(1_000_000) {
            Step::Halted => return out,
            Step::Printed(s) => out.push_str(&s),
            Step::Ran => panic!("program took too many steps"),
            Step::InputNeeded => panic!("program asked for input"),
            Step::Aborted(e) => panic!("program aborted: {:?}", e),
        }
    }
}

#[test]
fn scenario_arithmetic_and_output() {
    let mut st = build("set 65\nout\n");
    let out = run_to_halt(&mut st);
    assert_eq!(out, "(65: A)");
    assert_eq!(st.instr_ptr, 2);
}

#[test]
fn scenario_label_and_jump() {
    let (ast, errs) = root(&chars("jmp skip\nset 99\nskip:\nset 1\nout\n"));
    assert!(errs.is_empty());
    let (program, table) = resolve(ast).ok().unwrap();
    assert_eq!(program.len(), 4);
    assert_eq!(table.get(&"skip".to_string()), Some(2));
    let mut st = State::new(program, table);
    assert!(st.wf_check());
    let out = run_to_halt(&mut st);
    assert_eq!(out, "(1: \u{1})");
    assert_eq!(st.tape[0], 1);
}

#[test]
fn scenario_redefinition() {
    let (ast, errs) = root(&chars("a:\na:\nout\n"));
    assert!(errs.is_empty());
    let errs = match resolve(ast) {
        Ok(_) => panic!("redefinition must not produce a program"),
        Err(e) => e,
    };
    assert_eq!(errs.len(), 1);
    match &errs[0] {
        LabelError::Redefined { label, first, second } => {
            assert_eq!(label, "a");
            assert_eq!(first.clone(), 0..2);
            assert_eq!(second.clone(), 3..5);
        }
        _ => panic!("expected a Redefined error"),
    }
}

#[test]
fn scenario_unknown_label() {
    let (ast, errs) = root(&chars("jmp nowhere\n"));
    assert!(errs.is_empty());
    let errs = match resolve(ast) {
        Ok(_) => panic!("an unknown label must not produce a program"),
        Err(e) => e,
    };
    assert_eq!(errs.len(), 1);
    match &errs[0] {
        LabelError::Unknown(tok) => {
            assert_eq!(tok.inner, "nowhere");
            assert_eq!(tok.span.clone(), 4..11);
        }
        _ => panic!("expected an Unknown error"),
    }
}

#[test]
fn third_definition_yields_second_error_referencing_original() {
    let (ast, _) = root(&chars("a:\na:\na:\nout\n"));
    let errs = resolve(ast).err().unwrap();
    assert_eq!(errs.len(), 2);
    for (err, second_start) in errs.iter().zip([3usize, 6usize]) {
        match err {
            LabelError::Redefined { label, first, second } => {
                assert_eq!(label, "a");
                assert_eq!(first.clone(), 0..2, "first span must be the original");
                assert_eq!(second.clone(), second_start..second_start + 2);
            }
            _ => panic!("expected a Redefined error"),
        }
    }
}

#[test]
fn unknown_label_reported_even_if_never_executed() {
    let (ast, errs) = root(&chars("jmp end\njmp missing\nend:\nout\n"));
    assert!(errs.is_empty());
    let errs = resolve(ast).err().unwrap();
    assert_eq!(errs.len(), 1);
    assert!(matches!(&errs[0], LabelError::Unknown(t) if t.inner == "missing"));
}

#[test]
fn labels_resolve_forward_and_backward() {
    let (ast, _) = root(&chars("jmp end\nstart:\nset 1\nend:\nset 2\njnz x start\n"));
    let (program, table) = resolve(ast).ok().unwrap();
    assert_eq!(program.len(), 4);
    assert_eq!(table.get(&"start".to_string()), Some(1));
    assert_eq!(table.get(&"end".to_string()), Some(2));
    assert_eq!(table.get(&"absent".to_string()), None);
}

#[test]
fn gol_at_zero_does_not_underflow() {
    let mut st = build("gol\ngor\ngol\ngol\n");
    run_to_halt(&mut st);
    assert_eq!(st.cursor, 0);
}

#[test]
fn first_tape_access_reads_zero_and_extends() {
    let mut st = build("gor\ngor\nput x\n");
    run_to_halt(&mut st);
    assert_eq!(st.x, 0);
    assert_eq!(st.tape, vec![0, 0, 0]);
}

#[test]
fn div_by_zero_aborts() {
    let mut st = build("set 6\ndiv 0\n");
    match st.run(100) {
        Step::Aborted(RunError::DivByZero) => {}
        other => panic!("expected a division abort, got {:?}", other),
    }
}

#[test]
fn div_by_register_zero_aborts() {
    let mut st = build("set 6\ndiv x\n");
    assert!(matches!(st.run(100), Step::Aborted(RunError::DivByZero)));
}

#[test]
fn div_truncates_toward_zero() {
    let mut st = build("set 7\ndiv -2\n");
    run_to_halt(&mut st);
    assert_eq!(st.tape[0], -3);
}

#[test]
fn div_min_by_minus_one_wraps() {
    let mut st = build("set -9223372036854775807\nadd -1\ndiv -1\n");
    run_to_halt(&mut st);
    assert_eq!(st.tape[0], i64::MIN);
}

#[test]
fn add_wraps() {
    let mut st = build("set 9223372036854775807\nadd 1\n");
    run_to_halt(&mut st);
    assert_eq!(st.tape[0], i64::MIN);
}

#[test]
fn mul_and_register_operand() {
    let mut st = build("set 10\nput x\nset 4\nmul x\n");
    run_to_halt(&mut st);
    assert_eq!(st.tape[0], 40);
    assert_eq!(st.x, 10);
}

#[test]
fn dec_decrements_acc() {
    let mut st = build("dec\ndec\n");
    run_to_halt(&mut st);
    assert_eq!(st.acc, -2);
}

#[test]
fn jlz_jumps_on_negative() {
    let mut st = build("dec\njlz acc neg\nset 1\nneg:\nout\n");
    let out = run_to_halt(&mut st);
    assert_eq!(out, "(0: \u{0})");
    assert_eq!(st.tape[0], 0, "the skipped instruction must not run");
}

#[test]
fn jnz_falls_through_on_zero() {
    let mut st = build("jnz x skip\nset 5\nskip:\nout\n");
    let out = run_to_halt(&mut st);
    assert_eq!(out, "(5: \u{5})");
}

#[test]
fn ret_jumps_to_the_cell_value() {
    let mut st = build("set 3\nret\nset 9\nout\n");
    let out = run_to_halt(&mut st);
    assert_eq!(out, "(3: \u{3})");
}

#[test]
fn sav_stores_the_instruction_pointer() {
    let mut st = build("gor\nsav\nput x\n");
    run_to_halt(&mut st);
    assert_eq!(st.tape[1], 1, "sav runs at instruction index 1");
    assert_eq!(st.x, 1);
}

#[test]
fn ret_negative_aborts() {
    let mut st = build("set -1\nret\n");
    assert!(matches!(st.run(100), Step::Aborted(RunError::RetInvalid)));
}

#[test]
fn out_skips_invalid_scalar_values() {
    let mut st = build("set -1\nout\nset 55296\nout\n");
    let out = run_to_halt(&mut st);
    assert_eq!(out, "", "no output for values that are not scalar values");
}

#[test]
fn out_boundary_scalar_values() {
    let mut st = build("set 55295\nout\nset 57344\nout\nset 1114111\nout\n");
    let out = run_to_halt(&mut st);
    assert_eq!(out, "(55295: \u{d7ff})(57344: \u{e000})(1114111: \u{10ffff})");
}

#[test]
fn input_is_delivered_byte_by_byte() {
    let mut st = build("inp\nout\ninp\nout\n");
    assert!(matches!(st.run(100), Step::InputNeeded));
    assert_eq!(st.feed_line(b"Hi\n".to_vec()), Feed::Ready);
    let mut out = String::new();
    loop {
        match st.run(100) {
            Step::Halted => break,
            Step::Printed(s) => out.push_str(&s),
            Step::InputNeeded => panic!("input should suffice"),
            other => panic!("unexpected step {:?}", other),
        }
    }
    assert_eq!(out, "(72: H)(105: i)");
}

#[test]
fn refill_after_consumed_line_writes_newline_code() {
    let mut st = build("inp\ninp\ninp\nout\n");
    assert!(matches!(st.run(100), Step::InputNeeded));
    assert_eq!(st.feed_line(b"a\n".to_vec()), Feed::Ready);
    assert!(matches!(st.run(100), Step::InputNeeded));
    assert_eq!(st.feed_line(Vec::new()), Feed::Done);
    let out = run_to_halt(&mut st);
    assert_eq!(out, "(10: \n)");
}

#[test]
fn empty_line_when_nothing_pending_asks_again() {
    let mut st = build("inp\n");
    assert!(matches!(st.run(100), Step::InputNeeded));
    assert_eq!(st.feed_line(Vec::new()), Feed::Again);
    assert!(matches!(st.run(100), Step::InputNeeded));
    assert_eq!(st.feed_line(b"x\n".to_vec()), Feed::Ready);
    run_to_halt(&mut st);
    assert_eq!(st.tape[0], 'x' as i64);
}

#[test]
fn fuel_runs_out_on_a_quiet_loop() {
    let mut st = build("here:\njmp here\n");
    assert!(matches!(st.run(1000), Step::Ran));
}

#[test]
fn parse_recovery_skips_to_next_line() {
    let (ast, errs) = root(&chars("bogus line\nset 5\n"));
    assert_eq!(errs.len(), 1);
    assert_eq!(ast.len(), 2);
    assert!(matches!(ast[0], AstLine::Error));
    assert!(matches!(&ast[1], AstLine::Instr(Instr::Sto(Val::Num(5)))));
    let (program, _) = resolve(ast).ok().unwrap();
    assert_eq!(program.len(), 1);
}

#[test]
fn error_lines_do_not_occupy_an_instruction_index() {
    let (ast, errs) = root(&chars("?\nl:\nset 1\njmp l\n"));
    assert_eq!(errs.len(), 1);
    let (_, table) = resolve(ast).ok().unwrap();
    assert_eq!(table.get(&"l".to_string()), Some(0));
}

#[test]
fn keyword_like_identifier_is_a_label() {
    let (ast, errs) = root(&chars("jmpx:\nout\n"));
    assert!(errs.is_empty());
    assert!(matches!(&ast[0], AstLine::Label(t) if t.inner == "jmpx"));
}

#[test]
fn instruction_with_trailing_junk_is_an_error_line() {
    let (ast, errs) = root(&chars("out:\n"));
    assert_eq!(errs.len(), 1);
    assert!(matches!(ast[0], AstLine::Error));
}

#[test]
fn negative_number_operand() {
    let (ast, errs) = root(&chars("set -5\n"));
    assert!(errs.is_empty());
    assert!(matches!(&ast[0], AstLine::Instr(Instr::Sto(Val::Num(-5)))));
}

#[test]
fn leading_zeros_are_accepted() {
    let (ast, errs) = root(&chars("set 007\n"));
    assert!(errs.is_empty());
    assert!(matches!(&ast[0], AstLine::Instr(Instr::Sto(Val::Num(7)))));
}

#[test]
fn integer_overflow_is_a_custom_error() {
    let (ast, errs) = root(&chars("set 99999999999999999999\n"));
    assert_eq!(errs.len(), 1);
    assert!(matches!(ast[0], AstLine::Error));
    let msg = errs[0].message.as_ref().expect("overflow carries a message");
    assert!(msg.starts_with("failed to parse integer"));
}

#[test]
fn most_negative_literal_is_rejected() {
    // The magnitude is parsed before the sign is applied, so the most
    // negative 64-bit value cannot be written as a literal.
    let (ast, errs) = root(&chars("set -9223372036854775808\n"));
    assert_eq!(errs.len(), 1);
    assert!(matches!(ast[0], AstLine::Error));
}

#[test]
fn largest_literal_is_accepted() {
    let (ast, errs) = root(&chars("set 9223372036854775807\n"));
    assert!(errs.is_empty());
    assert!(matches!(
        &ast[0],
        AstLine::Instr(Instr::Sto(Val::Num(9223372036854775807)))
    ));
}

#[test]
fn empty_source_parses_to_nothing() {
    let (ast, errs) = root(&chars(""));
    assert!(ast.is_empty());
    assert!(errs.is_empty());
    let (program, _) = resolve(ast).ok().unwrap();
    assert!(program.is_empty());
}

#[test]
fn missing_final_newline_is_an_error() {
    let (ast, errs) = root(&chars("out"));
    assert_eq!(errs.len(), 1);
    assert!(matches!(ast[0], AstLine::Error));
}

#[test]
fn blank_leading_line_is_an_error_line() {
    let (ast, errs) = root(&chars("\nout\n"));
    assert_eq!(errs.len(), 1);
    assert_eq!(ast.len(), 2);
    assert!(matches!(ast[0], AstLine::Error));
    assert!(matches!(ast[1], AstLine::Instr(Instr::Out)));
}

#[test]
fn whitespace_after_newline_is_consumed() {
    let (ast, errs) = root(&chars("gol\n  gor\t\n\ngol\n"));
    assert!(errs.is_empty());
    assert_eq!(ast.len(), 3);
}

#[test]
fn register_operands() {
    let (ast, errs) = root(&chars("get x\nput acc\njnz acc top\ntop:\n"));
    assert!(errs.is_empty());
    assert!(matches!(ast[0], AstLine::Instr(Instr::Get(tapevm::instrs::Reg::X))));
    assert!(matches!(ast[1], AstLine::Instr(Instr::Put(tapevm::instrs::Reg::Acc))));
}

#[test]
fn jump_token_spans_cover_the_identifier() {
    let (ast, _) = root(&chars("jmp far\n")); // "far" at character offsets 4..7
    match &ast[0] {
        AstLine::Instr(Instr::Jmp(t)) => {
            assert_eq!(t.inner, "far");
            assert_eq!(t.span.clone(), 4..7);
        }
        _ => panic!("expected a jump"),
    }
}

#[test]
fn say_token_names_common_characters() {
    assert_eq!(tapevm::err::say_token(&'\n'), "newline");
    assert_eq!(tapevm::err::say_token(&' '), "space");
    assert_eq!(tapevm::err::say_token(&','), "comma");
    assert_eq!(tapevm::err::say_token(&'.'), "dot");
    assert_eq!(tapevm::err::say_token(&'\''), "single quote");
    assert_eq!(tapevm::err::say_token(&'"'), "double quote");
    assert_eq!(tapevm::err::say_token(&'`'), "backtick");
    assert_eq!(tapevm::err::say_token(&'z'), "'z'");
    assert_eq!(tapevm::err::say_token(&'\t'), "'\\t'");
}

#[test]
fn out_renders_multidigit_values_exactly() {
    let mut st = build("set 10000\nout\n");
    let out = run_to_halt(&mut st);
    assert_eq!(out, "(10000: \u{2710})");
}

#[test]
fn every_opcode_parses() {
    let src = "gol\ngor\nget x\nput acc\njmp l\njnz x l\njlz acc l\nsav\nret\ninp\nout\nset 1\nadd 2\nmul 3\ndiv 4\ndec\nl:\n";
    let (ast, errs) = root(&chars(src));
    assert!(errs.is_empty());
    assert_eq!(ast.len(), 17);
    let (program, _) = resolve(ast).ok().unwrap();
    assert_eq!(program.len(), 16);
}

#[test]
fn bad_register_is_an_error_line() {
    let (ast, errs) = root(&chars("get y\nout\n"));
    assert_eq!(errs.len(), 1);
    assert!(matches!(ast[0], AstLine::Error));
    assert!(matches!(ast[1], AstLine::Instr(Instr::Out)));
}

#[test]
fn jump_without_label_is_an_error_line() {
    let (ast, errs) = root(&chars("jnz x\n"));
    assert_eq!(errs.len(), 1);
    assert!(matches!(ast[0], AstLine::Error));
}

#[test]
fn error_spans_lie_within_the_source() {
    let src = "?\nset 99999999999999999999\nget\nout";
    let (_, errs) = root(&chars(src));
    assert_eq!(errs.len(), 4);
    let n = src.chars().count();
    for e in &errs {
        assert!(e.span.start <= e.span.end && e.span.end <= n);
    }
}

