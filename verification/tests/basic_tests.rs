use tiny_basic::basic::{
    evaluate_given, following, parse_code_line, parse_code_line_given, Flow, Interpreter,
    InterpreterError, Progress, Statement,
};

fn load(input: &str, program: &str) -> Interpreter {
    let mut interpreter = Interpreter::new(input);
    for line in program.lines() {
        interpreter.add(line).unwrap();
    }
    interpreter
}

fn run_to_end(input: &str, program: &str) -> (Result<Progress, InterpreterError>, String) {
    let mut interpreter = load(input, program);
    let result = interpreter.run(10_000);
    (result, interpreter.output())
}

#[test]
fn second_add_for_a_line_replaces_the_first() {
    let mut interpreter = Interpreter::new("");
    assert_eq!(interpreter.add("10 PRINT 1").unwrap(), 10);
    assert_eq!(interpreter.add("10 PRINT 2").unwrap(), 10);
    assert_eq!(interpreter.line_numbers(), vec![10]);
    assert!(matches!(interpreter.run(100), Ok(Progress::Halted)));
    assert_eq!(interpreter.output(), "2\n");
}

#[test]
fn goto_to_a_missing_line_fails_at_its_own_line() {
    let (result, output) = run_to_end("", "10 GOTO 99");
    match result {
        Err(InterpreterError::RuntimeError { line_number, message }) => {
            assert_eq!(line_number, 10);
            assert_eq!(message, "Invalid line number for GOTO: 99");
        }
        other => panic!("unexpected result: {:?}", other),
    }
    assert_eq!(output, "");
}

#[test]
fn print_writes_a_number_and_a_line_feed() {
    let (result, output) = run_to_end("", "10 PRINT 5");
    assert!(matches!(result, Ok(Progress::Halted)));
    assert_eq!(output, "5\n");
}

#[test]
fn read_stores_what_print_then_writes() {
    let (result, output) = run_to_end("7\n", "10 READ X\n20 PRINT X");
    assert!(matches!(result, Ok(Progress::Halted)));
    assert_eq!(output, "7\n");
}

#[test]
fn if_jumps_when_the_comparison_holds() {
    let (result, output) = run_to_end("", "10 IF 5 > 3 GOTO 30\n20 PRINT 1\n30 PRINT 2");
    assert!(matches!(result, Ok(Progress::Halted)));
    assert_eq!(output, "2\n");
}

#[test]
fn if_falls_through_when_the_comparison_fails() {
    let (result, output) = run_to_end("", "10 IF 3 > 5 GOTO 30\n20 PRINT 1\n30 PRINT 2");
    assert!(matches!(result, Ok(Progress::Halted)));
    assert_eq!(output, "1\n2\n");
}

#[test]
fn if_knows_less_than_and_equal() {
    let (_, output) = run_to_end("", "10 IF 3 < 5 GOTO 30\n20 PRINT 1\n30 PRINT 2");
    assert_eq!(output, "2\n");
    let (_, output) = run_to_end("", "10 IF 5 < 5 GOTO 30\n20 PRINT 1\n30 PRINT 2");
    assert_eq!(output, "1\n2\n");
    let (_, output) = run_to_end("", "10 IF 5 = 5 GOTO 30\n20 PRINT 1\n30 PRINT 2");
    assert_eq!(output, "2\n");
    let (_, output) = run_to_end("", "10 IF 4 = 5 GOTO 30\n20 PRINT 1\n30 PRINT 2");
    assert_eq!(output, "1\n2\n");
}

#[test]
fn eval_of_an_unset_variable_names_it() {
    let interpreter = Interpreter::new("");
    match interpreter.eval_value("X") {
        Err(InterpreterError::UnknownVariable { name }) => assert_eq!(name, "X"),
        other => panic!("unexpected result: {:?}", other),
    }
}

#[test]
fn eval_reads_numbers_and_variables() {
    let mut interpreter = load("42\n", "10 READ Abc");
    assert!(matches!(interpreter.run(10), Ok(Progress::Halted)));
    assert_eq!(interpreter.eval_value("Abc").unwrap(), 42);
    assert_eq!(interpreter.eval_value("0").unwrap(), 0);
    assert_eq!(interpreter.eval_value("65535").unwrap(), 65535);
    assert_eq!(interpreter.eval_value("+17").unwrap(), 17);
    assert_eq!(interpreter.eval_value("007").unwrap(), 7);
    assert_eq!(interpreter.eval_value(" 5 ").unwrap(), 5);
    for bad in ["65536", "-1", "abc", "1a", "+", "1 2"] {
        match interpreter.eval_value(bad) {
            Err(InterpreterError::NotANumber { value }) => assert_eq!(value, bad),
            other => panic!("unexpected result for {:?}: {:?}", bad, other),
        }
    }
}

#[test]
fn print_falls_back_to_the_text_of_its_token() {
    let (result, output) = run_to_end("", "10 PRINT abc");
    assert!(matches!(result, Ok(Progress::Halted)));
    assert_eq!(output, "abc\n");
}

#[test]
fn print_of_an_unset_variable_aborts_the_run() {
    let (result, output) = run_to_end("", "10 PRINT ABC\n20 PRINT 1");
    match result {
        Err(InterpreterError::RuntimeError { line_number, message }) => {
            assert_eq!(line_number, 10);
            assert_eq!(message, "Unknown variable: ABC");
        }
        other => panic!("unexpected result: {:?}", other),
    }
    assert_eq!(output, "");
}

#[test]
fn run_halts_after_the_highest_line() {
    let (result, output) = run_to_end("", "30 PRINT 3\n10 PRINT 1\n20 PRINT 2");
    assert!(matches!(result, Ok(Progress::Halted)));
    assert_eq!(output, "1\n2\n3\n");
    let (result, output) = run_to_end("", "");
    assert!(matches!(result, Ok(Progress::Halted)));
    assert_eq!(output, "");
}

#[test]
fn a_dangling_goto_that_is_never_reached_does_no_harm() {
    let (result, output) = run_to_end("", "10 GOTO 30\n20 GOTO 99\n30 PRINT 1");
    assert!(matches!(result, Ok(Progress::Halted)));
    assert_eq!(output, "1\n");
}

#[test]
fn line_numbers_come_in_ascending_order() {
    let interpreter = load("", "300 PRINT 1\n5 PRINT 2\n70 PRINT 3\n65535 PRINT 4\n0 PRINT 5");
    assert_eq!(interpreter.line_numbers(), vec![0, 5, 70, 300, 65535]);
}

#[test]
fn read_of_no_number_aborts_the_run() {
    let (result, _) = run_to_end("  seven \n", "10 READ X");
    match result {
        Err(InterpreterError::RuntimeError { line_number, message }) => {
            assert_eq!(line_number, 10);
            assert_eq!(message, "Not a number: seven");
        }
        other => panic!("unexpected result: {:?}", other),
    }
    let (result, _) = run_to_end("", "10 READ X");
    match result {
        Err(InterpreterError::RuntimeError { line_number, message }) => {
            assert_eq!(line_number, 10);
            assert_eq!(message, "Not a number: ");
        }
        other => panic!("unexpected result: {:?}", other),
    }
}

#[test]
fn read_takes_one_line_at_a_time_and_trims_it() {
    let (result, output) =
        run_to_end(" 1 \n\t2\r\n3", "10 READ A\n20 READ B\n30 READ C\n40 PRINT A\n50 PRINT B\n60 PRINT C");
    assert!(matches!(result, Ok(Progress::Halted)));
    assert_eq!(output, "1\n2\n3\n");
}

#[test]
fn a_later_read_overwrites_the_variable() {
    let (_, output) = run_to_end("1\n2\n", "10 READ X\n20 READ X\n30 PRINT X");
    assert_eq!(output, "2\n");
}

#[test]
fn a_loop_counts_down_the_input() {
    let program = "10 READ N\n20 PRINT N\n30 IF N > 0 GOTO 10\n40 PRINT done";
    let (result, output) = run_to_end("2\n1\n0\n", program);
    assert!(matches!(result, Ok(Progress::Halted)));
    assert_eq!(output, "2\n1\n0\ndone\n");
}

#[test]
fn if_with_a_failing_operand_wraps_the_failure() {
    let (result, _) = run_to_end("", "10 IF X > 1 GOTO 10");
    match result {
        Err(InterpreterError::RuntimeError { line_number, message }) => {
            assert_eq!(line_number, 10);
            assert_eq!(message, "UnknownVariable { name: \"X\" }");
        }
        other => panic!("unexpected result: {:?}", other),
    }
    let (result, _) = run_to_end("", "20 IF 1 > a\"b GOTO 20");
    match result {
        Err(InterpreterError::RuntimeError { line_number, message }) => {
            assert_eq!(line_number, 20);
            assert_eq!(message, "NotANumber { value: \"a\\\"b\" }");
        }
        other => panic!("unexpected result: {:?}", other),
    }
}

#[test]
fn if_to_a_missing_line_fails_only_when_taken() {
    let (result, _) = run_to_end("", "10 IF 1 = 1 GOTO 99");
    match result {
        Err(InterpreterError::RuntimeError { line_number, message }) => {
            assert_eq!(line_number, 10);
            assert_eq!(message, "Invalid line number for GOTO: 99");
        }
        other => panic!("unexpected result: {:?}", other),
    }
    let (result, _) = run_to_end("", "10 IF 1 = 2 GOTO 99");
    assert!(matches!(result, Ok(Progress::Halted)));
}

#[test]
fn an_endless_program_is_paused_when_its_steps_are_used_up() {
    let mut interpreter = load("", "10 PRINT 1\n20 GOTO 10");
    assert!(matches!(interpreter.run(5), Ok(Progress::Paused { line: 20 })));
    assert_eq!(interpreter.output(), "1\n1\n1\n");
    assert!(matches!(interpreter.run(0), Ok(Progress::Paused { line: 10 })));
}

#[test]
fn an_unknown_comparison_stops_the_run_in_front_of_it() {
    let mut interpreter = load("", "10 PRINT 1\n20 IF 1 ? 2 GOTO 10");
    assert!(interpreter.can_step(10));
    assert!(!interpreter.can_step(20));
    assert!(!interpreter.can_step(30));
    assert!(matches!(interpreter.run(100), Ok(Progress::Stuck { line: 20 })));
    assert_eq!(interpreter.output(), "1\n");
    let mut interpreter = load("", "10 IF X ? 2 GOTO 10");
    assert!(interpreter.can_step(10));
    assert!(matches!(
        interpreter.run(100),
        Err(InterpreterError::RuntimeError { line_number: 10, .. })
    ));
}

#[test]
fn variables_outlive_a_run() {
    let mut interpreter = load("5\n", "10 READ X");
    assert!(matches!(interpreter.run(10), Ok(Progress::Halted)));
    interpreter.add("10 PRINT X").unwrap();
    assert!(matches!(interpreter.run(10), Ok(Progress::Halted)));
    assert_eq!(interpreter.output(), "5\n");
}

#[test]
fn step_says_where_control_goes() {
    let mut interpreter = load("", "10 PRINT 1\n20 GOTO 10\n30 IF 1 < 2 GOTO 10");
    assert_eq!(interpreter.step(10).unwrap(), Flow::Advance);
    assert_eq!(interpreter.step(20).unwrap(), Flow::Jump { line: 10 });
    assert_eq!(interpreter.step(30).unwrap(), Flow::Jump { line: 10 });
    assert_eq!(interpreter.take_output(), "1\n");
    assert_eq!(interpreter.output(), "");
}

#[test]
fn feed_adds_input_and_reads_input_finds_read() {
    let mut interpreter = load("", "10 READ X\n20 PRINT X");
    assert!(interpreter.reads_input(10));
    assert!(!interpreter.reads_input(20));
    assert!(!interpreter.reads_input(30));
    interpreter.feed("12");
    interpreter.feed("3\n");
    assert!(matches!(interpreter.run(10), Ok(Progress::Halted)));
    assert_eq!(interpreter.output(), "123\n");
}

#[test]
fn parse_reads_each_shape() {
    assert!(matches!(
        parse_code_line("10 PRINT X"),
        Ok((10, Statement::Print { value })) if value == "X"
    ));
    assert!(matches!(
        parse_code_line("  20\tREAD   Name "),
        Ok((20, Statement::Read { var_name })) if var_name == "Name"
    ));
    assert!(matches!(
        parse_code_line("30 GOTO 10"),
        Ok((30, Statement::Goto { line_number: 10 }))
    ));
    assert!(matches!(
        parse_code_line("40 IF  X  >  10   GOTO 20"),
        Ok((40, Statement::If { condition, line_number: 20 })) if condition == "X > 10"
    ));
    assert!(matches!(
        parse_code_line("65535 PRINT 1"),
        Ok((65535, Statement::Print { .. }))
    ));
}

#[test]
fn parse_rejects_malformed_lines() {
    let bad = [
        "",
        "   ",
        "10",
        "PRINT 5",
        "x PRINT 5",
        "65536 PRINT 5",
        "-1 PRINT 5",
        "10 PRINT",
        "10 PRINT 1 2",
        "10 print 1",
        "10 READ",
        "10 READ x",
        "10 READ 5",
        "10 READ X Y",
        "10 GOTO",
        "10 GOTO x",
        "10 GOTO 70000",
        "10 GOTO 1 2",
        "10 IF",
        "10 IF 1",
        "10 IF 1 > 2",
        "10 IF 1 > 2 GOTO",
        "10 IF 1 > 2 THEN 5",
        "10 IF 1 > 2 GOTO x",
        "10 IF 1 > 2 GOTO 5 6",
        "10 LET X 5",
    ];
    for line in bad {
        match parse_code_line(line) {
            Err(InterpreterError::SyntaxError { code }) => assert_eq!(code, line),
            other => panic!("unexpected result for {:?}: {:?}", line, other),
        }
    }
}

#[test]
fn add_reports_a_syntax_error_and_keeps_the_program() {
    let mut interpreter = load("", "10 PRINT 1");
    match interpreter.add("20 JUMP 10") {
        Err(InterpreterError::SyntaxError { code }) => assert_eq!(code, "20 JUMP 10"),
        other => panic!("unexpected result: {:?}", other),
    }
    assert_eq!(interpreter.line_numbers(), vec![10]);
}

#[test]
fn read_accepts_names_that_start_with_any_uppercase_letter() {
    assert!(parse_code_line("10 READ Ärger").is_ok());
    assert!(parse_code_line("10 READ ärger").is_err());
    assert!(parse_code_line("10 READ _X").is_err());
}

#[test]
fn io_errors_become_interpreter_errors() {
    let source = std::io::Error::new(std::io::ErrorKind::Other, "broken pipe");
    assert!(matches!(InterpreterError::from(source), InterpreterError::IoError(_)));
}

#[test]
fn a_paused_run_is_taken_up_where_it_stopped() {
    let program = "10 PRINT 1\n20 PRINT 2\n30 PRINT 3";
    let mut whole = load("", program);
    assert!(matches!(whole.run(3), Ok(Progress::Halted)));
    let mut parts = load("", program);
    assert!(matches!(parts.run(1), Ok(Progress::Paused { line: 20 })));
    assert_eq!(parts.output(), "1\n");
    assert!(matches!(parts.resume(20, 2), Ok(Progress::Halted)));
    assert_eq!(parts.output(), whole.output());
    assert_eq!(whole.output(), "1\n2\n3\n");
}

#[test]
fn following_finds_the_next_higher_number() {
    let numbers = vec![10, 20, 30];
    assert_eq!(following(&numbers, 0), Some(10));
    assert_eq!(following(&numbers, 10), Some(20));
    assert_eq!(following(&numbers, 15), Some(20));
    assert_eq!(following(&numbers, 20), Some(30));
    assert_eq!(following(&numbers, 30), None);
    assert_eq!(following(&Vec::new(), 5), None);
}

#[test]
fn print_writes_what_read_has_read() {
    for text in ["0", "65535", "+12", "0042"] {
        let input = format!("{}\n", text);
        let (result, output) = run_to_end(&input, "10 READ Value\n20 PRINT Value");
        assert!(matches!(result, Ok(Progress::Halted)));
        assert_eq!(output, format!("{}\n", text.parse::<u16>().unwrap()));
    }
}

#[test]
fn eval_of_the_empty_token_is_no_number() {
    let interpreter = Interpreter::new("");
    match interpreter.eval_value("") {
        Err(InterpreterError::NotANumber { value }) => assert_eq!(value, ""),
        other => panic!("unexpected result: {:?}", other),
    }
    match interpreter.eval_value("  ") {
        Err(InterpreterError::NotANumber { value }) => assert_eq!(value, "  "),
        other => panic!("unexpected result: {:?}", other),
    }
}

#[test]
fn evaluate_given_goes_by_the_answer_it_is_given() {
    let variables = vec![("X".to_string(), 1), ("7".to_string(), 2), ("X".to_string(), 3)];
    assert_eq!(evaluate_given(&variables, "X", true).unwrap(), 3);
    assert_eq!(evaluate_given(&variables, "7", true).unwrap(), 2);
    assert_eq!(evaluate_given(&variables, "7", false).unwrap(), 7);
    assert_eq!(evaluate_given(&variables, " 12 ", false).unwrap(), 12);
    assert!(matches!(
        evaluate_given(&variables, "X", false),
        Err(InterpreterError::NotANumber { value }) if value == "X"
    ));
    assert!(matches!(
        evaluate_given(&variables, "Y", true),
        Err(InterpreterError::UnknownVariable { name }) if name == "Y"
    ));
    assert!(matches!(
        evaluate_given(&variables, "", false),
        Err(InterpreterError::NotANumber { value }) if value.is_empty()
    ));
    assert!(matches!(
        evaluate_given(&variables, "", true),
        Err(InterpreterError::UnknownVariable { name }) if name.is_empty()
    ));
}

#[test]
fn parse_given_goes_by_the_answer_it_is_given() {
    assert!(matches!(
        parse_code_line_given("10 READ x", true),
        Ok((10, Statement::Read { var_name })) if var_name == "x"
    ));
    assert!(matches!(
        parse_code_line_given("10 READ X", false),
        Err(InterpreterError::SyntaxError { code }) if code == "10 READ X"
    ));
    assert!(matches!(
        parse_code_line_given("10 READ X Y", true),
        Err(InterpreterError::SyntaxError { .. })
    ));
    for named in [true, false] {
        assert!(matches!(
            parse_code_line_given("10 PRINT x", named),
            Ok((10, Statement::Print { value })) if value == "x"
        ));
        assert!(matches!(
            parse_code_line_given("20 GOTO 10", named),
            Ok((20, Statement::Goto { line_number: 10 }))
        ));
        assert!(matches!(
            parse_code_line_given("30 IF a < B GOTO 5", named),
            Ok((30, Statement::If { condition, line_number: 5 })) if condition == "a < B"
        ));
        assert!(matches!(
            parse_code_line_given("READ X", named),
            Err(InterpreterError::SyntaxError { .. })
        ));
    }
}
