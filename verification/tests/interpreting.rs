use lox::error::RuntimeError;
use lox::interpreter::Interpreter;
use lox::parser::Parser;
use lox::scanner::Scanner;

fn run(source: &str, fuel: u64) -> (Vec<String>, Vec<RuntimeError>, bool) {
    let mut scanner = Scanner::new(source.chars().collect());
    let (tokens, scan_errors) = scanner.scan_tokens();
    assert!(scan_errors.is_empty(), "scan errors in {source:?}");
    let mut parser = Parser::new(tokens);
    let statements = parser.parse();
    assert!(parser.errors.is_empty(), "parse errors in {source:?}");
    let mut interpreter = Interpreter::new();
    let completed = interpreter.interpret(&statements, fuel);
    let lines = interpreter
        .output
        .iter()
        .map(|line| line.iter().collect::<String>())
        .collect();
    (lines, interpreter.diagnostics, completed)
}

fn output_of(source: &str) -> Vec<String> {
    let (lines, diagnostics, completed) = run(source, 1_000_000);
    assert!(diagnostics.is_empty(), "runtime errors in {source:?}: {diagnostics:?}");
    assert!(completed);
    lines
}

#[test]
fn pipeline_run_scans_parses_and_executes() {
    let (interpreter, scan_errors, parse_errors, completed) =
        lox::run("print 1 + 2 * 3;".chars().collect(), 1000);
    assert!(scan_errors.is_empty());
    assert!(parse_errors.is_empty());
    assert!(completed);
    assert!(interpreter.diagnostics.is_empty());
    let lines: Vec<String> = interpreter
        .output
        .iter()
        .map(|line| line.iter().collect::<String>())
        .collect();
    assert_eq!(lines, ["7"]);
}

#[test]
fn pipeline_run_reports_all_three_error_channels() {
    let (interpreter, scan_errors, parse_errors, completed) =
        lox::run("@ print ; print 1 / 0;".chars().collect(), 1000);
    assert_eq!(scan_errors.len(), 1);
    assert_eq!(parse_errors.len(), 1);
    assert_eq!(interpreter.diagnostics.len(), 1);
    assert!(completed);
}

#[test]
fn interpreter_state_persists_across_runs() {
    // the prompt feeds fragments to one interpreter; bindings must survive
    let mut interpreter = Interpreter::new();
    let parse = |source: &str| {
        let mut scanner = Scanner::new(source.chars().collect());
        let (tokens, _) = scanner.scan_tokens();
        let mut parser = Parser::new(tokens);
        parser.parse()
    };
    let first = parse("var a = 41;");
    assert!(interpreter.interpret(&first, 1000));
    let second = parse("print a + 1;");
    assert!(interpreter.interpret(&second, 1000));
    assert!(interpreter.diagnostics.is_empty());
    let lines: Vec<String> = interpreter
        .output
        .iter()
        .map(|line| line.iter().collect::<String>())
        .collect();
    assert_eq!(lines, ["42"]);
}

#[test]
fn precedence_binds_factor_tighter() {
    assert_eq!(output_of("print 1 + 2 * 3;"), ["7"]);
}

#[test]
fn grouping_overrides_precedence() {
    assert_eq!(output_of("print (1 + 2) * 3;"), ["9"]);
}

#[test]
fn string_plus_number_concatenates() {
    assert_eq!(output_of("print \"a\" + 1;"), ["a1"]);
}

#[test]
fn number_plus_string_concatenates() {
    assert_eq!(output_of("print 1 + \"a\";"), ["1a"]);
}

#[test]
fn string_plus_string_concatenates() {
    assert_eq!(output_of("print \"foo\" + \"bar\";"), ["foobar"]);
}

#[test]
fn division_by_zero_is_an_error() {
    let (lines, diagnostics, completed) = run("print 10 / 0;", 1000);
    assert!(lines.is_empty());
    assert_eq!(diagnostics, [RuntimeError::DivideByZero(1)]);
    assert!(completed);
}

#[test]
fn division_of_equal_numbers() {
    assert_eq!(output_of("print 10 / 2;"), ["5"]);
}

#[test]
fn and_short_circuits_before_error() {
    assert_eq!(output_of("print false and (1 / 0);"), ["false"]);
}

#[test]
fn or_short_circuits_before_error() {
    assert_eq!(output_of("print true or (1 / 0);"), ["true"]);
}

#[test]
fn and_yields_right_value_when_left_truthy() {
    assert_eq!(output_of("print true and false;"), ["false"]);
}

#[test]
fn logical_operators_keep_operand_values() {
    assert_eq!(output_of("print 1 and 2; print nil or \"x\";"), ["2", "x"]);
}

#[test]
fn uninitialized_variable_read_is_an_error() {
    let (lines, diagnostics, completed) = run("var a; print a;", 1000);
    assert!(lines.is_empty());
    assert_eq!(
        diagnostics,
        [RuntimeError::UninitializedVariable("a".chars().collect(), 1)]
    );
    assert!(completed);
}

#[test]
fn initialized_variable_prints() {
    assert_eq!(output_of("var a = 1; print a;"), ["1"]);
}

#[test]
fn undefined_variable_read_is_an_error() {
    let (lines, diagnostics, _) = run("print nowhere;", 1000);
    assert!(lines.is_empty());
    assert_eq!(
        diagnostics,
        [RuntimeError::UndefinedVariable("nowhere".chars().collect(), 1)]
    );
}

#[test]
fn assignment_to_undefined_variable_is_an_error() {
    let (_, diagnostics, _) = run("ghostly = 1;", 1000);
    assert_eq!(
        diagnostics,
        [RuntimeError::UndefinedVariable("ghostly".chars().collect(), 1)]
    );
}

#[test]
fn for_loop_desugars_and_counts() {
    assert_eq!(
        output_of("for (var i = 0; i < 3; i = i + 1) print i;"),
        ["0", "1", "2"]
    );
}

#[test]
fn assignment_is_an_expression() {
    assert_eq!(output_of("var a = 1; print a = 2; print a;"), ["2", "2"]);
}

#[test]
fn block_declaration_shadows_without_overwriting() {
    assert_eq!(
        output_of("var a = 1; { var a = 2; print a; } print a;"),
        ["2", "1"]
    );
}

#[test]
fn block_variable_is_not_visible_outside() {
    let (_, diagnostics, _) = run("{ var inner = 1; } print inner;", 1000);
    assert_eq!(
        diagnostics,
        [RuntimeError::UndefinedVariable("inner".chars().collect(), 1)]
    );
}

#[test]
fn assignment_inside_block_reaches_outer_scope() {
    assert_eq!(output_of("var a = 1; { a = 2; } print a;"), ["2"]);
}

#[test]
fn comma_evaluates_left_to_right_and_keeps_last() {
    assert_eq!(output_of("print 1, 2, 3;"), ["3"]);
}

#[test]
fn comma_discards_but_still_evaluates_left() {
    assert_eq!(output_of("var a = 0; print (a = 1, a + 1); print a;"), ["2", "1"]);
}

#[test]
fn ternary_takes_only_one_branch() {
    assert_eq!(output_of("print true ? 1 : (1 / 0);"), ["1"]);
    assert_eq!(output_of("print false ? 1 / 0 : 2;"), ["2"]);
}

#[test]
fn while_loop_runs_until_falsy() {
    assert_eq!(output_of("var i = 0; while (i < 2) i = i + 1; print i;"), ["2"]);
}

#[test]
fn while_loop_out_of_fuel_stops_run() {
    let (_, _, completed) = run("while (true) 1;", 10);
    assert!(!completed);
}

#[test]
fn runtime_error_skips_to_next_statement() {
    let (lines, diagnostics, completed) = run("print 1 / 0; print 2;", 1000);
    assert_eq!(lines, ["2"]);
    assert_eq!(diagnostics, [RuntimeError::DivideByZero(1)]);
    assert!(completed);
}

#[test]
fn truthiness_of_values() {
    assert_eq!(
        output_of("print !nil; print !false; print !0; print !\"\";"),
        ["true", "true", "false", "false"]
    );
}

#[test]
fn equality_never_coerces() {
    assert_eq!(
        output_of("print 1 == 1; print 1 == \"1\"; print nil == nil; print nil == false;"),
        ["true", "false", "true", "false"]
    );
}

#[test]
fn unary_minus_requires_number() {
    let (_, diagnostics, _) = run("print -\"a\";", 1000);
    assert_eq!(diagnostics, [RuntimeError::OperandNotNumber(1)]);
}

#[test]
fn comparison_requires_numbers() {
    let (_, diagnostics, _) = run("print \"a\" < 1;", 1000);
    assert_eq!(diagnostics, [RuntimeError::OperandsNotNumbers(1)]);
}

#[test]
fn plus_rejects_bool_operands() {
    let (_, diagnostics, _) = run("print true + 1;", 1000);
    assert_eq!(diagnostics, [RuntimeError::OperandsNotNumbersOrStrings(1)]);
}

#[test]
fn display_forms() {
    assert_eq!(
        output_of("print true; print false; print nil; print -3; print \"s\";"),
        ["true", "false", "null", "-3", "s"]
    );
}

#[test]
fn error_line_numbers_follow_source_lines() {
    let (_, diagnostics, _) = run("print 1;\nprint 1 / 0;", 1000);
    assert_eq!(diagnostics, [RuntimeError::DivideByZero(2)]);
}

#[test]
fn runtime_error_messages() {
    let err = RuntimeError::DivideByZero(3);
    assert_eq!(err.message().iter().collect::<String>(), "Division by zero\n[line 3]");
    let err = RuntimeError::UndefinedVariable("x".chars().collect(), 7);
    assert_eq!(
        err.message().iter().collect::<String>(),
        "Undefined variable x.\n[line 7]"
    );
    let err = RuntimeError::UninitializedVariable("y".chars().collect(), 2);
    assert_eq!(
        err.message().iter().collect::<String>(),
        "Variable y has not been initialized.\n[line 2]"
    );
    let err = RuntimeError::OperandNotNumber(4);
    assert_eq!(
        err.message().iter().collect::<String>(),
        "Operand must be a number.\n[line 4]"
    );
    let err = RuntimeError::OperandsNotNumbers(5);
    assert_eq!(
        err.message().iter().collect::<String>(),
        "Operands must be numbers.\n[line 5]"
    );
    let err = RuntimeError::OperandsNotNumbersOrStrings(6);
    assert_eq!(
        err.message().iter().collect::<String>(),
        "Operands must be two numbers or two strings.\n[line 6]"
    );
}

#[test]
fn wrapping_arithmetic_on_extremes() {
    assert_eq!(
        output_of("print 9223372036854775807 + 1;"),
        ["-9223372036854775808"]
    );
}

#[test]
fn nested_blocks_restore_scopes_after_error() {
    let (lines, diagnostics, completed) = run(
        "var a = 1; { var a = 2; print 1 / 0; } print a;",
        1000,
    );
    assert_eq!(lines, ["1"]);
    assert_eq!(diagnostics, [RuntimeError::DivideByZero(1)]);
    assert!(completed);
}
