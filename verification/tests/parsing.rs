use lox::parser::{ParseError, ParseErrorType, Parser};
use lox::printer::AstPrinter;
use lox::scanner::Scanner;
use lox::stmt::Stmt;

fn parse(source: &str) -> (Vec<Stmt>, Vec<ParseError>) {
    let mut scanner = Scanner::new(source.chars().collect());
    let (tokens, scan_errors) = scanner.scan_tokens();
    assert!(scan_errors.is_empty(), "scan errors in {source:?}");
    let mut parser = Parser::new(tokens);
    let statements = parser.parse();
    (statements, parser.errors)
}

fn canonical(source: &str) -> Vec<String> {
    let (statements, errors) = parse(source);
    assert!(errors.is_empty(), "parse errors in {source:?}: {errors:?}");
    let mut printer = AstPrinter::new();
    printer.interpret(&statements);
    printer
        .output
        .iter()
        .map(|line| line.iter().collect::<String>())
        .collect()
}

#[test]
fn precedence_shows_in_canonical_form() {
    assert_eq!(canonical("1 + 2 * 3;"), ["(+ 1 (* 2 3))"]);
}

#[test]
fn grouping_shows_in_canonical_form() {
    assert_eq!(canonical("(1 + 2) * 3;"), ["(* (group (+ 1 2)) 3)"]);
}

#[test]
fn canonical_form_survives_a_print_round_trip() {
    // the canonical form pins the structure: equal forms, equal trees
    let first = canonical("1 + 2 * 3; print \"s\" + \"t\";");
    let second = canonical("1 + 2 * 3; print \"s\" + \"t\";");
    assert_eq!(first, second);
    assert_ne!(canonical("1 + 2 * 3;"), canonical("(1 + 2) * 3;"));
}

#[test]
fn comparison_and_equality_are_left_associative() {
    assert_eq!(canonical("1 < 2 == 3 < 4;"), ["(== (< 1 2) (< 3 4))"]);
    assert_eq!(canonical("1 - 2 - 3;"), ["(- (- 1 2) 3)"]);
}

#[test]
fn unary_is_right_associative() {
    assert_eq!(canonical("!!true;"), ["(! (! true))"]);
    assert_eq!(canonical("--1;"), ["(- (- 1))"]);
}

#[test]
fn comma_and_ternary_forms() {
    assert_eq!(canonical("1, 2, 3;"), ["(, (, 1 2) 3)"]);
    assert_eq!(canonical("1 ? 2 : 3;"), ["(? 1 2 3)"]);
}

#[test]
fn ternary_is_right_associative() {
    assert_eq!(canonical("1 ? 2 : 3 ? 4 : 5;"), ["(? 1 2 (? 3 4 5))"]);
}

#[test]
fn logical_operators_nest_by_precedence() {
    assert_eq!(canonical("1 or 2 and 3;"), ["(or 1 (and 2 3))"]);
}

#[test]
fn statements_print_in_canonical_form() {
    assert_eq!(canonical("print 1;"), ["(print 1)"]);
    assert_eq!(canonical("var a;"), ["(declare a)"]);
    assert_eq!(canonical("var a = 1 + 2;"), ["(declare a (+ 1 2))"]);
    assert_eq!(canonical("{ print 1; print 2; }"), ["(block (print 1) (print 2))"]);
    assert_eq!(canonical("{}"), ["(block )"]);
    assert_eq!(
        canonical("if (true) print 1; else print 2;"),
        ["(if true then (print 1) else (print 2))"]
    );
    assert_eq!(canonical("if (true) print 1;"), ["(if true then (print 1))"]);
    assert_eq!(canonical("while (true) print 1;"), ["(while true (print 1))"]);
    assert_eq!(canonical("a = 1;"), ["(assign a 1)"]);
    assert_eq!(canonical("a;"), ["(var a)"]);
    assert_eq!(canonical("nil;"), ["nil"]);
    assert_eq!(canonical("\"x\" + 1;"), ["(+ x 1)"]);
    assert_eq!(canonical("-7;"), ["(- 7)"]);
}

#[test]
fn for_loop_desugars_to_while_in_a_block() {
    assert_eq!(
        canonical("for (var i = 0; i < 3; i = i + 1) print i;"),
        ["(block (declare i 0) (while (< (var i) 3) (block (print (var i)) (assign i (+ (var i) 1)))))"]
    );
}

#[test]
fn for_loop_without_clauses_defaults_to_true() {
    assert_eq!(canonical("for (;;) print 1;"), ["(while true (print 1))"]);
}

#[test]
fn malformed_statement_is_skipped_and_reported() {
    let (statements, errors) = parse("print ; print 2;");
    assert_eq!(statements.len(), 1);
    assert_eq!(errors.len(), 1);
    assert_eq!(errors[0].parse_error_type, ParseErrorType::ExpectExpression);
}

#[test]
fn invalid_assignment_target_is_reported_and_parsing_continues() {
    // the diagnostic is recorded, and the statement survives with the
    // already-parsed right-hand side as its expression
    let (statements, errors) = parse("print 1 = 2;");
    assert_eq!(statements.len(), 1);
    assert_eq!(errors.len(), 1);
    assert_eq!(errors[0].parse_error_type, ParseErrorType::InvalidAssignment);
    let printer = AstPrinter::new();
    let rendered: String = printer.visit_stmt(&statements[0]).iter().collect();
    assert_eq!(rendered, "(print 2)");
}

#[test]
fn invalid_assignment_target_names_the_equals_token() {
    let (statements, errors) = parse("1 = 2;");
    assert_eq!(statements.len(), 1);
    assert_eq!(errors.len(), 1);
    assert_eq!(errors[0].parse_error_type, ParseErrorType::InvalidAssignment);
    let msg: String = errors[0].message().iter().collect();
    assert_eq!(msg, "1 at '=' Invalid assignment target.");
}

#[test]
fn dangling_operator_reports_missing_left_operand() {
    let (_, errors) = parse("* 2;");
    assert_eq!(errors.len(), 1);
    assert_eq!(errors[0].parse_error_type, ParseErrorType::MissingLeftHandOperand);
}

#[test]
fn missing_semicolon_is_reported() {
    let (_, errors) = parse("print 1");
    assert_eq!(errors.len(), 1);
    assert_eq!(
        errors[0].parse_error_type,
        ParseErrorType::ExpectSemicolonAfterExpression
    );
}

#[test]
fn missing_right_paren_is_reported() {
    let (_, errors) = parse("(1 + 2;");
    assert_eq!(errors.len(), 1);
    assert_eq!(errors[0].parse_error_type, ParseErrorType::ExpectRightParen);
}

#[test]
fn recovery_keeps_later_statements() {
    let (statements, errors) = parse("var = 3; print 1; (); print 2;");
    assert_eq!(statements.len(), 2);
    assert_eq!(errors.len(), 2);
}

#[test]
fn parse_error_message_names_offending_token() {
    let (_, errors) = parse("(1;");
    assert_eq!(errors.len(), 1);
    let msg: String = errors[0].message().iter().collect();
    assert_eq!(msg, "1 at ';' Expect ')' after expression.");
}

#[test]
fn parse_error_message_at_end_of_input() {
    let (_, errors) = parse("print 1");
    let msg: String = errors[0].message().iter().collect();
    assert_eq!(msg, "1 at end Expect ';' after expression.");
}
