//! The front end and evaluator of a small dynamically-typed scripting
//! language: a lexer that turns source text into tokens, a recursive-descent
//! parser that turns tokens into an abstract syntax tree, and a tree-walking
//! evaluator that executes the tree against a chained lexical-scope store.
//! Text is carried as character vectors, and numbers are 64-bit signed
//! integers with wrapping arithmetic.
pub mod environment;
pub mod error;
pub mod expr;
pub mod interpreter;
pub mod laws;
pub mod parser;
pub mod printer;
pub mod scanner;
pub mod stmt;
pub mod text;
pub mod token;

use vstd::prelude::*;

verus! {

use crate::error::{RuntimeErrorView, ScanError};
use crate::interpreter::{error_views, run_stmts, state_of, Interpreter, StateView};
use crate::parser::{parse_error_views, parse_program_items, ParseError, Parser};
use crate::scanner::{lemma_scan_from_ends_eof, scan_from, Scanner};
use crate::stmt::{stmts_view, Stmt};
use crate::token::{token_views, Token, TokenType, ValueView};

/// Whether an interpreter's final state, diagnostics and completion flag
/// are what running the given statements under the given fuel budget from
/// the empty global scope prescribes.
pub open spec fn run_outcome(i: Interpreter, completed: bool, stmts: Seq<Stmt>, fuel: nat) -> bool {
    let init = (StateView {
        env: seq![Seq::<(Seq<char>, Option<ValueView>)>::empty()],
        output: Seq::<Seq<char>>::empty(),
    });
    let (st2, ds, c) = run_stmts(init, stmts, fuel);
    &&& state_of(i) == st2
    &&& error_views(i.diagnostics@) == ds
    &&& completed == c
}

/// Whether parse diagnostics and an interpreter's end state are what
/// parsing the given token sequence and running the parsed statements under
/// the given fuel budget prescribe.
pub open spec fn pipeline_outcome(
    i: Interpreter,
    completed: bool,
    parse_errors: Seq<ParseError>,
    toks: Seq<Token>,
    stmts: Seq<Stmt>,
    fuel: nat,
) -> bool {
    &&& parse_error_views(parse_errors) == parse_program_items(toks, 0).2
    &&& stmts_view(stmts) == parse_program_items(toks, 0).1
    &&& run_outcome(i, completed, stmts, fuel)
}

/// One complete run of the pipeline: scan the source, parse the tokens, and
/// execute the statements that parsed, each top-level statement under the
/// given fuel budget. Hands back the interpreter — holding the printed
/// lines, the final scope chain and the run-time diagnostics — the scan and
/// parse diagnostics, and whether execution stayed within the budget. The
/// scan diagnostics are exactly what the scanning function prescribes; the
/// parse diagnostics and the statements executed are what the parsing
/// function prescribes for the scanned tokens; and the interpreter ends as
/// a run of those statements from the empty global scope prescribes.
pub fn run(source: Vec<char>, fuel: u64) -> (r: (
    Interpreter,
    Vec<ScanError>,
    Vec<ParseError>,
    bool,
))
    ensures
        r.1@ == scan_from(source@, 0, 1).1,
        exists|toks: Seq<Token>, stmts: Seq<Stmt>|
            token_views(toks) == scan_from(source@, 0, 1).0 && #[trigger] pipeline_outcome(
                r.0,
                r.3,
                r.2@,
                toks,
                stmts,
                fuel as nat,
            ),
{
    let ghost src = source@;
    let mut scanner = Scanner::new(source);
    let (tokens, scan_errors) = scanner.scan_tokens();
    let ghost toks0 = tokens@;
    proof {
        lemma_scan_from_ends_eof(src, 0, 1);
        assert(token_views(tokens@).last() == tokens@.last()@);
        assert(tokens@.last().token_type == TokenType::EoF);
    }
    let mut parser = Parser::new(tokens);
    let statements = parser.parse();
    let mut interpreter = Interpreter::new();
    proof {
        assert(state_of(interpreter) =~= (StateView {
            env: seq![Seq::<(Seq<char>, Option<ValueView>)>::empty()],
            output: Seq::<Seq<char>>::empty(),
        }));
        assert(error_views(interpreter.diagnostics@) =~= Seq::<RuntimeErrorView>::empty());
    }
    let completed = interpreter.interpret(&statements, fuel);
    proof {
        let init = (StateView {
            env: seq![Seq::<(Seq<char>, Option<ValueView>)>::empty()],
            output: Seq::<Seq<char>>::empty(),
        });
        let (st2, ds, c) = run_stmts(init, statements@, fuel as nat);
        assert(Seq::<RuntimeErrorView>::empty() + ds =~= ds);
        assert(state_of(interpreter) == st2);
        assert(error_views(interpreter.diagnostics@) == ds);
        assert(completed == c);
        assert(run_outcome(interpreter, completed, statements@, fuel as nat));
    }
    let parse_errors = parser.errors;
    let result = (interpreter, scan_errors, parse_errors, completed);
    proof {
        assert(parse_error_views(Seq::<ParseError>::empty()) =~= Seq::<
            crate::parser::ParseErrorView,
        >::empty());
        assert(Seq::<crate::parser::ParseErrorView>::empty() + parse_program_items(toks0, 0).2
            =~= parse_program_items(toks0, 0).2);
        assert(run_outcome(result.0, result.3, statements@, fuel as nat));
        assert(pipeline_outcome(result.0, result.3, result.2@, toks0, statements@, fuel as nat));
    }
    result
}

} // verus!
