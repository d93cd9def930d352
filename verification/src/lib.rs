pub mod ast;
pub mod interp;
pub mod lexer;
pub mod parser;
pub mod token;

pub use ast::AstNode;
pub use ast::AstV;
pub use interp::EvalStep;
pub use interp::EvalStepV;
pub use interp::Interpreter;
pub use lexer::LexError;
pub use lexer::LexErrorV;
pub use lexer::Lexer;
pub use parser::Parser;
pub use parser::SyntaxError;
pub use parser::SyntaxErrorV;
pub use token::Token;
pub use token::TokenV;

use vstd::prelude::*;

verus! {

/// A fault in one input line: the scanner's or the parser's.
#[derive(Debug, PartialEq)]
pub enum CalcError {
    Lex(LexError),
    Syntax(SyntaxError),
}

pub enum CalcErrorV {
    Lex(LexErrorV),
    Syntax(SyntaxErrorV),
}

impl View for CalcError {
    type V = CalcErrorV;

    open spec fn view(&self) -> CalcErrorV {
        match self {
            CalcError::Lex(e) => CalcErrorV::Lex(e@),
            CalcError::Syntax(e) => CalcErrorV::Syntax(e@),
        }
    }
}

/// What one input line denotes: the evaluation schedule of the
/// expression it spells, or the first fault met.
pub open spec fn spec_process(s: Seq<char>) -> Result<Seq<EvalStepV>, CalcErrorV> {
    match crate::lexer::lex_from(s, 0) {
        Ok(ts) => match crate::parser::spec_parse(ts) {
            Ok((tree, _)) => Ok(crate::interp::postorder(tree)),
            Err(e) => Err(CalcErrorV::Syntax(e)),
        },
        Err(e) => Err(CalcErrorV::Lex(e)),
    }
}

/// The per-line request/response entry: scan the line, parse the
/// tokens, and lay out the evaluation schedule. Every step of the
/// schedule is actable: an operand denoting a decimal number, or one
/// of the four operators.
pub fn process_line(input: String) -> (r: Result<Vec<EvalStep>, CalcError>)
    ensures
        match r {
            Ok(steps) => spec_process(input@) == Ok::<Seq<EvalStepV>, CalcErrorV>(
                crate::interp::step_views(steps@),
            ) && crate::interp::steps_wf(crate::interp::step_views(steps@))
                && crate::interp::depth_after(crate::interp::step_views(steps@), 0) == Some(
                1int,
            ),
            Err(e) => spec_process(input@) == Err::<Seq<EvalStepV>, CalcErrorV>(e@),
        },
{
    let mut lexer = Lexer::new(input);
    let tokens = match lexer.get_tokens() {
        Ok(ts) => ts,
        Err(e) => {
            return Err(CalcError::Lex(e));
        },
    };
    proof {
        assert(crate::token::token_views(tokens@).len() == tokens@.len());
    }
    let mut parser = Parser::new(tokens);
    let tree = match parser.parse() {
        Ok(t) => t,
        Err(e) => {
            return Err(CalcError::Syntax(e));
        },
    };
    let mut interpreter = Interpreter::new();
    Ok(interpreter.interpret(&tree))
}

} // verus!
