use wordcalc::CalcError;
use wordcalc::EvalStep;
use wordcalc::Interpreter;
use wordcalc::LexError;
use wordcalc::Lexer;
use wordcalc::Parser;
use wordcalc::SyntaxError;
use wordcalc::Token;
use wordcalc::process_line;

fn lex(input: &str) -> Result<Vec<Token>, LexError> {
    let mut lexer = Lexer::new(input.to_string());
    lexer.get_tokens()
}

fn eval_steps(steps: Vec<EvalStep>) -> f64 {
    let mut stack: Vec<f64> = Vec::new();
    for step in steps {
        match step {
            EvalStep::Operand(text) => stack.push(text.parse::<f64>().unwrap()),
            EvalStep::Apply(op) => {
                let right = stack.pop().unwrap();
                let left = stack.pop().unwrap();
                let value = match op {
                    Token::Plus => left + right,
                    Token::Minus => left - right,
                    Token::Mul => left * right,
                    Token::Div => left / right,
                    other => panic!("operator expected, found {:?}", other),
                };
                stack.push(value);
            }
        }
    }
    assert_eq!(stack.len(), 1);
    stack.pop().unwrap()
}

fn eval_line(input: &str) -> f64 {
    eval_steps(process_line(input.to_string()).unwrap())
}

#[test]
fn lexes_single_number_literal() {
    assert_eq!(
        lex("123.45").unwrap(),
        vec![Token::Number("123.45".to_string()), Token::EOF]
    );
}

#[test]
fn number_literal_keeps_its_decimal_value() {
    assert_eq!(eval_line("123.45"), 123.45);
}

#[test]
fn lexes_number_then_following_token() {
    assert_eq!(
        lex("12(").unwrap(),
        vec![
            Token::Number("12".to_string()),
            Token::LParen,
            Token::EOF
        ]
    );
}

#[test]
fn lexes_keyword_plus() {
    assert_eq!(lex("plus").unwrap(), vec![Token::Plus, Token::EOF]);
}

#[test]
fn lexes_keyword_minus() {
    assert_eq!(lex("minus").unwrap(), vec![Token::Minus, Token::EOF]);
}

#[test]
fn lexes_keyword_mul() {
    assert_eq!(lex("mul").unwrap(), vec![Token::Mul, Token::EOF]);
}

#[test]
fn lexes_keyword_div() {
    assert_eq!(lex("div").unwrap(), vec![Token::Div, Token::EOF]);
}

#[test]
fn empty_input_lexes_to_end_marker_only() {
    assert_eq!(lex("").unwrap(), vec![Token::EOF]);
}

#[test]
fn whitespace_is_skipped() {
    assert_eq!(eval_line("\t1 plus\r 2"), 3.0);
}

#[test]
fn multiplication_binds_tighter_than_addition() {
    assert_eq!(eval_line("3 plus 4 mul 2"), 11.0);
}

#[test]
fn precedence_shows_in_the_schedule() {
    let steps = process_line("3 plus 4 mul 2".to_string()).unwrap();
    assert_eq!(
        steps,
        vec![
            EvalStep::Operand("3".to_string()),
            EvalStep::Operand("4".to_string()),
            EvalStep::Operand("2".to_string()),
            EvalStep::Apply(Token::Mul),
            EvalStep::Apply(Token::Plus),
        ]
    );
}

#[test]
fn parentheses_change_the_result() {
    assert_eq!(eval_line("(3 plus 4) mul 2"), 14.0);
}

#[test]
fn subtraction_is_left_associative() {
    assert_eq!(eval_line("10 minus 2 minus 3"), 5.0);
}

#[test]
fn left_associativity_shows_in_the_schedule() {
    let steps = process_line("10 minus 2 minus 3".to_string()).unwrap();
    assert_eq!(
        steps,
        vec![
            EvalStep::Operand("10".to_string()),
            EvalStep::Operand("2".to_string()),
            EvalStep::Apply(Token::Minus),
            EvalStep::Operand("3".to_string()),
            EvalStep::Apply(Token::Minus),
        ]
    );
}

#[test]
fn division_yields_fractions() {
    assert_eq!(eval_line("7 div 2"), 3.5);
}

#[test]
fn division_by_zero_is_positive_infinity() {
    let value = eval_line("1 div 0");
    assert!(value.is_infinite());
    assert!(value > 0.0);
}

#[test]
fn unexpected_character_is_a_lexical_error() {
    assert_eq!(
        process_line("5 @ 3".to_string()),
        Err(CalcError::Lex(LexError::UnexpectedChar('@')))
    );
}

#[test]
fn unknown_identifier_is_a_lexical_error() {
    assert_eq!(
        process_line("5 foo 3".to_string()),
        Err(CalcError::Lex(LexError::UnknownIdentifier("foo".to_string())))
    );
}

#[test]
fn identifiers_extend_over_digits() {
    assert_eq!(
        process_line("foo5".to_string()),
        Err(CalcError::Lex(LexError::UnknownIdentifier("foo5".to_string())))
    );
}

#[test]
fn letter_after_number_starts_an_identifier() {
    assert_eq!(
        process_line("5x".to_string()),
        Err(CalcError::Lex(LexError::UnknownIdentifier("x".to_string())))
    );
}

#[test]
fn missing_right_parenthesis_is_a_syntax_error() {
    assert_eq!(
        process_line("(3 plus 4".to_string()),
        Err(CalcError::Syntax(SyntaxError::Expected(
            Token::RParen,
            Token::EOF
        )))
    );
}

#[test]
fn two_dots_make_a_malformed_number() {
    assert_eq!(
        process_line("1.2.3".to_string()),
        Err(CalcError::Lex(LexError::MalformedNumber("1.2.3".to_string())))
    );
}

#[test]
fn a_dot_alone_is_a_malformed_number() {
    assert_eq!(
        process_line(".".to_string()),
        Err(CalcError::Lex(LexError::MalformedNumber(".".to_string())))
    );
}

#[test]
fn an_operator_cannot_open_an_expression() {
    assert_eq!(
        process_line("plus 3".to_string()),
        Err(CalcError::Syntax(SyntaxError::UnexpectedToken(Token::Plus)))
    );
}

#[test]
fn an_empty_token_sequence_is_a_syntax_error() {
    assert_eq!(
        process_line("".to_string()),
        Err(CalcError::Syntax(SyntaxError::UnexpectedToken(Token::EOF)))
    );
}

#[test]
fn trailing_tokens_after_an_expression_are_ignored() {
    assert_eq!(eval_line("3 4"), 3.0);
}

#[test]
fn stages_compose_like_the_schedule() {
    let mut lexer = Lexer::new("2 mul (3 plus 4)".to_string());
    let tokens = lexer.get_tokens().unwrap();
    assert_eq!(tokens.last(), Some(&Token::EOF));
    let mut parser = Parser::new(tokens);
    let tree = parser.parse().unwrap();
    let mut interpreter = Interpreter::new();
    let steps = interpreter.interpret(&tree);
    assert_eq!(eval_steps(steps), 14.0);
}

#[test]
fn nested_parentheses_group_correctly() {
    assert_eq!(eval_line("((1 plus 2) mul (3 plus 1)) div 2"), 6.0);
}

#[test]
fn number_may_end_with_a_dot() {
    assert_eq!(eval_line("5. plus 1"), 6.0);
}
