use vstd::prelude::*;

use crate::ast::AstNode;
use crate::ast::AstV;
use crate::ast::ast_leaves_valid;
use crate::ast::ast_ops_ok;
use crate::lexer::tokens_all_valid;
use crate::token::Token;
use crate::token::TokenV;
use crate::token::token_views;

verus! {

/// A fault found while parsing: a token standing where the grammar
/// permits no such token, or a required token missing, cited as
/// expected-versus-found.
#[derive(Debug, PartialEq)]
pub enum SyntaxError {
    UnexpectedToken(Token),
    Expected(Token, Token),
}

pub enum SyntaxErrorV {
    UnexpectedToken(TokenV),
    Expected(TokenV, TokenV),
}

impl View for SyntaxError {
    type V = SyntaxErrorV;

    open spec fn view(&self) -> SyntaxErrorV {
        match self {
            SyntaxError::UnexpectedToken(t) => SyntaxErrorV::UnexpectedToken(t@),
            SyntaxError::Expected(want, got) => SyntaxErrorV::Expected(want@, got@),
        }
    }
}

/// The designated outcome of grammar positions that no real run
/// reaches: the parsing routines always advance and never step past
/// the end marker, so on any sequence of the lexer's shape every
/// guard below that yields this value holds.
pub open spec fn dead_branch() -> Result<(AstV, int), SyntaxErrorV> {
    Err(SyntaxErrorV::UnexpectedToken(TokenV::Eof))
}

/// expression := term
pub open spec fn spec_expression(ts: Seq<TokenV>, i: int) -> Result<(AstV, int), SyntaxErrorV>
    decreases ts.len() - i, 4int when 0 <= i < ts.len()
{
    spec_term(ts, i)
}

/// term := factor ( (Plus | Minus) factor )*, folded to the left
pub open spec fn spec_term(ts: Seq<TokenV>, i: int) -> Result<(AstV, int), SyntaxErrorV>
    decreases ts.len() - i, 3int when 0 <= i < ts.len()
{
    match spec_factor(ts, i) {
        Ok((node, j)) => if i < j && j < ts.len() {
            spec_term_rest(ts, j, node)
        } else {
            dead_branch()
        },
        Err(e) => Err(e),
    }
}

/// The left fold of `( (Plus | Minus) factor )*` onto `acc`.
pub open spec fn spec_term_rest(ts: Seq<TokenV>, i: int, acc: AstV) -> Result<
    (AstV, int),
    SyntaxErrorV,
>
    decreases ts.len() - i, 0int when 0 <= i < ts.len()
{
    if ts[i] is Plus || ts[i] is Minus {
        let op = ts[i];
        if i + 1 < ts.len() {
            match spec_factor(ts, i + 1) {
                Ok((rhs, j)) => if i + 1 < j && j < ts.len() {
                    spec_term_rest(ts, j, AstV::BinaryOp(Box::new(acc), op, Box::new(rhs)))
                } else {
                    dead_branch()
                },
                Err(e) => Err(e),
            }
        } else {
            dead_branch()
        }
    } else {
        Ok((acc, i))
    }
}

/// factor := primary ( (Mul | Div) primary )*, folded to the left
pub open spec fn spec_factor(ts: Seq<TokenV>, i: int) -> Result<(AstV, int), SyntaxErrorV>
    decreases ts.len() - i, 2int when 0 <= i < ts.len()
{
    match spec_primary(ts, i) {
        Ok((node, j)) => if i < j && j < ts.len() {
            spec_factor_rest(ts, j, node)
        } else {
            dead_branch()
        },
        Err(e) => Err(e),
    }
}

/// The left fold of `( (Mul | Div) primary )*` onto `acc`.
pub open spec fn spec_factor_rest(ts: Seq<TokenV>, i: int, acc: AstV) -> Result<
    (AstV, int),
    SyntaxErrorV,
>
    decreases ts.len() - i, 0int when 0 <= i < ts.len()
{
    if ts[i] is Mul || ts[i] is Div {
        let op = ts[i];
        if i + 1 < ts.len() {
            match spec_primary(ts, i + 1) {
                Ok((rhs, j)) => if i + 1 < j && j < ts.len() {
                    spec_factor_rest(ts, j, AstV::BinaryOp(Box::new(acc), op, Box::new(rhs)))
                } else {
                    dead_branch()
                },
                Err(e) => Err(e),
            }
        } else {
            dead_branch()
        }
    } else {
        Ok((acc, i))
    }
}

/// primary := Number | LParen expression RParen
pub open spec fn spec_primary(ts: Seq<TokenV>, i: int) -> Result<(AstV, int), SyntaxErrorV>
    decreases ts.len() - i, 1int when 0 <= i < ts.len()
{
    match ts[i] {
        TokenV::Number(text) => Ok((AstV::Number(text), i + 1)),
        TokenV::LParen => if i + 1 < ts.len() {
            match spec_expression(ts, i + 1) {
                Ok((node, j)) => if i + 1 < j && j < ts.len() {
                    if ts[j] is RParen {
                        Ok((node, j + 1))
                    } else {
                        Err(SyntaxErrorV::Expected(TokenV::RParen, ts[j]))
                    }
                } else {
                    dead_branch()
                },
                Err(e) => Err(e),
            }
        } else {
            dead_branch()
        },
        t => Err(SyntaxErrorV::UnexpectedToken(t)),
    }
}

/// What parsing the whole sequence from the front yields: the tree of
/// one expression and the position just past it. Tokens past the
/// expression are left unread: the present grammar's entry point does
/// not demand that the end marker follow at once, so trailing tokens
/// are accepted and ignored.
pub open spec fn spec_parse(ts: Seq<TokenV>) -> Result<(AstV, int), SyntaxErrorV> {
    spec_expression(ts, 0)
}

fn token_eq(a: &Token, b: &Token) -> (r: bool)
    ensures
        r == (a@ == b@),
{
    match (a, b) {
        (Token::Number(x), Token::Number(y)) => x.eq(y),
        (Token::Plus, Token::Plus) => true,
        (Token::Minus, Token::Minus) => true,
        (Token::Mul, Token::Mul) => true,
        (Token::Div, Token::Div) => true,
        (Token::LParen, Token::LParen) => true,
        (Token::RParen, Token::RParen) => true,
        (Token::EOF, Token::EOF) => true,
        _ => false,
    }
}

/// The parser: a cursor over the token sequence the lexer produced.
pub struct Parser {
    pub tokens: Vec<Token>,
    pub position: usize,
}

impl Parser {
    pub open spec fn toks(&self) -> Seq<TokenV> {
        token_views(self.tokens@)
    }

    /// The cursor is in bounds and the sequence is closed by the end
    /// marker, as the lexer guarantees.
    pub open spec fn wf(&self) -> bool {
        &&& self.tokens@.len() > 0
        &&& self.toks().last() is Eof
        &&& self.position < self.tokens@.len()
    }

    pub fn new(tokens: Vec<Token>) -> (parser: Parser)
        requires
            tokens@.len() > 0,
            token_views(tokens@).last() is Eof,
        ensures
            parser.wf(),
            parser.toks() == token_views(tokens@),
            parser.position == 0,
    {
        Parser { tokens, position: 0 }
    }

    pub fn advance(&mut self)
        requires
            old(self).wf(),
            !(old(self).toks()[old(self).position as int] is Eof),
        ensures
            final(self).wf(),
            final(self).tokens == old(self).tokens,
            final(self).position == old(self).position + 1,
    {
        let n = self.tokens.len();
        proof {
            assert(self.toks().len() == self.tokens@.len());
            assert(self.toks().last() == self.toks()[self.tokens@.len() - 1]);
            assert(self.position < n - 1);
        }
        self.position = self.position + 1;
    }

    pub fn current_token(&self) -> (t: &Token)
        requires
            self.position < self.tokens@.len(),
        ensures
            t@ == self.toks()[self.position as int],
    {
        &self.tokens[self.position]
    }

    /// Consume the current token if it equals the expected one; else
    /// report expected-versus-found and stay put.
    pub fn expect(&mut self, expected: Token) -> (r: Result<(), SyntaxError>)
        requires
            old(self).wf(),
            !(expected@ is Eof),
        ensures
            final(self).wf(),
            final(self).tokens == old(self).tokens,
            match r {
                Ok(_) => old(self).toks()[old(self).position as int] == expected@
                    && final(self).position == old(self).position + 1,
                Err(e) => old(self).toks()[old(self).position as int] != expected@ && e@
                    == SyntaxErrorV::Expected(
                    expected@,
                    old(self).toks()[old(self).position as int],
                ) && final(self).position == old(self).position,
            },
    {
        let found = token_eq(self.current_token(), &expected);
        if found {
            self.advance();
            Ok(())
        } else {
            let got = self.current_token().clone();
            Err(SyntaxError::Expected(expected, got))
        }
    }

    /// The entry point: parse one full expression from the front of
    /// the sequence. Trailing tokens after it are left unread, as the
    /// grammar's entry point admits.
    pub fn parse(&mut self) -> (r: Result<AstNode, SyntaxError>)
        requires
            old(self).wf(),
            old(self).position == 0,
        ensures
            final(self).wf(),
            final(self).tokens == old(self).tokens,
            match r {
                Ok(node) => spec_parse(old(self).toks()) == Ok::<(AstV, int), SyntaxErrorV>(
                    (node@, final(self).position as int),
                ) && ast_ops_ok(node@) && (tokens_all_valid(old(self).toks())
                    ==> ast_leaves_valid(node@)),
                Err(e) => spec_parse(old(self).toks()) == Err::<(AstV, int), SyntaxErrorV>(e@),
            },
    {
        self.expression()
    }

    /// expression := term
    pub fn expression(&mut self) -> (r: Result<AstNode, SyntaxError>)
        requires
            old(self).wf(),
        ensures
            final(self).wf(),
            final(self).tokens == old(self).tokens,
            match r {
                Ok(node) => spec_expression(old(self).toks(), old(self).position as int)
                    == Ok::<(AstV, int), SyntaxErrorV>((node@, final(self).position as int))
                    && old(self).position < final(self).position && ast_ops_ok(node@) && (
                tokens_all_valid(old(self).toks()) ==> ast_leaves_valid(node@)),
                Err(e) => spec_expression(old(self).toks(), old(self).position as int)
                    == Err::<(AstV, int), SyntaxErrorV>(e@),
            },
        decreases old(self).tokens@.len() - old(self).position, 4int,
    {
        self.term()
    }

    /// term := factor ( (Plus | Minus) factor )*, folded to the left
    pub fn term(&mut self) -> (r: Result<AstNode, SyntaxError>)
        requires
            old(self).wf(),
        ensures
            final(self).wf(),
            final(self).tokens == old(self).tokens,
            match r {
                Ok(node) => spec_term(old(self).toks(), old(self).position as int) == Ok::<
                    (AstV, int),
                    SyntaxErrorV,
                >((node@, final(self).position as int)) && old(self).position < final(self).position && ast_ops_ok(node@) && (tokens_all_valid(old(self).toks())
                    ==> ast_leaves_valid(node@)),
                Err(e) => spec_term(old(self).toks(), old(self).position as int) == Err::<
                    (AstV, int),
                    SyntaxErrorV,
                >(e@),
            },
        decreases old(self).tokens@.len() - old(self).position, 3int,
    {
        let ghost ts = self.toks();
        let ghost p0 = self.position as int;
        let mut node = match self.factor() {
            Ok(n) => n,
            Err(e) => {
                return Err(e);
            },
        };
        loop
            invariant
                self.wf(),
                self.tokens == old(self).tokens,
                ts == token_views(old(self).tokens@),
                p0 == old(self).position as int,
                p0 < self.position,
                ast_ops_ok(node@),
                tokens_all_valid(ts) ==> ast_leaves_valid(node@),
                spec_term(ts, p0) == spec_term_rest(ts, self.position as int, node@),
            ensures
                self.wf(),
                self.tokens == old(self).tokens,
                p0 < self.position,
                ast_ops_ok(node@),
                tokens_all_valid(ts) ==> ast_leaves_valid(node@),
                spec_term(ts, p0) == Ok::<(AstV, int), SyntaxErrorV>(
                    (node@, self.position as int),
                ),
            decreases self.tokens@.len() - self.position,
        {
            let is_addop = match self.current_token() {
                Token::Plus => true,
                Token::Minus => true,
                _ => false,
            };
            if !is_addop {
                proof {
                    assert(spec_term_rest(ts, self.position as int, node@) == Ok::<
                        (AstV, int),
                        SyntaxErrorV,
                    >((node@, self.position as int)));
                }
                break ;
            }
            let op = match self.current_token() {
                Token::Plus => Token::Plus,
                _ => Token::Minus,
            };
            let ghost op_pos = self.position as int;
            let ghost prev = node@;
            self.advance();
            match self.factor() {
                Ok(rhs) => {
                    node = AstNode::BinaryOp(Box::new(node), op, Box::new(rhs));
                },
                Err(e) => {
                    proof {
                        assert(spec_term_rest(ts, op_pos, prev) == Err::<
                            (AstV, int),
                            SyntaxErrorV,
                        >(e@));
                    }
                    return Err(e);
                },
            }
        }
        Ok(node)
    }

    /// factor := primary ( (Mul | Div) primary )*, folded to the left
    pub fn factor(&mut self) -> (r: Result<AstNode, SyntaxError>)
        requires
            old(self).wf(),
        ensures
            final(self).wf(),
            final(self).tokens == old(self).tokens,
            match r {
                Ok(node) => spec_factor(old(self).toks(), old(self).position as int) == Ok::<
                    (AstV, int),
                    SyntaxErrorV,
                >((node@, final(self).position as int)) && old(self).position < final(self).position && ast_ops_ok(node@) && (tokens_all_valid(old(self).toks())
                    ==> ast_leaves_valid(node@)),
                Err(e) => spec_factor(old(self).toks(), old(self).position as int) == Err::<
                    (AstV, int),
                    SyntaxErrorV,
                >(e@),
            },
        decreases old(self).tokens@.len() - old(self).position, 2int,
    {
        let ghost ts = self.toks();
        let ghost p0 = self.position as int;
        let mut node = match self.primary() {
            Ok(n) => n,
            Err(e) => {
                return Err(e);
            },
        };
        loop
            invariant
                self.wf(),
                self.tokens == old(self).tokens,
                ts == token_views(old(self).tokens@),
                p0 == old(self).position as int,
                p0 < self.position,
                ast_ops_ok(node@),
                tokens_all_valid(ts) ==> ast_leaves_valid(node@),
                spec_factor(ts, p0) == spec_factor_rest(ts, self.position as int, node@),
            ensures
                self.wf(),
                self.tokens == old(self).tokens,
                p0 < self.position,
                ast_ops_ok(node@),
                tokens_all_valid(ts) ==> ast_leaves_valid(node@),
                spec_factor(ts, p0) == Ok::<(AstV, int), SyntaxErrorV>(
                    (node@, self.position as int),
                ),
            decreases self.tokens@.len() - self.position,
        {
            let is_mulop = match self.current_token() {
                Token::Mul => true,
                Token::Div => true,
                _ => false,
            };
            if !is_mulop {
                proof {
                    assert(spec_factor_rest(ts, self.position as int, node@) == Ok::<
                        (AstV, int),
                        SyntaxErrorV,
                    >((node@, self.position as int)));
                }
                break ;
            }
            let op = match self.current_token() {
                Token::Mul => Token::Mul,
                _ => Token::Div,
            };
            let ghost op_pos = self.position as int;
            let ghost prev = node@;
            self.advance();
            match self.primary() {
                Ok(rhs) => {
                    node = AstNode::BinaryOp(Box::new(node), op, Box::new(rhs));
                },
                Err(e) => {
                    proof {
                        assert(spec_factor_rest(ts, op_pos, prev) == Err::<
                            (AstV, int),
                            SyntaxErrorV,
                        >(e@));
                    }
                    return Err(e);
                },
            }
        }
        Ok(node)
    }

    /// primary := Number | LParen expression RParen
    pub fn primary(&mut self) -> (r: Result<AstNode, SyntaxError>)
        requires
            old(self).wf(),
        ensures
            final(self).wf(),
            final(self).tokens == old(self).tokens,
            match r {
                Ok(node) => spec_primary(old(self).toks(), old(self).position as int) == Ok::<
                    (AstV, int),
                    SyntaxErrorV,
                >((node@, final(self).position as int)) && old(self).position < final(self).position && ast_ops_ok(node@) && (tokens_all_valid(old(self).toks())
                    ==> ast_leaves_valid(node@)),
                Err(e) => spec_primary(old(self).toks(), old(self).position as int) == Err::<
                    (AstV, int),
                    SyntaxErrorV,
                >(e@),
            },
        decreases old(self).tokens@.len() - old(self).position, 1int,
    {
        let ghost ts = self.toks();
        let ghost p0 = self.position as int;
        let cur = self.current_token().clone();
        match cur {
            Token::Number(text) => {
                self.advance();
                proof {
                    if tokens_all_valid(ts) {
                        assert(ts[p0] matches TokenV::Number(t) ==> crate::token::valid_number(
                            t,
                        ));
                    }
                }
                Ok(AstNode::Number(text))
            },
            Token::LParen => {
                self.advance();
                let node = match self.expression() {
                    Ok(n) => n,
                    Err(e) => {
                        return Err(e);
                    },
                };
                match self.expect(Token::RParen) {
                    Ok(_) => Ok(node),
                    Err(e) => {
                        return Err(e);
                    },
                }
            },
            other => Err(SyntaxError::UnexpectedToken(other)),
        }
    }
}

} // verus!
