use vstd::prelude::*;

verus! {

/// A lexical token. A numeric literal carries its exact source text
/// (a run of decimal digits with at most one `.`); turning that text
/// into a machine number is the calling shell's concern, so the core
/// stays within what the verifier can model.
#[derive(Debug, PartialEq)]
pub enum Token {
    Number(String),
    Plus,
    Minus,
    Mul,
    Div,
    LParen,
    RParen,
    EOF,
}

/// The mathematical value of a token: the same tag, with the literal
/// text abstracted to its character sequence.
pub enum TokenV {
    Number(Seq<char>),
    Plus,
    Minus,
    Mul,
    Div,
    LParen,
    RParen,
    Eof,
}

impl View for Token {
    type V = TokenV;

    open spec fn view(&self) -> TokenV {
        match self {
            Token::Number(s) => TokenV::Number(s@),
            Token::Plus => TokenV::Plus,
            Token::Minus => TokenV::Minus,
            Token::Mul => TokenV::Mul,
            Token::Div => TokenV::Div,
            Token::LParen => TokenV::LParen,
            Token::RParen => TokenV::RParen,
            Token::EOF => TokenV::Eof,
        }
    }
}

impl Clone for Token {
    fn clone(&self) -> (r: Token)
        ensures
            r@ == self@,
    {
        match self {
            Token::Number(s) => Token::Number(s.clone()),
            Token::Plus => Token::Plus,
            Token::Minus => Token::Minus,
            Token::Mul => Token::Mul,
            Token::Div => Token::Div,
            Token::LParen => Token::LParen,
            Token::RParen => Token::RParen,
            Token::EOF => Token::EOF,
        }
    }
}

pub open spec fn token_views(ts: Seq<Token>) -> Seq<TokenV> {
    ts.map_values(|t: Token| t@)
}

/// Whether a token is one of the four arithmetic operators; only such
/// tokens may stand as the operator of a binary node.
pub open spec fn is_op_token(t: TokenV) -> bool {
    t is Plus || t is Minus || t is Mul || t is Div
}

pub open spec fn is_digit(c: char) -> bool {
    '0' <= c && c <= '9'
}

pub open spec fn digit_or_dot(c: char) -> bool {
    is_digit(c) || c == '.'
}

/// A numeric literal's text is valid when it is a nonempty run of
/// digits and dots holding at least one digit and at most one dot;
/// exactly such texts denote decimal numbers.
pub open spec fn valid_number(t: Seq<char>) -> bool {
    &&& t.len() > 0
    &&& forall|k: int| 0 <= k < t.len() ==> digit_or_dot(#[trigger] t[k])
    &&& exists|k: int| 0 <= k < t.len() && is_digit(#[trigger] t[k])
    &&& forall|i: int, j: int|
        0 <= i < t.len() && 0 <= j < t.len() && #[trigger] t[i] == '.' && #[trigger] t[j] == '.'
            ==> i == j
}

/// The fixed keyword table: the four operator words and nothing else.
pub open spec fn keyword_token(w: Seq<char>) -> Option<TokenV> {
    if w == "plus"@ {
        Some(TokenV::Plus)
    } else if w == "minus"@ {
        Some(TokenV::Minus)
    } else if w == "mul"@ {
        Some(TokenV::Mul)
    } else if w == "div"@ {
        Some(TokenV::Div)
    } else {
        None
    }
}

/// Every keyword in the table is a nonempty word.
pub proof fn lemma_keyword_nonempty(w: Seq<char>)
    requires
        keyword_token(w) is Some,
    ensures
        w.len() > 0,
{
    reveal_strlit("plus");
    reveal_strlit("minus");
    reveal_strlit("mul");
    reveal_strlit("div");
}

pub proof fn lemma_token_views_push(ts: Seq<Token>, t: Token)
    ensures
        token_views(ts.push(t)) == token_views(ts).push(t@),
{
    assert(token_views(ts.push(t)) =~= token_views(ts).push(t@));
}

} // verus!
