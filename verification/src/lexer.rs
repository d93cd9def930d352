use vstd::prelude::*;

use crate::token::Token;
use crate::token::TokenV;
use crate::token::digit_or_dot;
use crate::token::is_digit;
use crate::token::keyword_token;
use crate::token::lemma_token_views_push;
use crate::token::token_views;
use crate::token::valid_number;

verus! {

/// A fault found while scanning: a character outside every recognized
/// class, a word outside the keyword set, or a numeric literal that
/// does not denote a decimal number. Each variant cites the offending
/// text; the calling shell renders the message.
#[derive(Debug, PartialEq)]
pub enum LexError {
    UnexpectedChar(char),
    UnknownIdentifier(String),
    MalformedNumber(String),
}

pub enum LexErrorV {
    UnexpectedChar(char),
    UnknownIdentifier(Seq<char>),
    MalformedNumber(Seq<char>),
}

impl View for LexError {
    type V = LexErrorV;

    open spec fn view(&self) -> LexErrorV {
        match self {
            LexError::UnexpectedChar(c) => LexErrorV::UnexpectedChar(*c),
            LexError::UnknownIdentifier(s) => LexErrorV::UnknownIdentifier(s@),
            LexError::MalformedNumber(s) => LexErrorV::MalformedNumber(s@),
        }
    }
}

pub open spec fn is_space_char(c: char) -> bool {
    c == ' ' || c == '\t' || c == '\n' || c == '\r'
}

/// Whether a character counts as alphabetic, left abstract: the
/// meaning of char::is_alphabetic.
pub uninterp spec fn alphabetic_char(c: char) -> bool;

/// Whether a character counts as alphanumeric, left abstract: the
/// meaning of char::is_alphanumeric.
pub uninterp spec fn alphanumeric_char(c: char) -> bool;

/// Relies on char::is_alphabetic from std: whether the character has
/// the Unicode Alphabetic property, a fixed function of the character
/// alone; among ASCII characters, exactly the letters have it.
#[verifier::external_body]
fn is_alphabetic_char(c: char) -> (b: bool)
    ensures
        b == alphabetic_char(c),
        (c as u32) < 128 ==> b == ('a' <= c && c <= 'z' || 'A' <= c && c <= 'Z'),
{
    c.is_alphabetic()
}

/// Relies on char::is_alphanumeric from std: whether the character is
/// alphabetic or numeric under Unicode, a fixed function of the
/// character alone; among ASCII characters, exactly the letters and
/// the ten digits qualify.
#[verifier::external_body]
fn is_alphanumeric_char(c: char) -> (b: bool)
    ensures
        b == alphanumeric_char(c),
        (c as u32) < 128 ==> b == ('a' <= c && c <= 'z' || 'A' <= c && c <= 'Z' || '0' <= c
            && c <= '9'),
{
    c.is_alphanumeric()
}

/// The end of the maximal run of digits and dots that starts at `i`.
pub open spec fn number_end(s: Seq<char>, i: int) -> int
    decreases s.len() - i when 0 <= i <= s.len()
{
    if i < s.len() && digit_or_dot(s[i]) {
        number_end(s, i + 1)
    } else {
        i
    }
}

/// The end of the maximal run of alphanumeric characters starting at `i`.
pub open spec fn ident_end(s: Seq<char>, i: int) -> int
    decreases s.len() - i when 0 <= i <= s.len()
{
    if i < s.len() && alphanumeric_char(s[i]) {
        ident_end(s, i + 1)
    } else {
        i
    }
}

pub proof fn lemma_number_end(s: Seq<char>, i: int)
    requires
        0 <= i <= s.len(),
    ensures
        i <= number_end(s, i) <= s.len(),
        forall|k: int| i <= k < number_end(s, i) ==> digit_or_dot(#[trigger] s[k]),
        number_end(s, i) < s.len() ==> !digit_or_dot(s[number_end(s, i)]),
        i < s.len() && digit_or_dot(s[i]) ==> number_end(s, i) > i,
    decreases s.len() - i,
{
    if i < s.len() && digit_or_dot(s[i]) {
        lemma_number_end(s, i + 1);
    }
}

pub proof fn lemma_ident_end(s: Seq<char>, i: int)
    requires
        0 <= i <= s.len(),
    ensures
        i <= ident_end(s, i) <= s.len(),
        forall|k: int| i <= k < ident_end(s, i) ==> alphanumeric_char(#[trigger] s[k]),
        ident_end(s, i) < s.len() ==> !alphanumeric_char(s[ident_end(s, i)]),
        i < s.len() && alphanumeric_char(s[i]) ==> ident_end(s, i) > i,
    decreases s.len() - i,
{
    if i < s.len() && alphanumeric_char(s[i]) {
        lemma_ident_end(s, i + 1);
    }
}

pub open spec fn prepend_token(
    t: TokenV,
    r: Result<Seq<TokenV>, LexErrorV>,
) -> Result<Seq<TokenV>, LexErrorV> {
    match r {
        Ok(ts) => Ok(seq![t] + ts),
        Err(e) => Err(e),
    }
}

pub open spec fn prepend_all(
    ts: Seq<TokenV>,
    r: Result<Seq<TokenV>, LexErrorV>,
) -> Result<Seq<TokenV>, LexErrorV> {
    match r {
        Ok(rest) => Ok(ts + rest),
        Err(e) => Err(e),
    }
}

/// What scanning the text from position `i` onward yields: the token
/// sequence, closed by the end marker, or the first fault met. Each
/// step consumes the maximal run its leading character opens.
pub open spec fn lex_from(s: Seq<char>, i: int) -> Result<Seq<TokenV>, LexErrorV>
    decreases s.len() - i when 0 <= i <= s.len()
    via lex_from_dec
{
    if i >= s.len() {
        Ok(seq![TokenV::Eof])
    } else {
        let c = s[i];
        if digit_or_dot(c) {
            let j = number_end(s, i);
            let text = s.subrange(i, j);
            if valid_number(text) {
                prepend_token(TokenV::Number(text), lex_from(s, j))
            } else {
                Err(LexErrorV::MalformedNumber(text))
            }
        } else if is_space_char(c) {
            lex_from(s, i + 1)
        } else if c == '(' {
            prepend_token(TokenV::LParen, lex_from(s, i + 1))
        } else if c == ')' {
            prepend_token(TokenV::RParen, lex_from(s, i + 1))
        } else if alphabetic_char(c) {
            let j = ident_end(s, i);
            let word = s.subrange(i, j);
            match keyword_token(word) {
                Some(t) => prepend_token(t, lex_from(s, j)),
                None => Err(LexErrorV::UnknownIdentifier(word)),
            }
        } else {
            Err(LexErrorV::UnexpectedChar(c))
        }
    }
}

#[via_fn]
proof fn lex_from_dec(s: Seq<char>, i: int) {
    if 0 <= i && i < s.len() {
        lemma_number_end(s, i);
        lemma_ident_end(s, i);
        let j = ident_end(s, i);
        let word = s.subrange(i, j);
        if keyword_token(word) is Some {
            crate::token::lemma_keyword_nonempty(word);
            assert(word.len() == j - i);
        }
    }
}

/// Every numeric token in the sequence carries a valid literal.
pub open spec fn tokens_all_valid(ts: Seq<TokenV>) -> bool {
    forall|k: int|
        0 <= k < ts.len() ==> ((#[trigger] ts[k]) matches TokenV::Number(t) ==> valid_number(t))
}

/// The lexer's output guarantee: at least one token, the last is the
/// end marker, the end marker stands nowhere else, and every numeric
/// token carries a valid literal.
pub open spec fn lex_shape(ts: Seq<TokenV>) -> bool {
    &&& ts.len() >= 1
    &&& ts.last() is Eof
    &&& forall|k: int| 0 <= k < ts.len() - 1 ==> !((#[trigger] ts[k]) is Eof)
    &&& tokens_all_valid(ts)
}

proof fn lemma_shape_prepend(t: TokenV, r: Result<Seq<TokenV>, LexErrorV>)
    requires
        !(t is Eof),
        t matches TokenV::Number(x) ==> valid_number(x),
        r matches Ok(ts) ==> lex_shape(ts),
    ensures
        prepend_token(t, r) matches Ok(ts) ==> lex_shape(ts),
{
    if let Ok(ts) = r {
        let combined = seq![t] + ts;
        assert(combined.len() == ts.len() + 1);
        assert(combined.last() == ts.last());
        assert forall|k: int| 0 <= k < combined.len() - 1 implies !((#[trigger] combined[k])
            is Eof) by {
            if k > 0 {
                assert(combined[k] == ts[k - 1]);
            }
        }
        assert forall|k: int|
            0 <= k < combined.len() implies ((#[trigger] combined[k]) matches TokenV::Number(x)
            ==> valid_number(x)) by {
            if k > 0 {
                assert(combined[k] == ts[k - 1]);
            }
        }
    }
}

/// Whatever text is scanned, a successful run of the lexer yields a
/// sequence of the guaranteed shape.
pub proof fn lemma_lex_from_shape(s: Seq<char>, i: int)
    requires
        0 <= i <= s.len(),
    ensures
        lex_from(s, i) matches Ok(ts) ==> lex_shape(ts),
    decreases s.len() - i,
{
    if i >= s.len() {
        let ts = seq![TokenV::Eof];
        assert(ts.last() is Eof);
        assert(lex_shape(ts));
    } else {
        let c = s[i];
        if digit_or_dot(c) {
            lemma_number_end(s, i);
            let j = number_end(s, i);
            let text = s.subrange(i, j);
            if valid_number(text) {
                lemma_lex_from_shape(s, j);
                lemma_shape_prepend(TokenV::Number(text), lex_from(s, j));
            }
        } else if is_space_char(c) {
            lemma_lex_from_shape(s, i + 1);
        } else if c == '(' {
            lemma_lex_from_shape(s, i + 1);
            lemma_shape_prepend(TokenV::LParen, lex_from(s, i + 1));
        } else if c == ')' {
            lemma_lex_from_shape(s, i + 1);
            lemma_shape_prepend(TokenV::RParen, lex_from(s, i + 1));
        } else if alphabetic_char(c) {
            lemma_ident_end(s, i);
            let j = ident_end(s, i);
            let word = s.subrange(i, j);
            if let Some(t) = keyword_token(word) {
                crate::token::lemma_keyword_nonempty(word);
                lemma_lex_from_shape(s, j);
                lemma_shape_prepend(t, lex_from(s, j));
            }
        }
    }
}

fn is_digit_or_dot(c: char) -> (b: bool)
    ensures
        b == digit_or_dot(c),
{
    ('0' <= c && c <= '9') || c == '.'
}

fn is_space(c: char) -> (b: bool)
    ensures
        b == is_space_char(c),
{
    c == ' ' || c == '\t' || c == '\n' || c == '\r'
}

/// Whether a literal's text denotes a decimal number: nonempty, only
/// digits and dots, at least one digit, at most one dot.
pub fn is_valid_number_text(t: &str) -> (b: bool)
    ensures
        b == valid_number(t@),
{
    let n = t.unicode_len();
    let mut i: usize = 0;
    let mut seen_digit = false;
    let mut seen_dot = false;
    let ghost mut dot_idx: int = 0;
    while i < n
        invariant
            n == t@.len(),
            i <= n,
            forall|k: int| 0 <= k < i ==> digit_or_dot(#[trigger] t@[k]),
            seen_digit <==> exists|k: int| 0 <= k < i && is_digit(#[trigger] t@[k]),
            seen_dot <==> exists|k: int| 0 <= k < i && #[trigger] t@[k] == '.',
            seen_dot ==> 0 <= dot_idx < i && t@[dot_idx] == '.',
            forall|k: int| 0 <= k < i && #[trigger] t@[k] == '.' ==> k == dot_idx,
        decreases n - i,
    {
        let c = t.get_char(i);
        if '0' <= c && c <= '9' {
            seen_digit = true;
            assert(is_digit(t@[i as int]));
        } else if c == '.' {
            if seen_dot {
                assert(!valid_number(t@));
                return false;
            }
            seen_dot = true;
            proof {
                dot_idx = i as int;
            }
        } else {
            assert(!digit_or_dot(t@[i as int]));
            return false;
        }
        i = i + 1;
    }
    if n == 0 {
        return false;
    }
    seen_digit
}

/// The scanner: a read position in the text and the character there,
/// if any.
pub struct Lexer {
    pub input: String,
    pub position: usize,
    pub current_char: Option<char>,
    pub length: usize,
}

impl Lexer {
    pub open spec fn wf(&self) -> bool {
        &&& self.length == self.input@.len()
        &&& self.position <= self.length
        &&& self.current_char == (if self.position < self.length {
            Some(self.input@[self.position as int])
        } else {
            Option::<char>::None
        })
    }

    pub fn new(input: String) -> (lexer: Lexer)
        ensures
            lexer.wf(),
            lexer.input@ == input@,
            lexer.position == 0,
    {
        let length = input.as_str().unicode_len();
        let current_char = if length > 0 {
            Some(input.as_str().get_char(0))
        } else {
            None
        };
        Lexer { input, position: 0, current_char, length }
    }

    pub fn advance(&mut self)
        requires
            old(self).wf(),
            old(self).position < old(self).length,
        ensures
            final(self).wf(),
            final(self).input == old(self).input,
            final(self).length == old(self).length,
            final(self).position == old(self).position + 1,
    {
        self.position = self.position + 1;
        self.current_char = if self.position < self.length {
            Some(self.input.as_str().get_char(self.position))
        } else {
            None
        };
    }

    /// Scan the maximal run of digits and dots at the current position
    /// and build its numeric token; a run that denotes no decimal
    /// number is the malformed-literal fault.
    pub fn number(&mut self) -> (r: Result<Token, LexError>)
        requires
            old(self).wf(),
            old(self).position < old(self).length,
            digit_or_dot(old(self).input@[old(self).position as int]),
        ensures
            final(self).wf(),
            final(self).input == old(self).input,
            final(self).length == old(self).length,
            final(self).position as int == number_end(
                old(self).input@,
                old(self).position as int,
            ),
            ({
                let text = old(self).input@.subrange(
                    old(self).position as int,
                    number_end(old(self).input@, old(self).position as int),
                );
                match r {
                    Ok(t) => valid_number(text) && t@ == TokenV::Number(text),
                    Err(e) => !valid_number(text) && e@ == LexErrorV::MalformedNumber(text),
                }
            }),
    {
        let ghost s = self.input@;
        let start = self.position;
        loop
            invariant
                self.wf(),
                self.input == old(self).input,
                self.length == old(self).length,
                s == old(self).input@,
                start <= self.position,
                number_end(s, start as int) == number_end(s, self.position as int),
            ensures
                self.wf(),
                self.input == old(self).input,
                self.length == old(self).length,
                start <= self.position,
                self.position as int == number_end(s, start as int),
            decreases self.length - self.position,
        {
            let keep = match self.current_char {
                Some(c) => is_digit_or_dot(c),
                None => false,
            };
            if !keep {
                proof {
                    assert(number_end(s, self.position as int) == self.position as int);
                }
                break ;
            }
            proof {
                assert(number_end(s, self.position as int) == number_end(
                    s,
                    self.position as int + 1,
                ));
            }
            self.advance();
        }
        let text_str = self.input.as_str().substring_char(start, self.position);
        if is_valid_number_text(text_str) {
            Ok(Token::Number(text_str.to_owned()))
        } else {
            Err(LexError::MalformedNumber(text_str.to_owned()))
        }
    }

    /// Scan the maximal alphanumeric run at the current position and
    /// look the word up in the keyword table; a word outside it is the
    /// unknown-identifier fault.
    pub fn identifier(&mut self) -> (r: Result<Token, LexError>)
        requires
            old(self).wf(),
            old(self).position < old(self).length,
        ensures
            final(self).wf(),
            final(self).input == old(self).input,
            final(self).length == old(self).length,
            final(self).position as int == ident_end(old(self).input@, old(self).position as int),
            ({
                let word = old(self).input@.subrange(
                    old(self).position as int,
                    ident_end(old(self).input@, old(self).position as int),
                );
                match r {
                    Ok(t) => keyword_token(word) == Some(t@),
                    Err(e) => keyword_token(word) is None && e@ == LexErrorV::UnknownIdentifier(
                        word,
                    ),
                }
            }),
    {
        let ghost s = self.input@;
        let start = self.position;
        loop
            invariant
                self.wf(),
                self.input == old(self).input,
                self.length == old(self).length,
                s == old(self).input@,
                start <= self.position,
                ident_end(s, start as int) == ident_end(s, self.position as int),
            ensures
                self.wf(),
                self.input == old(self).input,
                self.length == old(self).length,
                start <= self.position,
                self.position as int == ident_end(s, start as int),
            decreases self.length - self.position,
        {
            let keep = match self.current_char {
                Some(c) => is_alphanumeric_char(c),
                None => false,
            };
            if !keep {
                proof {
                    assert(ident_end(s, self.position as int) == self.position as int);
                }
                break ;
            }
            proof {
                assert(ident_end(s, self.position as int) == ident_end(
                    s,
                    self.position as int + 1,
                ));
            }
            self.advance();
        }
        let word_str = self.input.as_str().substring_char(start, self.position);
        let word = word_str.to_owned();
        if word.eq(&String::from_str("plus")) {
            Ok(Token::Plus)
        } else if word.eq(&String::from_str("minus")) {
            Ok(Token::Minus)
        } else if word.eq(&String::from_str("mul")) {
            Ok(Token::Mul)
        } else if word.eq(&String::from_str("div")) {
            Ok(Token::Div)
        } else {
            Err(LexError::UnknownIdentifier(word))
        }
    }

    /// Scan the whole text into its token sequence, closed by exactly
    /// one end marker, or report the first fault met.
    pub fn get_tokens(&mut self) -> (r: Result<Vec<Token>, LexError>)
        requires
            old(self).wf(),
        ensures
            final(self).wf(),
            match r {
                Ok(ts) => lex_from(old(self).input@, old(self).position as int) == Ok::<
                    Seq<TokenV>,
                    LexErrorV,
                >(token_views(ts@)) && lex_shape(token_views(ts@)),
                Err(e) => lex_from(old(self).input@, old(self).position as int) == Err::<
                    Seq<TokenV>,
                    LexErrorV,
                >(e@),
            },
    {
        let ghost s = self.input@;
        let ghost p0 = self.position as int;
        let mut tokens: Vec<Token> = Vec::new();
        proof {
            assert(token_views(tokens@) =~= Seq::<TokenV>::empty());
        }
        loop
            invariant
                self.wf(),
                self.input == old(self).input,
                self.length == old(self).length,
                p0 == old(self).position as int,
                s == old(self).input@,
                lex_from(s, p0) == prepend_all(
                    token_views(tokens@),
                    lex_from(s, self.position as int),
                ),
            ensures
                self.wf(),
                self.position == self.length,
                self.length == old(self).length,
                s == old(self).input@,
                lex_from(s, p0) == prepend_all(
                    token_views(tokens@),
                    lex_from(s, self.position as int),
                ),
            decreases self.length - self.position,
        {
            let c = match self.current_char {
                Some(c) => c,
                None => { break ; },
            };
            let ghost pre = self.position as int;
            if is_digit_or_dot(c) {
                match self.number() {
                    Ok(t) => {
                        proof {
                            lemma_number_end(s, pre);
                            assert(lex_from(s, pre) == prepend_token(t@, lex_from(
                                s,
                                self.position as int,
                            )));
                            lemma_prepend_push(token_views(tokens@), t@, lex_from(
                                s,
                                self.position as int,
                            ));
                            lemma_token_views_push(tokens@, t);
                        }
                        tokens.push(t);
                    },
                    Err(e) => {
                        proof {
                            lemma_number_end(s, pre);
                            assert(lex_from(s, pre) == Err::<Seq<TokenV>, LexErrorV>(e@));
                        }
                        return Err(e);
                    },
                }
            } else if is_space(c) {
                self.advance();
            } else if c == '(' {
                proof {
                    lemma_prepend_push(token_views(tokens@), TokenV::LParen, lex_from(
                        s,
                        pre + 1,
                    ));
                    lemma_token_views_push(tokens@, Token::LParen);
                }
                tokens.push(Token::LParen);
                self.advance();
            } else if c == ')' {
                proof {
                    lemma_prepend_push(token_views(tokens@), TokenV::RParen, lex_from(
                        s,
                        pre + 1,
                    ));
                    lemma_token_views_push(tokens@, Token::RParen);
                }
                tokens.push(Token::RParen);
                self.advance();
            } else if is_alphabetic_char(c) {
                match self.identifier() {
                    Ok(t) => {
                        proof {
                            lemma_ident_end(s, pre);
                            crate::token::lemma_keyword_nonempty(
                                s.subrange(pre, ident_end(s, pre)),
                            );
                            assert(lex_from(s, pre) == prepend_token(t@, lex_from(
                                s,
                                self.position as int,
                            )));
                            lemma_prepend_push(token_views(tokens@), t@, lex_from(
                                s,
                                self.position as int,
                            ));
                            lemma_token_views_push(tokens@, t);
                        }
                        tokens.push(t);
                    },
                    Err(e) => {
                        proof {
                            lemma_ident_end(s, pre);
                            assert(lex_from(s, pre) == Err::<Seq<TokenV>, LexErrorV>(e@));
                        }
                        return Err(e);
                    },
                }
            } else {
                return Err(LexError::UnexpectedChar(c));
            }
        }
        proof {
            lemma_prepend_push(token_views(tokens@), TokenV::Eof, Ok(Seq::<TokenV>::empty()));
            lemma_token_views_push(tokens@, Token::EOF);
            assert(seq![TokenV::Eof] + Seq::<TokenV>::empty() =~= seq![TokenV::Eof]);
            assert(token_views(tokens@) + seq![TokenV::Eof] =~= token_views(tokens@).push(
                TokenV::Eof,
            ));
            lemma_lex_from_shape(s, p0);
        }
        tokens.push(Token::EOF);
        Ok(tokens)
    }
}

proof fn lemma_prepend_push(ts: Seq<TokenV>, t: TokenV, r: Result<Seq<TokenV>, LexErrorV>)
    ensures
        prepend_all(ts, prepend_token(t, r)) == prepend_all(ts.push(t), r),
{
    match r {
        Ok(rest) => {
            assert(ts + (seq![t] + rest) =~= ts.push(t) + rest);
        },
        Err(_) => {},
    }
}

/// A nonempty run of digits with at most one dot, standing alone, is
/// lexed to exactly its one numeric token and the end marker.
pub proof fn lemma_lex_number_literal(s: Seq<char>)
    requires
        valid_number(s),
    ensures
        lex_from(s, 0) == Ok::<Seq<TokenV>, LexErrorV>(seq![TokenV::Number(s), TokenV::Eof]),
{
    lemma_number_end_full(s, 0);
    assert(s.subrange(0, s.len() as int) =~= s);
    assert(lex_from(s, s.len() as int) == Ok::<Seq<TokenV>, LexErrorV>(seq![TokenV::Eof]));
    assert(seq![TokenV::Number(s)] + seq![TokenV::Eof] =~= seq![
        TokenV::Number(s),
        TokenV::Eof,
    ]);
}

/// A valid numeric run is lexed to its one numeric token, followed
/// immediately by whatever the rest of the text lexes to.
pub proof fn lemma_lex_number_prefix(s: Seq<char>, i: int)
    requires
        0 <= i < s.len(),
        digit_or_dot(s[i]),
        valid_number(s.subrange(i, number_end(s, i))),
    ensures
        lex_from(s, i) == prepend_token(
            TokenV::Number(s.subrange(i, number_end(s, i))),
            lex_from(s, number_end(s, i)),
        ),
{
    lemma_number_end(s, i);
}

proof fn lemma_number_end_full(s: Seq<char>, i: int)
    requires
        0 <= i <= s.len(),
        forall|k: int| i <= k < s.len() ==> digit_or_dot(#[trigger] s[k]),
    ensures
        number_end(s, i) == s.len(),
    decreases s.len() - i,
{
    if i < s.len() {
        lemma_number_end_full(s, i + 1);
    }
}

} // verus!
