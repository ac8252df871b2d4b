//! Tokens of the filter language and the lexer.
use crate::bytes::{digit_run, find_byte, is_digit, is_space};
use crate::datetime::{parsed_date_time, shifted_back, DateTime};
use crate::number::{decimal_units, Number};
use crate::pattern::{regex_accepts, Pattern};
use vstd::prelude::*;

verus! {

/// A token of the filter language.
#[derive(Debug)]
#[allow(non_camel_case_types)]
pub enum Token {
    WHERE,
    AND,
    OR,
    OpenBrace,
    CloseBrace,
    Identifier(Vec<u8>),
    String(Vec<u8>),
    Number(Number),
    Regex(Pattern),
    Date(DateTime),
    DESC,
    ASC,
    Less,
    Greater,
    Equal,
    LE,
    GE,
    NE,
}

/// A token with its text as byte sequences and a regular expression as its source.
#[allow(non_camel_case_types)]
pub enum TokenView {
    WHERE,
    AND,
    OR,
    OpenBrace,
    CloseBrace,
    Identifier(Seq<u8>),
    String(Seq<u8>),
    Number(Number),
    Regex(Seq<u8>),
    Date(DateTime),
    DESC,
    ASC,
    Less,
    Greater,
    Equal,
    LE,
    GE,
    NE,
}

impl View for Token {
    type V = TokenView;

    open spec fn view(&self) -> TokenView {
        match self {
            Token::WHERE => TokenView::WHERE,
            Token::AND => TokenView::AND,
            Token::OR => TokenView::OR,
            Token::OpenBrace => TokenView::OpenBrace,
            Token::CloseBrace => TokenView::CloseBrace,
            Token::Identifier(s) => TokenView::Identifier(s@),
            Token::String(s) => TokenView::String(s@),
            Token::Number(n) => TokenView::Number(*n),
            Token::Regex(p) => TokenView::Regex(p.source()),
            Token::Date(d) => TokenView::Date(*d),
            Token::DESC => TokenView::DESC,
            Token::ASC => TokenView::ASC,
            Token::Less => TokenView::Less,
            Token::Greater => TokenView::Greater,
            Token::Equal => TokenView::Equal,
            Token::LE => TokenView::LE,
            Token::GE => TokenView::GE,
            Token::NE => TokenView::NE,
        }
    }
}

impl Token {
    /// A token equal to this one.
    pub fn duplicate(&self) -> (r: Token)
        ensures
            r@ == self@,
    {
        match self {
            Token::WHERE => Token::WHERE,
            Token::AND => Token::AND,
            Token::OR => Token::OR,
            Token::OpenBrace => Token::OpenBrace,
            Token::CloseBrace => Token::CloseBrace,
            Token::Identifier(s) => Token::Identifier(copy_all(s)),
            Token::String(s) => Token::String(copy_all(s)),
            Token::Number(n) => Token::Number(*n),
            Token::Regex(p) => Token::Regex(p.duplicate()),
            Token::Date(d) => Token::Date(*d),
            Token::DESC => Token::DESC,
            Token::ASC => Token::ASC,
            Token::Less => Token::Less,
            Token::Greater => Token::Greater,
            Token::Equal => Token::Equal,
            Token::LE => Token::LE,
            Token::GE => Token::GE,
            Token::NE => Token::NE,
        }
    }
}

pub fn copy_all(s: &Vec<u8>) -> (r: Vec<u8>)
    ensures
        r@ == s@,
{
    let r = crate::bytes::copy_range(s.as_slice(), 0, s.len());
    assert(r@ =~= s@);
    r
}

/// Why a filter text was rejected.
#[derive(Debug)]
pub enum ParseError {
    UnexpectedToken(Token),
    UnexpectedChar(u8),
    UnexpectedEndOfInput,
    InvalidDate,
    RegexSyntax,
    FloatSyntax,
    TimeSyntax,
}

pub enum ParseErrorView {
    UnexpectedToken(TokenView),
    UnexpectedChar(u8),
    UnexpectedEndOfInput,
    InvalidDate,
    RegexSyntax,
    FloatSyntax,
    TimeSyntax,
}

impl View for ParseError {
    type V = ParseErrorView;

    open spec fn view(&self) -> ParseErrorView {
        match self {
            ParseError::UnexpectedToken(t) => ParseErrorView::UnexpectedToken(t@),
            ParseError::UnexpectedChar(c) => ParseErrorView::UnexpectedChar(*c),
            ParseError::UnexpectedEndOfInput => ParseErrorView::UnexpectedEndOfInput,
            ParseError::InvalidDate => ParseErrorView::InvalidDate,
            ParseError::RegexSyntax => ParseErrorView::RegexSyntax,
            ParseError::FloatSyntax => ParseErrorView::FloatSyntax,
            ParseError::TimeSyntax => ParseErrorView::TimeSyntax,
        }
    }
}

impl ParseError {
    /// A short description for the user.
    pub fn describe(&self) -> &'static str {
        match self {
            ParseError::UnexpectedToken(_) => "unexpected token",
            ParseError::UnexpectedChar(_) => "unexpected character",
            ParseError::UnexpectedEndOfInput => "unexpected end of input",
            ParseError::InvalidDate => "invalid date",
            ParseError::RegexSyntax => "regular expression syntax error",
            ParseError::FloatSyntax => "number syntax error",
            ParseError::TimeSyntax => "time syntax error",
        }
    }
}

pub open spec fn is_letter(c: u8) -> bool {
    (65 <= c <= 90) || (97 <= c <= 122)
}

pub open spec fn is_ident_byte(c: u8) -> bool {
    is_letter(c) || is_digit(c) || c == 95 || c == 58
}

/// End of the identifier whose later bytes start at `i`.
pub open spec fn ident_end(s: Seq<u8>, i: int) -> int
    decreases s.len() - i,
{
    if 0 <= i < s.len() && is_ident_byte(s[i]) {
        ident_end(s, i + 1)
    } else {
        i
    }
}

pub open spec fn word_token(w: Seq<u8>) -> TokenView {
    if w == seq![87u8, 72, 69, 82, 69] {
        TokenView::WHERE
    } else if w == seq![65u8, 78, 68] {
        TokenView::AND
    } else if w == seq![79u8, 82] {
        TokenView::OR
    } else if w == seq![68u8, 69, 83, 67] {
        TokenView::DESC
    } else if w == seq![65u8, 83, 67] {
        TokenView::ASC
    } else {
        TokenView::Identifier(w)
    }
}

/// Seconds in one of the units `s`, `m`, `h`, `d`, `w`.
pub open spec fn unit_seconds(u: u8) -> int {
    if u == 115 {
        1
    } else if u == 109 {
        60
    } else if u == 104 {
        3600
    } else if u == 100 {
        86400
    } else if u == 119 {
        604800
    } else {
        0
    }
}

/// The value of a date literal's text: `now`, `now-<N><unit>`, or
/// `YYYY-MM-DD HH:MM:SS`, with `now` the given moment. A shift whose seconds do not fit
/// in an `i64`, or that leaves the calendar's range, is an invalid date.
pub open spec fn date_literal(c: Seq<u8>, now: DateTime) -> Result<DateTime, ParseErrorView> {
    if c.len() >= 3 && c.subrange(0, 3) == seq![110u8, 111, 119] {
        if c.len() == 3 {
            Ok(now)
        } else if c[3] != 45 {
            Err(ParseErrorView::InvalidDate)
        } else {
            let j = digit_run(c, 4);
            if j == 4 {
                Err(ParseErrorView::FloatSyntax)
            } else if j >= c.len() {
                Err(ParseErrorView::UnexpectedEndOfInput)
            } else if unit_seconds(c[j]) == 0 {
                Err(ParseErrorView::UnexpectedChar(c[j]))
            } else if j + 1 < c.len() {
                Err(ParseErrorView::UnexpectedChar(c[j + 1]))
            } else if digits_value_of(c, 4, j) * unit_seconds(c[j]) > i64::MAX {
                Err(ParseErrorView::InvalidDate)
            } else {
                match shifted_back(now, digits_value_of(c, 4, j) * unit_seconds(c[j])) {
                    Some(d) => Ok(d),
                    None => Err(ParseErrorView::InvalidDate),
                }
            }
        }
    } else {
        match parsed_date_time(c) {
            Some(d) => Ok(d),
            None => Err(ParseErrorView::TimeSyntax),
        }
    }
}

pub open spec fn digits_value_of(c: Seq<u8>, from: int, to: int) -> int {
    crate::bytes::digits_value(c.subrange(from, to))
}

/// End of a number literal `[0-9]+(.[0-9]+)?` that starts at `i`.
pub open spec fn number_end(s: Seq<u8>, i: int) -> int {
    let j = digit_run(s, i);
    if j + 1 < s.len() && s[j] == 46 && is_digit(s[j + 1]) {
        digit_run(s, j + 1)
    } else {
        j
    }
}

/// Prepends `t` to a lexing outcome.
pub open spec fn cons(t: TokenView, rest: Result<Seq<TokenView>, ParseErrorView>) -> Result<
    Seq<TokenView>,
    ParseErrorView,
> {
    match rest {
        Ok(ts) => Ok(seq![t] + ts),
        Err(e) => Err(e),
    }
}

/// The tokens of `s[i..]`, with `now` the moment that date literals count from.
pub open spec fn lex(s: Seq<u8>, i: int, now: DateTime) -> Result<Seq<TokenView>, ParseErrorView>
    decreases s.len() - i,
{
    if i < 0 || i >= s.len() {
        Ok(Seq::empty())
    } else {
        let c = s[i];
        if is_letter(c) || c == 95 {
            let j = ident_end(s, i + 1);
            if i < j <= s.len() {
                cons(word_token(s.subrange(i, j)), lex(s, j, now))
            } else {
                Ok(Seq::empty())
            }
        } else if is_digit(c) {
            let j = number_end(s, i);
            if i < j <= s.len() {
                match decimal_units(s.subrange(i, j)) {
                    Some(u) => cons(TokenView::Number(Number { units: u as i128 }), lex(s, j, now)),
                    None => Err(ParseErrorView::FloatSyntax),
                }
            } else {
                Ok(Seq::empty())
            }
        } else if c == 34 || c == 39 || c == 47 {
            match find_byte(s, i + 1, c) {
                None => Err(ParseErrorView::UnexpectedEndOfInput),
                Some(e) => {
                    let body = s.subrange(i + 1, e);
                    if !(i < e < s.len()) {
                        Ok(Seq::empty())
                    } else if c == 34 {
                        cons(TokenView::String(body), lex(s, e + 1, now))
                    } else if c == 39 {
                        match date_literal(body, now) {
                            Ok(d) => cons(TokenView::Date(d), lex(s, e + 1, now)),
                            Err(x) => Err(x),
                        }
                    } else if regex_accepts(body) {
                        cons(TokenView::Regex(body), lex(s, e + 1, now))
                    } else {
                        Err(ParseErrorView::RegexSyntax)
                    }
                },
            }
        } else if c == 40 {
            cons(TokenView::OpenBrace, lex(s, i + 1, now))
        } else if c == 41 {
            cons(TokenView::CloseBrace, lex(s, i + 1, now))
        } else if c == 61 {
            cons(TokenView::Equal, lex(s, i + 1, now))
        } else if c == 62 || c == 60 {
            if i + 1 < s.len() && s[i + 1] == 61 {
                cons(if c == 62 { TokenView::GE } else { TokenView::LE }, lex(s, i + 2, now))
            } else {
                cons(if c == 62 { TokenView::Greater } else { TokenView::Less }, lex(s, i + 1, now))
            }
        } else if c == 33 {
            if i + 1 >= s.len() {
                Err(ParseErrorView::UnexpectedEndOfInput)
            } else if s[i + 1] == 61 {
                cons(TokenView::NE, lex(s, i + 2, now))
            } else {
                Err(ParseErrorView::UnexpectedChar(s[i + 1]))
            }
        } else if is_space(c) {
            lex(s, i + 1, now)
        } else {
            Err(ParseErrorView::UnexpectedChar(c))
        }
    }
}

} // verus!
