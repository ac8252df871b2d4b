//! The filter language compiler: lexing and parsing into a query.
use crate::bytes::{find_byte, is_digit, is_space, lemma_digit_run_bounds, position_of, scan_digits};
use crate::datetime::{minus_seconds, parse_date_time, DateTime};
use crate::number::Number;
use crate::pattern::Pattern;
use crate::token::{cons, date_literal, ident_end, is_ident_byte, is_letter, lex, number_end, unit_seconds, word_token, ParseError, ParseErrorView, Token, TokenView};
use vstd::prelude::*;
use vstd::string::StringSliceAdditionalSpecFns;

verus! {

/// The views of a sequence of tokens.
pub open spec fn views(ts: Seq<Token>) -> Seq<TokenView> {
    ts.map_values(|t: Token| t@)
}

/// `ts` followed by what `r` holds.
pub open spec fn after(ts: Seq<TokenView>, r: Result<Seq<TokenView>, ParseErrorView>) -> Result<
    Seq<TokenView>,
    ParseErrorView,
> {
    match r {
        Ok(x) => Ok(ts + x),
        Err(e) => Err(e),
    }
}

proof fn lemma_ident_end(s: Seq<u8>, i: int)
    requires
        0 <= i <= s.len(),
    ensures
        i <= ident_end(s, i) <= s.len(),
    decreases s.len() - i,
{
    if i < s.len() && is_ident_byte(s[i]) {
        lemma_ident_end(s, i + 1);
    }
}

proof fn lemma_find_byte(s: Seq<u8>, i: int, b: u8)
    requires
        0 <= i,
    ensures
        find_byte(s, i, b) matches Some(k) ==> i <= k < s.len() && s[k] == b,
    decreases s.len() - i,
{
    if 0 <= i < s.len() && s[i] != b {
        lemma_find_byte(s, i + 1, b);
    }
}

proof fn lemma_after_cons(ts: Seq<TokenView>, t: TokenView, r: Result<Seq<TokenView>, ParseErrorView>)
    ensures
        after(ts, cons(t, r)) == after(ts + seq![t], r),
{
    if let Ok(x) = r {
        assert(ts + (seq![t] + x) =~= (ts + seq![t]) + x);
    }
}

/// Compiles filter texts; date literals count from the moment it was made at.
pub struct Compiler {
    pub now: DateTime,
}

fn scan_ident(s: &[u8], i: usize) -> (r: usize)
    requires
        i <= s@.len(),
    ensures
        r == ident_end(s@, i as int),
        i <= r <= s@.len(),
{
    let mut j = i;
    while j < s.len() && ((65 <= s[j] && s[j] <= 90) || (97 <= s[j] && s[j] <= 122) || (48 <= s[j]
        && s[j] <= 57) || s[j] == 95 || s[j] == 58)
        invariant
            i <= j <= s@.len(),
            ident_end(s@, j as int) == ident_end(s@, i as int),
        decreases s@.len() - j,
    {
        j = j + 1;
    }
    j
}

fn keyword_or_ident(w: Vec<u8>) -> (r: Token)
    ensures
        r@ == word_token(w@),
{
    let n = w.len();
    if n == 5 && w[0] == 87 && w[1] == 72 && w[2] == 69 && w[3] == 82 && w[4] == 69 {
        assert(w@ =~= seq![87u8, 72, 69, 82, 69]);
        Token::WHERE
    } else if n == 3 && w[0] == 65 && w[1] == 78 && w[2] == 68 {
        assert(w@ =~= seq![65u8, 78, 68]);
        Token::AND
    } else if n == 2 && w[0] == 79 && w[1] == 82 {
        assert(w@ =~= seq![79u8, 82]);
        Token::OR
    } else if n == 4 && w[0] == 68 && w[1] == 69 && w[2] == 83 && w[3] == 67 {
        assert(w@ =~= seq![68u8, 69, 83, 67]);
        Token::DESC
    } else if n == 3 && w[0] == 65 && w[1] == 83 && w[2] == 67 {
        assert(w@ =~= seq![65u8, 83, 67]);
        Token::ASC
    } else {
        proof {
            if w@ == seq![87u8, 72, 69, 82, 69] {
                assert(w@[0] == 87 && w@[4] == 69);
            }
            if w@ == seq![65u8, 78, 68] {
                assert(w@[0] == 65 && w@[2] == 68);
            }
            if w@ == seq![79u8, 82] {
                assert(w@[1] == 82);
            }
            if w@ == seq![68u8, 69, 83, 67] {
                assert(w@[3] == 67);
            }
            if w@ == seq![65u8, 83, 67] {
                assert(w@[1] == 83);
            }
        }
        Token::Identifier(w)
    }
}

fn unit_of(u: u8) -> (r: i64)
    ensures
        r == unit_seconds(u),
{
    if u == 115 {
        1
    } else if u == 109 {
        60
    } else if u == 104 {
        3600
    } else if u == 100 {
        86400
    } else if u == 119 {
        604800
    } else {
        0
    }
}

impl Compiler {
    /// A compiler whose `now` is the current local time.
    pub fn new() -> (r: Compiler)
        ensures
            r.now.valid(),
    {
        Compiler { now: DateTime::now() }
    }

    /// A compiler whose `now` is the given moment.
    pub fn at(now: DateTime) -> (r: Compiler)
        ensures
            r.now == now,
    {
        Compiler { now }
    }

    /// The value of a date literal's text (see `date_literal`).
    pub fn parse_date(&self, c: &[u8]) -> (r: Result<DateTime, ParseError>)
        requires
            self.now.valid(),
        ensures
            date_literal(c@, self.now) == match r {
                Ok(d) => Ok::<DateTime, ParseErrorView>(d),
                Err(e) => Err::<DateTime, ParseErrorView>(e@),
            },
    {
        if c.len() >= 3 && c[0] == 110 && c[1] == 111 && c[2] == 119 {
            assert(c@.subrange(0, 3) =~= seq![110u8, 111, 119]);
            if c.len() == 3 {
                return Ok(self.now);
            }
            if c[3] != 45 {
                return Err(ParseError::InvalidDate);
            }
            let j = scan_digits(c, 4);
            proof {
                lemma_digit_run_bounds(c@, 4);
            }
            if j == 4 {
                return Err(ParseError::FloatSyntax);
            }
            if j >= c.len() {
                return Err(ParseError::UnexpectedEndOfInput);
            }
            let unit = unit_of(c[j]);
            if unit == 0 {
                return Err(ParseError::UnexpectedChar(c[j]));
            }
            if j + 1 < c.len() {
                return Err(ParseError::UnexpectedChar(c[j + 1]));
            }
            let n = match crate::bytes::digits_up_to(c, 4, j, 9_223_372_036_854_775_807) {
                Some(n) => n,
                None => {
                    proof {
                        lemma_digit_run_bounds(c@, 4);
                    }
                    assert(crate::token::digits_value_of(c@, 4, j as int) * unit_seconds(c@[j as int])
                        > i64::MAX) by (nonlinear_arith)
                        requires
                            crate::token::digits_value_of(c@, 4, j as int) > i64::MAX,
                            unit_seconds(c@[j as int]) >= 1,
                    ;
                    return Err(ParseError::InvalidDate);
                },
            };
            let prod: i128 = n as i128 * unit as i128;
            if prod > 9_223_372_036_854_775_807 {
                return Err(ParseError::InvalidDate);
            }
            let secs = prod as i64;
            match minus_seconds(self.now, secs) {
                Some(d) => Ok(d),
                None => Err(ParseError::InvalidDate),
            }
        } else {
            proof {
                if c@.len() >= 3 && c@.subrange(0, 3) == seq![110u8, 111, 119] {
                    assert(c@[0] == c@.subrange(0, 3)[0]);
                    assert(c@[1] == c@.subrange(0, 3)[1]);
                    assert(c@[2] == c@.subrange(0, 3)[2]);
                }
            }
            match parse_date_time(c) {
                Ok(d) => Ok(d),
                Err(_) => Err(ParseError::TimeSyntax),
            }
        }
    }

    /// The tokens of `program` (see `lex`).
    pub fn tokenize(&self, program: &str) -> (r: Result<Vec<Token>, ParseError>)
        requires
            self.now.valid(),
        ensures
            lex(program.spec_bytes(), 0, self.now) == match r {
                Ok(ts) => Ok::<Seq<TokenView>, ParseErrorView>(views(ts@)),
                Err(e) => Err::<Seq<TokenView>, ParseErrorView>(e@),
            },
    {
        let s = program.as_bytes();
        let ghost sb = s@;
        assert(sb == program.spec_bytes());
        let mut tokens: Vec<Token> = Vec::new();
        let mut i: usize = 0;
        while i < s.len()
            invariant
                s@ == sb,
                sb == program.spec_bytes(),
                self.now.valid(),
                i <= s@.len(),
                lex(sb, 0, self.now) == after(views(tokens@), lex(sb, i as int, self.now)),
            decreases s@.len() - i,
        {
            let c = s[i];
            let ghost t0 = tokens@;
            if (65 <= c && c <= 90) || (97 <= c && c <= 122) || c == 95 {
                let j = scan_ident(s, i + 1);
                proof {
                    lemma_ident_end(sb, i + 1);
                }
                let w = crate::bytes::copy_range(s, i, j);
                let tok = keyword_or_ident(w);
                proof {
                    assert(views(t0.push(tok)) =~= views(t0) + seq![tok@]);
                }
                let ghost tv = tok@;
                tokens.push(tok);
                i = j;
                proof {
                    lemma_after_cons(views(t0), tv, lex(sb, i as int, self.now));
                }
            } else if 48 <= c && c <= 57 {
                let d = scan_digits(s, i);
                proof {
                    lemma_digit_run_bounds(sb, i as int);
                }
                let j = if d < s.len() && s.len() - d > 1 && s[d] == 46 && 48 <= s[d + 1] && s[d + 1] <= 57 {
                    proof {
                        lemma_digit_run_bounds(sb, d + 1);
                    }
                    scan_digits(s, d + 1)
                } else {
                    d
                };
                assert(j == number_end(sb, i as int));
                match Number::parse(crate::bytes::copy_range(s, i, j).as_slice()) {
                    Some(n) => {
                        let tok = Token::Number(n);
                        proof {
                            assert(views(t0.push(tok)) =~= views(t0) + seq![tok@]);
                        }
                        let ghost tv = tok@;
                        tokens.push(tok);
                        i = j;
                        proof {
                            lemma_after_cons(views(t0), tv, lex(sb, i as int, self.now));
                        }
                    },
                    None => {
                        return Err(ParseError::FloatSyntax);
                    },
                }
            } else if c == 34 || c == 39 || c == 47 {
                proof {
                    lemma_find_byte(sb, i + 1, c);
                }
                match position_of(s, i + 1, c) {
                    None => {
                        return Err(ParseError::UnexpectedEndOfInput);
                    },
                    Some(e) => {
                        let body = crate::bytes::copy_range(s, i + 1, e);
                        let tok = if c == 34 {
                            Token::String(body)
                        } else if c == 39 {
                            match self.parse_date(body.as_slice()) {
                                Ok(d) => Token::Date(d),
                                Err(x) => {
                                    return Err(x);
                                },
                            }
                        } else {
                            match Pattern::new(body) {
                                Ok(p) => Token::Regex(p),
                                Err(_) => {
                                    return Err(ParseError::RegexSyntax);
                                },
                            }
                        };
                        proof {
                            assert(views(t0.push(tok)) =~= views(t0) + seq![tok@]);
                        }
                        let ghost tv = tok@;
                        tokens.push(tok);
                        i = e + 1;
                        proof {
                            lemma_after_cons(views(t0), tv, lex(sb, i as int, self.now));
                        }
                    },
                }
            } else if c == 40 || c == 41 || c == 61 {
                let tok = if c == 40 {
                    Token::OpenBrace
                } else if c == 41 {
                    Token::CloseBrace
                } else {
                    Token::Equal
                };
                proof {
                    assert(views(t0.push(tok)) =~= views(t0) + seq![tok@]);
                }
                let ghost tv = tok@;
                tokens.push(tok);
                i = i + 1;
                proof {
                    lemma_after_cons(views(t0), tv, lex(sb, i as int, self.now));
                }
            } else if c == 62 || c == 60 {
                if i + 1 < s.len() && s[i + 1] == 61 {
                    let tok = if c == 62 {
                        Token::GE
                    } else {
                        Token::LE
                    };
                    proof {
                        assert(views(t0.push(tok)) =~= views(t0) + seq![tok@]);
                    }
                    let ghost tv = tok@;
                    tokens.push(tok);
                    i = i + 2;
                    proof {
                        lemma_after_cons(views(t0), tv, lex(sb, i as int, self.now));
                    }
                } else {
                    let tok = if c == 62 {
                        Token::Greater
                    } else {
                        Token::Less
                    };
                    proof {
                        assert(views(t0.push(tok)) =~= views(t0) + seq![tok@]);
                    }
                    let ghost tv = tok@;
                    tokens.push(tok);
                    i = i + 1;
                    proof {
                        lemma_after_cons(views(t0), tv, lex(sb, i as int, self.now));
                    }
                }
            } else if c == 33 {
                if i + 1 >= s.len() {
                    return Err(ParseError::UnexpectedEndOfInput);
                } else if s[i + 1] == 61 {
                    let tok = Token::NE;
                    proof {
                        assert(views(t0.push(tok)) =~= views(t0) + seq![tok@]);
                    }
                    let ghost tv = tok@;
                    tokens.push(tok);
                    i = i + 2;
                    proof {
                        lemma_after_cons(views(t0), tv, lex(sb, i as int, self.now));
                    }
                } else {
                    return Err(ParseError::UnexpectedChar(s[i + 1]));
                }
            } else if c == 32 || c == 9 || c == 10 || c == 13 || c == 11 || c == 12 {
                i = i + 1;
            } else {
                assert(!is_letter(c) && c != 95 && !is_digit(c));
                assert(!is_space(c));
                return Err(ParseError::UnexpectedChar(c));
            }
        }
        assert(views(tokens@) + Seq::<TokenView>::empty() =~= views(tokens@));
        Ok(tokens)
    }
}

} // verus!
