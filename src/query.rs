//! Compiled filter queries and the parser that builds them from tokens.
use crate::compiler::{views, Compiler};
use crate::pattern::Pattern;
use crate::token::{copy_all, lex, ParseError, ParseErrorView, Token, TokenView};
use vstd::prelude::*;
use vstd::string::StringSliceAdditionalSpecFns;

verus! {

/// A comparison operator of a condition.
#[derive(Clone, Copy, Debug, PartialEq, Eq, Structural)]
pub enum CmpOp {
    Equal,
    NE,
    Less,
    Greater,
    LE,
    GE,
}

/// A compiled query: an optional `WHERE` expression, or a free-text regular expression.
#[derive(Debug)]
pub enum Query {
    Expr(Option<Box<Query>>),
    Regex(Pattern),
    And(Box<Query>, Box<Query>),
    Or(Box<Query>, Box<Query>),
    Compare(CmpOp, Vec<u8>, Token),
}

pub enum QueryView {
    Expr(Option<Box<QueryView>>),
    Regex(Seq<u8>),
    And(Box<QueryView>, Box<QueryView>),
    Or(Box<QueryView>, Box<QueryView>),
    Compare(CmpOp, Seq<u8>, TokenView),
}

pub open spec fn query_view(q: &Query) -> QueryView
    decreases q,
{
    match q {
        Query::Expr(None) => QueryView::Expr(None),
        Query::Expr(Some(b)) => QueryView::Expr(Some(Box::new(query_view(b)))),
        Query::Regex(p) => QueryView::Regex(p.source()),
        Query::And(a, b) => QueryView::And(Box::new(query_view(a)), Box::new(query_view(b))),
        Query::Or(a, b) => QueryView::Or(Box::new(query_view(a)), Box::new(query_view(b))),
        Query::Compare(op, k, v) => QueryView::Compare(*op, k@, v@),
    }
}

impl View for Query {
    type V = QueryView;

    open spec fn view(&self) -> QueryView {
        query_view(self)
    }
}

pub open spec fn op_of(t: TokenView) -> Option<CmpOp> {
    match t {
        TokenView::Equal => Some(CmpOp::Equal),
        TokenView::NE => Some(CmpOp::NE),
        TokenView::Less => Some(CmpOp::Less),
        TokenView::Greater => Some(CmpOp::Greater),
        TokenView::LE => Some(CmpOp::LE),
        TokenView::GE => Some(CmpOp::GE),
        _ => None,
    }
}

/// A literal may follow the operator: a regular expression only after `=`.
pub open spec fn value_allowed(op: CmpOp, v: TokenView) -> bool {
    v is String || v is Number || v is Date || (v is Regex && op == CmpOp::Equal)
}

/// `expr := term (OR term)*` from token `i`: the expression and the index after it.
pub open spec fn parse_expr(t: Seq<TokenView>, i: int) -> Result<(QueryView, int), ParseErrorView>
    decreases t.len() - i, 3int,
{
    match parse_term(t, i) {
        Ok((a, j)) => if i < j <= t.len() {
            expr_rest(t, j, a)
        } else {
            Err(ParseErrorView::UnexpectedEndOfInput)
        },
        Err(e) => Err(e),
    }
}

/// The `(OR term)*` part from token `j`, with `acc` the expression so far.
pub open spec fn expr_rest(t: Seq<TokenView>, j: int, acc: QueryView) -> Result<
    (QueryView, int),
    ParseErrorView,
>
    decreases t.len() - j, 4int,
{
    if 0 <= j < t.len() && t[j] is OR {
        match parse_term(t, j + 1) {
            Ok((b, k)) => if j + 1 < k <= t.len() {
                expr_rest(t, k, QueryView::Or(Box::new(acc), Box::new(b)))
            } else {
                Err(ParseErrorView::UnexpectedEndOfInput)
            },
            Err(e) => Err(e),
        }
    } else {
        Ok((acc, j))
    }
}

/// `term := cond (AND cond)*` from token `i`.
pub open spec fn parse_term(t: Seq<TokenView>, i: int) -> Result<(QueryView, int), ParseErrorView>
    decreases t.len() - i, 2int,
{
    match parse_cond(t, i) {
        Ok((a, j)) => if i < j <= t.len() {
            term_rest(t, j, a)
        } else {
            Err(ParseErrorView::UnexpectedEndOfInput)
        },
        Err(e) => Err(e),
    }
}

/// The `(AND cond)*` part from token `j`, with `acc` the term so far.
pub open spec fn term_rest(t: Seq<TokenView>, j: int, acc: QueryView) -> Result<
    (QueryView, int),
    ParseErrorView,
>
    decreases t.len() - j, 2int,
{
    if 0 <= j < t.len() && t[j] is AND {
        match parse_cond(t, j + 1) {
            Ok((b, k)) => if j + 1 < k <= t.len() {
                term_rest(t, k, QueryView::And(Box::new(acc), Box::new(b)))
            } else {
                Err(ParseErrorView::UnexpectedEndOfInput)
            },
            Err(e) => Err(e),
        }
    } else {
        Ok((acc, j))
    }
}

/// `cond := "(" expr ")" | ident op value` from token `i`.
pub open spec fn parse_cond(t: Seq<TokenView>, i: int) -> Result<(QueryView, int), ParseErrorView>
    decreases t.len() - i, 1int,
{
    if i < 0 || i >= t.len() {
        Err(ParseErrorView::UnexpectedEndOfInput)
    } else {
        match t[i] {
            TokenView::OpenBrace => match parse_expr(t, i + 1) {
                Ok((e, j)) => if j >= t.len() {
                    Err(ParseErrorView::UnexpectedEndOfInput)
                } else if t[j] is CloseBrace {
                    Ok((e, j + 1))
                } else {
                    Err(ParseErrorView::UnexpectedToken(t[j]))
                },
                Err(x) => Err(x),
            },
            TokenView::Identifier(k) => if i + 1 >= t.len() {
                Err(ParseErrorView::UnexpectedEndOfInput)
            } else {
                match op_of(t[i + 1]) {
                    None => Err(ParseErrorView::UnexpectedToken(t[i + 1])),
                    Some(op) => if i + 2 >= t.len() {
                        Err(ParseErrorView::UnexpectedEndOfInput)
                    } else if value_allowed(op, t[i + 2]) {
                        Ok((QueryView::Compare(op, k, t[i + 2]), i + 3))
                    } else {
                        Err(ParseErrorView::UnexpectedToken(t[i + 2]))
                    },
                }
            },
            _ => Err(ParseErrorView::UnexpectedToken(t[i])),
        }
    }
}

/// `query := (WHERE expr)? | regex` over all of `t`.
pub open spec fn compile_tokens(t: Seq<TokenView>) -> Result<QueryView, ParseErrorView> {
    if t.len() == 0 {
        Ok(QueryView::Expr(None))
    } else {
        match t[0] {
            TokenView::WHERE => match parse_expr(t, 1) {
                Ok((e, j)) => if j >= t.len() {
                    Ok(QueryView::Expr(Some(Box::new(e))))
                } else {
                    Err(ParseErrorView::UnexpectedToken(t[j]))
                },
                Err(x) => Err(x),
            },
            TokenView::Regex(p) => if t.len() == 1 {
                Ok(QueryView::Regex(p))
            } else {
                Err(ParseErrorView::UnexpectedToken(t[1]))
            },
            _ => Err(ParseErrorView::UnexpectedToken(t[0])),
        }
    }
}

/// The query that the filter text `s` compiles to, with `now` the moment of compilation.
pub open spec fn compile_text(s: Seq<u8>, now: crate::datetime::DateTime) -> Result<
    QueryView,
    ParseErrorView,
> {
    match lex(s, 0, now) {
        Ok(t) => compile_tokens(t),
        Err(e) => Err(e),
    }
}

/// A successful parse moves forward and stays within the tokens.
proof fn lemma_expr_advances(t: Seq<TokenView>, i: int)
    requires
        0 <= i <= t.len(),
    ensures
        parse_expr(t, i) matches Ok((_, j)) ==> i < j <= t.len(),
    decreases t.len() - i, 3int,
{
    lemma_term_advances(t, i);
    if let Ok((a, j)) = parse_term(t, i) {
        if i < j <= t.len() {
            lemma_expr_rest_advances(t, j, a);
        }
    }
}

proof fn lemma_expr_rest_advances(t: Seq<TokenView>, j: int, acc: QueryView)
    requires
        0 <= j <= t.len(),
    ensures
        expr_rest(t, j, acc) matches Ok((_, k)) ==> j <= k <= t.len(),
    decreases t.len() - j, 4int,
{
    if 0 <= j < t.len() && t[j] is OR {
        lemma_term_advances(t, j + 1);
        if let Ok((b, k)) = parse_term(t, j + 1) {
            if j + 1 < k <= t.len() {
                lemma_expr_rest_advances(t, k, QueryView::Or(Box::new(acc), Box::new(b)));
            }
        }
    }
}

proof fn lemma_term_advances(t: Seq<TokenView>, i: int)
    requires
        0 <= i <= t.len(),
    ensures
        parse_term(t, i) matches Ok((_, j)) ==> i < j <= t.len(),
    decreases t.len() - i, 2int,
{
    lemma_cond_advances(t, i);
    if let Ok((a, j)) = parse_cond(t, i) {
        if i < j <= t.len() {
            lemma_term_rest_advances(t, j, a);
        }
    }
}

proof fn lemma_term_rest_advances(t: Seq<TokenView>, j: int, acc: QueryView)
    requires
        0 <= j <= t.len(),
    ensures
        term_rest(t, j, acc) matches Ok((_, k)) ==> j <= k <= t.len(),
    decreases t.len() - j, 2int,
{
    if 0 <= j < t.len() && t[j] is AND {
        lemma_cond_advances(t, j + 1);
        if let Ok((b, k)) = parse_cond(t, j + 1) {
            if j + 1 < k <= t.len() {
                lemma_term_rest_advances(t, k, QueryView::And(Box::new(acc), Box::new(b)));
            }
        }
    }
}

proof fn lemma_cond_advances(t: Seq<TokenView>, i: int)
    requires
        0 <= i <= t.len(),
    ensures
        parse_cond(t, i) matches Ok((_, j)) ==> i < j <= t.len(),
    decreases t.len() - i, 1int,
{
    if 0 <= i < t.len() && t[i] is OpenBrace {
        lemma_expr_advances(t, i + 1);
    }
}

/// The view of a parser outcome.
pub open spec fn outcome(r: Result<(Query, usize), ParseError>) -> Result<(QueryView, int), ParseErrorView> {
    match r {
        Ok((q, j)) => Ok((q@, j as int)),
        Err(e) => Err(e@),
    }
}

fn op_token(t: &Token) -> (r: Option<CmpOp>)
    ensures
        r == op_of(t@),
{
    match t {
        Token::Equal => Some(CmpOp::Equal),
        Token::NE => Some(CmpOp::NE),
        Token::Less => Some(CmpOp::Less),
        Token::Greater => Some(CmpOp::Greater),
        Token::LE => Some(CmpOp::LE),
        Token::GE => Some(CmpOp::GE),
        _ => None,
    }
}

impl Compiler {
    fn compile_expression(&self, toks: &Vec<Token>, i: usize) -> (r: Result<(Query, usize), ParseError>)
        requires
            i <= toks@.len(),
        ensures
            outcome(r) == parse_expr(views(toks@), i as int),
        decreases toks@.len() - i, 3int,
    {
        let ghost t = views(toks@);
        proof {
            lemma_term_advances(t, i as int);
        }
        let (mut ast, mut j) = match self.compile_term(toks, i) {
            Ok(x) => x,
            Err(e) => {
                return Err(e);
            },
        };
        while j < toks.len() && matches!(toks[j], Token::OR)
            invariant
                t == views(toks@),
                i < j <= toks@.len(),
                parse_expr(t, i as int) == expr_rest(t, j as int, ast@),
            decreases toks@.len() - j,
        {
            proof {
                lemma_term_advances(t, j + 1);
            }
            let (b, k) = match self.compile_term(toks, j + 1) {
                Ok(x) => x,
                Err(e) => {
                    return Err(e);
                },
            };
            ast = Query::Or(Box::new(ast), Box::new(b));
            j = k;
        }
        Ok((ast, j))
    }

    fn compile_term(&self, toks: &Vec<Token>, i: usize) -> (r: Result<(Query, usize), ParseError>)
        requires
            i <= toks@.len(),
        ensures
            outcome(r) == parse_term(views(toks@), i as int),
        decreases toks@.len() - i, 2int,
    {
        let ghost t = views(toks@);
        proof {
            lemma_cond_advances(t, i as int);
        }
        let (mut ast, mut j) = match self.compile_condition(toks, i) {
            Ok(x) => x,
            Err(e) => {
                return Err(e);
            },
        };
        while j < toks.len() && matches!(toks[j], Token::AND)
            invariant
                t == views(toks@),
                i < j <= toks@.len(),
                parse_term(t, i as int) == term_rest(t, j as int, ast@),
            decreases toks@.len() - j,
        {
            proof {
                lemma_cond_advances(t, j + 1);
            }
            let (b, k) = match self.compile_condition(toks, j + 1) {
                Ok(x) => x,
                Err(e) => {
                    return Err(e);
                },
            };
            ast = Query::And(Box::new(ast), Box::new(b));
            j = k;
        }
        Ok((ast, j))
    }

    fn compile_condition(&self, toks: &Vec<Token>, i: usize) -> (r: Result<(Query, usize), ParseError>)
        requires
            i <= toks@.len(),
        ensures
            outcome(r) == parse_cond(views(toks@), i as int),
        decreases toks@.len() - i, 1int,
    {
        let ghost t = views(toks@);
        if i >= toks.len() {
            return Err(ParseError::UnexpectedEndOfInput);
        }
        assert(t[i as int] == toks@[i as int]@);
        match &toks[i] {
            Token::OpenBrace => {
                match self.compile_expression(toks, i + 1) {
                    Ok((e, j)) => {
                        if j >= toks.len() {
                            Err(ParseError::UnexpectedEndOfInput)
                        } else if matches!(toks[j], Token::CloseBrace) {
                            assert(t[j as int] == toks@[j as int]@);
                            Ok((e, j + 1))
                        } else {
                            assert(t[j as int] == toks@[j as int]@);
                            Err(ParseError::UnexpectedToken(toks[j].duplicate()))
                        }
                    },
                    Err(x) => Err(x),
                }
            },
            Token::Identifier(k) => {
                if i + 1 >= toks.len() {
                    return Err(ParseError::UnexpectedEndOfInput);
                }
                assert(t[i + 1] == toks@[i + 1]@);
                match op_token(&toks[i + 1]) {
                    None => Err(ParseError::UnexpectedToken(toks[i + 1].duplicate())),
                    Some(op) => {
                        if i + 2 >= toks.len() {
                            return Err(ParseError::UnexpectedEndOfInput);
                        }
                        assert(t[i + 2] == toks@[i + 2]@);
                        let v = &toks[i + 2];
                        let allowed = match v {
                            Token::String(_) | Token::Number(_) | Token::Date(_) => true,
                            Token::Regex(_) => op == CmpOp::Equal,
                            _ => false,
                        };
                        if allowed {
                            Ok((Query::Compare(op, copy_all(k), v.duplicate()), i + 3))
                        } else {
                            Err(ParseError::UnexpectedToken(v.duplicate()))
                        }
                    },
                }
            },
            other => Err(ParseError::UnexpectedToken(other.duplicate())),
        }
    }

    /// Compiles the filter text `program` (see `compile_text`).
    pub fn compile(&self, program: &str) -> (r: Result<Query, ParseError>)
        requires
            self.now.valid(),
        ensures
            compile_text(program.spec_bytes(), self.now) == match r {
                Ok(q) => Ok::<QueryView, ParseErrorView>(q@),
                Err(e) => Err::<QueryView, ParseErrorView>(e@),
            },
    {
        let toks = match self.tokenize(program) {
            Ok(t) => t,
            Err(e) => {
                return Err(e);
            },
        };
        let ghost t = views(toks@);
        if toks.len() == 0 {
            return Ok(Query::Expr(None));
        }
        assert(t[0] == toks@[0]@);
        match &toks[0] {
            Token::WHERE => {
                match self.compile_expression(&toks, 1) {
                    Ok((e, j)) => {
                        if j >= toks.len() {
                            Ok(Query::Expr(Some(Box::new(e))))
                        } else {
                            assert(t[j as int] == toks@[j as int]@);
                            Err(ParseError::UnexpectedToken(toks[j].duplicate()))
                        }
                    },
                    Err(x) => Err(x),
                }
            },
            Token::Regex(p) => {
                if toks.len() == 1 {
                    Ok(Query::Regex(p.duplicate()))
                } else {
                    assert(t[1] == toks@[1]@);
                    Err(ParseError::UnexpectedToken(toks[1].duplicate()))
                }
            },
            other => Err(ParseError::UnexpectedToken(other.duplicate())),
        }
    }
}

/// Whether two tokens are equal, regular expressions compared by their source.
pub fn token_same(a: &Token, b: &Token) -> (r: bool)
    ensures
        r == (a@ == b@),
{
    match (a, b) {
        (Token::Identifier(x), Token::Identifier(y)) => crate::eval::bytes_equal(
            x.as_slice(),
            y.as_slice(),
        ),
        (Token::String(x), Token::String(y)) => crate::eval::bytes_equal(x.as_slice(), y.as_slice()),
        (Token::Number(x), Token::Number(y)) => x == y,
        (Token::Regex(x), Token::Regex(y)) => crate::eval::bytes_equal(
            x.as_bytes().as_slice(),
            y.as_bytes().as_slice(),
        ),
        (Token::Date(x), Token::Date(y)) => x == y,
        (Token::WHERE, Token::WHERE) | (Token::AND, Token::AND) | (Token::OR, Token::OR) | (
            Token::OpenBrace,
            Token::OpenBrace,
        ) | (Token::CloseBrace, Token::CloseBrace) | (Token::DESC, Token::DESC) | (
            Token::ASC,
            Token::ASC,
        ) | (Token::Less, Token::Less) | (Token::Greater, Token::Greater) | (
            Token::Equal,
            Token::Equal,
        ) | (Token::LE, Token::LE) | (Token::GE, Token::GE) | (Token::NE, Token::NE) => true,
        _ => false,
    }
}

impl Query {
    /// Whether two queries are the same, regular expressions compared by their source.
    pub fn same_as(&self, o: &Query) -> (r: bool)
        ensures
            r == (self@ == o@),
        decreases self,
    {
        match (self, o) {
            (Query::Expr(None), Query::Expr(None)) => true,
            (Query::Expr(Some(a)), Query::Expr(Some(b))) => a.same_as(b),
            (Query::Regex(p), Query::Regex(q)) => crate::eval::bytes_equal(
                p.as_bytes().as_slice(),
                q.as_bytes().as_slice(),
            ),
            (Query::And(a1, b1), Query::And(a2, b2)) => a1.same_as(a2) && b1.same_as(b2),
            (Query::Or(a1, b1), Query::Or(a2, b2)) => a1.same_as(a2) && b1.same_as(b2),
            (Query::Compare(op1, k1, v1), Query::Compare(op2, k2, v2)) => *op1 == *op2
                && crate::eval::bytes_equal(k1.as_slice(), k2.as_slice()) && token_same(v1, v2),
            _ => false,
        }
    }
}

} // verus!
