//! The parser: recursive descent over the token sequence, one precedence
//! level per procedure, producing one expression tree per call or a typed,
//! recoverable [`ParseError`].
//!
//! The mathematical model is the family `sp_expression` .. `sp_primary`:
//! spec-level recursive descent over the token views. Each executable level
//! is proved to return exactly what its spec counterpart says.

use vstd::prelude::*;
use vstd::string::StringExecFns;

use crate::expressions::expr::{Expr, SpecExpr};
use crate::scanner::tokens_view;
use crate::token::{lit_ok, wf_tokens, SpecLit, SpecToken, Token, TokenLiteral, TokenType};

verus! {

/// A recoverable syntax error: the offending token and a message.
#[derive(Debug)]
pub struct ParseError {
    pub token: Token,
    pub message: String,
}

/// The mathematical form of a parse error.
#[verifier::ext_equal]
pub struct SpecPErr {
    pub token: SpecToken,
    pub message: Seq<char>,
}

impl View for ParseError {
    type V = SpecPErr;

    open spec fn view(&self) -> SpecPErr {
        SpecPErr { token: self.token@, message: self.message@ }
    }
}

/// Whether the token at `i` exists, is not the end marker, and is of kind
/// `k`: the one-token lookahead test.
pub open spec fn sp_check(t: Seq<SpecToken>, i: int, k: TokenType) -> bool {
    0 <= i < t.len() && t[i].kind == k && k != TokenType::Eof
}

/// The token at `i`, when it exists.
pub open spec fn peek_at(t: Seq<SpecToken>, i: int) -> SpecToken {
    if 0 <= i < t.len() {
        t[i]
    } else {
        arbitrary()
    }
}

/// The greater of two positions; only used to justify termination, and
/// proved away wherever a parse makes progress.
pub open spec fn imax(a: int, b: int) -> int {
    if a >= b {
        a
    } else {
        b
    }
}

/// The position `k` held inside the sequence: at least `lo`, at most the
/// length. Like `imax`, only used to justify termination; wherever a parse
/// makes progress it equals `k` and is proved away.
pub open spec fn clamp_pos(t: Seq<SpecToken>, k: int, lo: int) -> int {
    if imax(k, lo) > t.len() {
        t.len() as int
    } else {
        imax(k, lo)
    }
}

/// A spec-level parse outcome: the tree and the next position, or an error.
pub type PR = Result<(SpecExpr, int), SpecPErr>;

/// `expression := equality`.
pub open spec fn sp_expression(t: Seq<SpecToken>, i: int) -> PR
    decreases imax(t.len() - i, 0), 13int,
{
    sp_equality(t, i)
}

/// `equality := comparison ( ( "!=" | "==" ) comparison )*`.
pub open spec fn sp_equality(t: Seq<SpecToken>, i: int) -> PR
    decreases imax(t.len() - i, 0), 12int,
{
    match sp_comparison(t, i) {
        Err(e) => Err(e),
        Ok((e0, j)) => sp_equality_rest(t, e0, clamp_pos(t, j, i + 1)),
    }
}

/// The left-associative fold of further `!=` / `==` operands onto `acc`.
pub open spec fn sp_equality_rest(t: Seq<SpecToken>, acc: SpecExpr, j: int) -> PR
    decreases imax(t.len() - j, 0), 11int,
{
    if sp_check(t, j, TokenType::BangEqual) || sp_check(t, j, TokenType::EqualEqual) {
        match sp_comparison(t, j + 1) {
            Err(e) => Err(e),
            Ok((r, k)) => sp_equality_rest(
                t,
                SpecExpr::Binary(Box::new(acc), t[j], Box::new(r)),
                clamp_pos(t, k, j + 2),
            ),
        }
    } else {
        Ok((acc, j))
    }
}

/// `comparison := term ( ( ">" | ">=" | "<" | "<=" ) term )*`.
pub open spec fn sp_comparison(t: Seq<SpecToken>, i: int) -> PR
    decreases imax(t.len() - i, 0), 10int,
{
    match sp_term(t, i) {
        Err(e) => Err(e),
        Ok((e0, j)) => sp_comparison_rest(t, e0, clamp_pos(t, j, i + 1)),
    }
}

/// The left-associative fold of further comparison operands onto `acc`.
pub open spec fn sp_comparison_rest(t: Seq<SpecToken>, acc: SpecExpr, j: int) -> PR
    decreases imax(t.len() - j, 0), 9int,
{
    if sp_check(t, j, TokenType::Greater) || sp_check(t, j, TokenType::GreaterEqual) || sp_check(
        t,
        j,
        TokenType::Less,
    ) || sp_check(t, j, TokenType::LessEqual) {
        match sp_term(t, j + 1) {
            Err(e) => Err(e),
            Ok((r, k)) => sp_comparison_rest(
                t,
                SpecExpr::Binary(Box::new(acc), t[j], Box::new(r)),
                clamp_pos(t, k, j + 2),
            ),
        }
    } else {
        Ok((acc, j))
    }
}

/// `term := factor ( ( "-" | "+" ) factor )*`.
pub open spec fn sp_term(t: Seq<SpecToken>, i: int) -> PR
    decreases imax(t.len() - i, 0), 8int,
{
    match sp_factor(t, i) {
        Err(e) => Err(e),
        Ok((e0, j)) => sp_term_rest(t, e0, clamp_pos(t, j, i + 1)),
    }
}

/// The left-associative fold of further `-` / `+` operands onto `acc`.
pub open spec fn sp_term_rest(t: Seq<SpecToken>, acc: SpecExpr, j: int) -> PR
    decreases imax(t.len() - j, 0), 7int,
{
    if sp_check(t, j, TokenType::Minus) || sp_check(t, j, TokenType::Plus) {
        match sp_factor(t, j + 1) {
            Err(e) => Err(e),
            Ok((r, k)) => sp_term_rest(
                t,
                SpecExpr::Binary(Box::new(acc), t[j], Box::new(r)),
                clamp_pos(t, k, j + 2),
            ),
        }
    } else {
        Ok((acc, j))
    }
}

/// `factor := unary ( ( "/" | "*" ) unary )*`.
pub open spec fn sp_factor(t: Seq<SpecToken>, i: int) -> PR
    decreases imax(t.len() - i, 0), 6int,
{
    match sp_unary(t, i) {
        Err(e) => Err(e),
        Ok((e0, j)) => sp_factor_rest(t, e0, clamp_pos(t, j, i + 1)),
    }
}

/// The left-associative fold of further `/` / `*` operands onto `acc`.
pub open spec fn sp_factor_rest(t: Seq<SpecToken>, acc: SpecExpr, j: int) -> PR
    decreases imax(t.len() - j, 0), 5int,
{
    if sp_check(t, j, TokenType::Slash) || sp_check(t, j, TokenType::Star) {
        match sp_unary(t, j + 1) {
            Err(e) => Err(e),
            Ok((r, k)) => sp_factor_rest(
                t,
                SpecExpr::Binary(Box::new(acc), t[j], Box::new(r)),
                clamp_pos(t, k, j + 2),
            ),
        }
    } else {
        Ok((acc, j))
    }
}

/// `unary := ( "!" | "-" ) unary | primary`: right-associative by direct
/// recursion.
pub open spec fn sp_unary(t: Seq<SpecToken>, i: int) -> PR
    decreases imax(t.len() - i, 0), 2int,
{
    if sp_check(t, i, TokenType::Bang) || sp_check(t, i, TokenType::Minus) {
        match sp_unary(t, i + 1) {
            Err(e) => Err(e),
            Ok((r, k)) => Ok((SpecExpr::Unary(t[i], Box::new(r)), k)),
        }
    } else {
        sp_primary(t, i)
    }
}

/// `primary := NUMBER | STRING | "true" | "false" | "nil" | "(" expression
/// ")"`. Anything else is the syntax error `Expect expression`; a grouping
/// without its closing parenthesis is `Expect ')' after expression`.
pub open spec fn sp_primary(t: Seq<SpecToken>, i: int) -> PR
    decreases imax(t.len() - i, 0), 0int,
{
    if sp_check(t, i, TokenType::False) {
        Ok((SpecExpr::Literal(SpecLit::False), i + 1))
    } else if sp_check(t, i, TokenType::True) {
        Ok((SpecExpr::Literal(SpecLit::True), i + 1))
    } else if sp_check(t, i, TokenType::Nil) {
        Ok((SpecExpr::Literal(SpecLit::Nil), i + 1))
    } else if sp_check(t, i, TokenType::String) || sp_check(t, i, TokenType::Number) {
        match t[i].lit {
            Some(l) => Ok((SpecExpr::Literal(l), i + 1)),
            None => Ok((SpecExpr::Literal(SpecLit::Nil), i + 1)),
        }
    } else if sp_check(t, i, TokenType::LeftParen) {
        match sp_expression(t, i + 1) {
            Err(e) => Err(e),
            Ok((inner, j)) => if sp_check(t, j, TokenType::RightParen) {
                Ok((SpecExpr::Grouping(Box::new(inner)), j + 1))
            } else {
                Err(
                    SpecPErr {
                        token: peek_at(t, j),
                        message: "Expect ')' after expression"@,
                    },
                )
            },
        }
    } else {
        Err(SpecPErr { token: peek_at(t, i), message: "Expect expression"@ })
    }
}

/// What every executable parse level promises: tokens untouched, the cursor
/// inside the sequence, and the result exactly the spec outcome `out` — the
/// tree view and new cursor on success, the error view on failure. Success
/// always consumes at least one token.
pub open spec fn parse_post(pre: Parse, post: Parse, r: Result<Expr, ParseError>, out: PR) -> bool {
    &&& post.tokens == pre.tokens
    &&& post.wf()
    &&& match r {
        Ok(e) => out == PR::Ok((e@, post.current as int)) && pre.current < post.current,
        Err(pe) => out == PR::Err(pe@),
    }
}

/// The parser state: the token sequence and the cursor into it.
pub struct Parse {
    pub tokens: Vec<Token>,
    pub current: usize,
}

impl Parse {
    /// The token views.
    pub open spec fn tv(self) -> Seq<SpecToken> {
        tokens_view(self.tokens@)
    }

    /// The tokens are fit for parsing and the cursor is in bounds.
    pub open spec fn wf(self) -> bool {
        wf_tokens(self.tv()) && self.current < self.tokens@.len()
    }

    /// Starts a parse at the first token.
    pub fn new(tokens: Vec<Token>) -> (r: Parse)
        requires
            wf_tokens(tokens_view(tokens@)),
        ensures
            r.wf(),
            r.tokens == tokens,
            r.current == 0,
    {
        Parse { tokens, current: 0 }
    }

    /// Parses one expression: exactly what `sp_expression` says for the
    /// tokens at the cursor — the tree on success, or the recoverable
    /// syntax error.
    pub fn expression(&mut self) -> (r: Result<Expr, ParseError>)
        requires
            old(self).wf(),
        ensures
            parse_post(
                *old(self),
                *final(self),
                r,
                sp_expression(old(self).tv(), old(self).current as int),
            ),
        decreases self.tokens@.len() - self.current, 6int,
    {
        self.equality()
    }

    #[verifier::rlimit(100)]
    fn equality(&mut self) -> (r: Result<Expr, ParseError>)
        requires
            old(self).wf(),
        ensures
            parse_post(
                *old(self),
                *final(self),
                r,
                sp_equality(old(self).tv(), old(self).current as int),
            ),
        decreases self.tokens@.len() - self.current, 5int,
    {
        let ghost t = self.tv();
        let ghost i0 = self.current as int;
        let mut expr = match self.comparison() {
            Ok(e) => e,
            Err(e) => {
                return Err(e);
            },
        };
        loop
            invariant
                self.wf(),
                self.tokens == old(self).tokens,
                t == self.tv(),
                i0 == old(self).current,
                t == old(self).tv(),
                i0 < self.current < self.tokens@.len(),
                sp_equality(t, i0) == sp_equality_rest(t, expr@, self.current as int),
            ensures
                self.wf(),
                self.tokens == old(self).tokens,
                t == self.tv(),
                i0 < self.current,
                sp_equality(t, i0) == PR::Ok((expr@, self.current as int)),
            decreases self.tokens@.len() - self.current,
        {
            let ghost j = self.current as int;
            if !self.match_tokens(vec![TokenType::BangEqual, TokenType::EqualEqual]) {
                proof {
                    assert(!sp_check(t, j, TokenType::BangEqual) && !sp_check(
                        t,
                        j,
                        TokenType::EqualEqual,
                    ));
                }
                break ;
            }
            let operator = self.previous().clone();
            let right = match self.comparison() {
                Ok(e) => e,
                Err(e) => {
                    return Err(e);
                },
            };
            expr = Expr::Binary(Box::new(expr), operator, Box::new(right));
        }
        Ok(expr)
    }

    #[verifier::rlimit(100)]
    fn comparison(&mut self) -> (r: Result<Expr, ParseError>)
        requires
            old(self).wf(),
        ensures
            parse_post(
                *old(self),
                *final(self),
                r,
                sp_comparison(old(self).tv(), old(self).current as int),
            ),
        decreases self.tokens@.len() - self.current, 4int,
    {
        let ghost t = self.tv();
        let ghost i0 = self.current as int;
        let mut expr = match self.term() {
            Ok(e) => e,
            Err(e) => {
                return Err(e);
            },
        };
        loop
            invariant
                self.wf(),
                self.tokens == old(self).tokens,
                t == self.tv(),
                i0 == old(self).current,
                t == old(self).tv(),
                i0 < self.current < self.tokens@.len(),
                sp_comparison(t, i0) == sp_comparison_rest(t, expr@, self.current as int),
            ensures
                self.wf(),
                self.tokens == old(self).tokens,
                t == self.tv(),
                i0 < self.current,
                sp_comparison(t, i0) == PR::Ok((expr@, self.current as int)),
            decreases self.tokens@.len() - self.current,
        {
            let ghost j = self.current as int;
            if !self.match_tokens(
                vec![
                    TokenType::Greater,
                    TokenType::GreaterEqual,
                    TokenType::Less,
                    TokenType::LessEqual,
                ],
            ) {
                proof {
                    assert(!sp_check(t, j, TokenType::Greater) && !sp_check(
                        t,
                        j,
                        TokenType::GreaterEqual,
                    ) && !sp_check(t, j, TokenType::Less) && !sp_check(t, j, TokenType::LessEqual));
                }
                break ;
            }
            let operator = self.previous().clone();
            let right = match self.term() {
                Ok(e) => e,
                Err(e) => {
                    return Err(e);
                },
            };
            expr = Expr::Binary(Box::new(expr), operator, Box::new(right));
        }
        Ok(expr)
    }

    #[verifier::rlimit(100)]
    fn term(&mut self) -> (r: Result<Expr, ParseError>)
        requires
            old(self).wf(),
        ensures
            parse_post(
                *old(self),
                *final(self),
                r,
                sp_term(old(self).tv(), old(self).current as int),
            ),
        decreases self.tokens@.len() - self.current, 3int,
    {
        let ghost t = self.tv();
        let ghost i0 = self.current as int;
        let mut expr = match self.factor() {
            Ok(e) => e,
            Err(e) => {
                return Err(e);
            },
        };
        loop
            invariant
                self.wf(),
                self.tokens == old(self).tokens,
                t == self.tv(),
                i0 == old(self).current,
                t == old(self).tv(),
                i0 < self.current < self.tokens@.len(),
                sp_term(t, i0) == sp_term_rest(t, expr@, self.current as int),
            ensures
                self.wf(),
                self.tokens == old(self).tokens,
                t == self.tv(),
                i0 < self.current,
                sp_term(t, i0) == PR::Ok((expr@, self.current as int)),
            decreases self.tokens@.len() - self.current,
        {
            let ghost j = self.current as int;
            if !self.match_tokens(vec![TokenType::Minus, TokenType::Plus]) {
                proof {
                    assert(!sp_check(t, j, TokenType::Minus) && !sp_check(t, j, TokenType::Plus));
                }
                break ;
            }
            let operator = self.previous().clone();
            let right = match self.factor() {
                Ok(e) => e,
                Err(e) => {
                    return Err(e);
                },
            };
            expr = Expr::Binary(Box::new(expr), operator, Box::new(right));
        }
        Ok(expr)
    }

    #[verifier::rlimit(100)]
    fn factor(&mut self) -> (r: Result<Expr, ParseError>)
        requires
            old(self).wf(),
        ensures
            parse_post(
                *old(self),
                *final(self),
                r,
                sp_factor(old(self).tv(), old(self).current as int),
            ),
        decreases self.tokens@.len() - self.current, 2int,
    {
        let ghost t = self.tv();
        let ghost i0 = self.current as int;
        let mut expr = match self.unary() {
            Ok(e) => e,
            Err(e) => {
                return Err(e);
            },
        };
        loop
            invariant
                self.wf(),
                self.tokens == old(self).tokens,
                t == self.tv(),
                i0 == old(self).current,
                t == old(self).tv(),
                i0 < self.current < self.tokens@.len(),
                sp_factor(t, i0) == sp_factor_rest(t, expr@, self.current as int),
            ensures
                self.wf(),
                self.tokens == old(self).tokens,
                t == self.tv(),
                i0 < self.current,
                sp_factor(t, i0) == PR::Ok((expr@, self.current as int)),
            decreases self.tokens@.len() - self.current,
        {
            let ghost j = self.current as int;
            if !self.match_tokens(vec![TokenType::Slash, TokenType::Star]) {
                proof {
                    assert(!sp_check(t, j, TokenType::Slash) && !sp_check(t, j, TokenType::Star));
                }
                break ;
            }
            let operator = self.previous().clone();
            let right = match self.unary() {
                Ok(e) => e,
                Err(e) => {
                    return Err(e);
                },
            };
            expr = Expr::Binary(Box::new(expr), operator, Box::new(right));
        }
        Ok(expr)
    }

    fn unary(&mut self) -> (r: Result<Expr, ParseError>)
        requires
            old(self).wf(),
        ensures
            parse_post(
                *old(self),
                *final(self),
                r,
                sp_unary(old(self).tv(), old(self).current as int),
            ),
        decreases self.tokens@.len() - self.current, 1int,
    {
        let ghost t = self.tv();
        let ghost i0 = self.current as int;
        if self.match_tokens(vec![TokenType::Bang, TokenType::Minus]) {
            let operator = self.previous().clone();
            let right = match self.unary() {
                Ok(e) => e,
                Err(e) => {
                    return Err(e);
                },
            };
            return Ok(Expr::Unary(operator, Box::new(right)));
        }
        proof {
            assert(!sp_check(t, i0, TokenType::Bang) && !sp_check(t, i0, TokenType::Minus));
        }
        self.primary()
    }

    fn primary(&mut self) -> (r: Result<Expr, ParseError>)
        requires
            old(self).wf(),
        ensures
            parse_post(
                *old(self),
                *final(self),
                r,
                sp_primary(old(self).tv(), old(self).current as int),
            ),
        decreases self.tokens@.len() - self.current, 0int,
    {
        let ghost t = self.tv();
        let ghost i0 = self.current as int;
        if self.match_tokens(vec![TokenType::False]) {
            return Ok(Expr::Literal(TokenLiteral::False));
        }
        if self.match_tokens(vec![TokenType::True]) {
            return Ok(Expr::Literal(TokenLiteral::True));
        }
        if self.match_tokens(vec![TokenType::Nil]) {
            return Ok(Expr::Literal(TokenLiteral::Nil));
        }
        if self.match_tokens(vec![TokenType::String, TokenType::Number]) {
            let prev = self.previous();
            let lit = match &prev.literal {
                Some(l) => l.clone(),
                None => {
                    proof {
                        assert(lit_ok(t[i0]));
                        assert(false);
                    }
                    TokenLiteral::Nil
                },
            };
            return Ok(Expr::Literal(lit));
        }
        if self.match_tokens(vec![TokenType::LeftParen]) {
            let expr = match self.expression() {
                Ok(e) => e,
                Err(e) => {
                    return Err(e);
                },
            };
            match self.consume(TokenType::RightParen, "Expect ')' after expression") {
                Ok(_) => {
                    return Ok(Expr::Grouping(Box::new(expr)));
                },
                Err(e) => {
                    return Err(e);
                },
            }
        }
        proof {
            assert(!sp_check(t, i0, TokenType::False) && !sp_check(t, i0, TokenType::True)
                && !sp_check(t, i0, TokenType::Nil) && !sp_check(t, i0, TokenType::String)
                && !sp_check(t, i0, TokenType::Number) && !sp_check(t, i0, TokenType::LeftParen));
        }
        Err(
            ParseError {
                token: self.peek().clone(),
                message: String::from_str("Expect expression"),
            },
        )
    }

    /// Consumes the next token when it is of the given kind; otherwise
    /// returns the syntax error with the given message at the current token.
    fn consume(&mut self, token_type: TokenType, message: &str) -> (r: Result<(), ParseError>)
        requires
            old(self).wf(),
        ensures
            final(self).tokens == old(self).tokens,
            final(self).wf(),
            ({
                let t = old(self).tv();
                let i = old(self).current as int;
                if sp_check(t, i, token_type) {
                    final(self).current == i + 1 && r is Ok
                } else {
                    &&& final(self).current == i
                    &&& match r {
                        Ok(_) => false,
                        Err(pe) => pe@ == (SpecPErr { token: t[i], message: message@ }),
                    }
                }
            }),
    {
        if self.check(&token_type) {
            self.advance();
            Ok(())
        } else {
            Err(
                ParseError {
                    token: self.peek().clone(),
                    message: String::from_str(message),
                },
            )
        }
    }

    /// Consumes the next token when its kind is any of the given ones.
    fn match_tokens(&mut self, token_types: Vec<TokenType>) -> (r: bool)
        requires
            old(self).wf(),
        ensures
            final(self).tokens == old(self).tokens,
            final(self).wf(),
            ({
                let t = old(self).tv();
                let i = old(self).current as int;
                if r {
                    final(self).current == i + 1 && (exists|m: int|
                        0 <= m < token_types@.len() && sp_check(t, i, token_types@[m]))
                } else {
                    final(self).current == i && (forall|m: int|
                        0 <= m < token_types@.len() ==> !sp_check(t, i, #[trigger] token_types@[m]))
                }
            }),
    {
        let ghost t = self.tv();
        let ghost i = self.current as int;
        let n = token_types.len();
        let mut k: usize = 0;
        while k < n
            invariant
                self.wf(),
                self.tokens == old(self).tokens,
                self.current == old(self).current,
                t == self.tv(),
                i == self.current as int,
                k <= n == token_types@.len(),
                forall|m: int| 0 <= m < k ==> !sp_check(t, i, #[trigger] token_types@[m]),
            decreases n - k,
        {
            if self.check(&token_types[k]) {
                self.advance();
                return true;
            }
            k += 1;
        }
        false
    }

    /// The most recently consumed token.
    fn previous(&self) -> (r: &Token)
        requires
            self.wf(),
            self.current >= 1,
        ensures
            *r == self.tokens@[self.current - 1],
            r@ == self.tv()[self.current - 1],
    {
        &self.tokens[self.current - 1]
    }

    /// Moves past the current token, unless it is the end marker.
    fn advance(&mut self)
        requires
            old(self).wf(),
        ensures
            final(self).tokens == old(self).tokens,
            final(self).wf(),
            final(self).current == if old(self).tv()[old(self).current as int].kind
                != TokenType::Eof {
                old(self).current + 1
            } else {
                old(self).current as int
            },
    {
        if !self.is_at_end() {
            let n = self.tokens.len();
            self.current += 1;
            proof {
                assert(self.tv()[n - 1].kind == TokenType::Eof);
            }
        }
    }

    /// Whether the current token is of the given kind (never true at the
    /// end marker).
    fn check(&self, token_type: &TokenType) -> (r: bool)
        requires
            self.wf(),
        ensures
            r == sp_check(self.tv(), self.current as int, *token_type),
    {
        if self.is_at_end() {
            false
        } else {
            self.peek().token_type == *token_type
        }
    }

    /// The current token.
    fn peek(&self) -> (r: &Token)
        requires
            self.wf(),
        ensures
            *r == self.tokens@[self.current as int],
            r@ == self.tv()[self.current as int],
    {
        &self.tokens[self.current]
    }

    /// Whether the cursor rests on the end-of-input marker.
    fn is_at_end(&self) -> (r: bool)
        requires
            self.wf(),
        ensures
            r == (self.tv()[self.current as int].kind == TokenType::Eof),
    {
        self.peek().token_type == TokenType::Eof
    }
}

} // verus!
