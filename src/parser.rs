use vstd::prelude::*;

use crate::expression::{ExprModel, Expression, LiteralValue, is_literal_token, token_value};
use crate::token::{Token, TokenModel, TokenType, token_models};

verus! {

/// The kind of the token at `i`; past the end of the sequence, end-of-input.
pub open spec fn kind_at(ts: Seq<TokenModel>, i: int) -> TokenType {
    if 0 <= i < ts.len() {
        ts[i].kind
    } else {
        TokenType::Eof
    }
}

/// Whether every number and string token carries a payload of its kind.
pub open spec fn literal_payloads(ts: Seq<TokenModel>) -> bool {
    forall|i: int|
        0 <= i < ts.len() && (ts[i].kind == TokenType::Number || ts[i].kind
            == TokenType::StringLiteral) ==> is_literal_token(#[trigger] ts[i])
}

pub open spec fn is_equality_op(k: TokenType) -> bool {
    k == TokenType::BangEqual || k == TokenType::EqualEqual
}

pub open spec fn is_comparison_op(k: TokenType) -> bool {
    k == TokenType::Greater || k == TokenType::GreaterEqual || k == TokenType::Less || k
        == TokenType::LessEqual
}

pub open spec fn is_term_op(k: TokenType) -> bool {
    k == TokenType::Minus || k == TokenType::Plus
}

pub open spec fn is_factor_op(k: TokenType) -> bool {
    k == TokenType::Slash || k == TokenType::Star
}

pub open spec fn is_unary_op(k: TokenType) -> bool {
    k == TokenType::Bang || k == TokenType::BangEqual
}

pub open spec fn is_literal_kind(k: TokenType) -> bool {
    k == TokenType::False || k == TokenType::True || k == TokenType::Nil || k == TokenType::Number
        || k == TokenType::StringLiteral
}

/// An expression and the position after it, or a syntax error's message and
/// the position of the token at which it arose.
pub type Parsed = Result<(ExprModel, int), (Seq<char>, int)>;

pub open spec fn binary(left: ExprModel, operator: TokenModel, right: ExprModel) -> ExprModel {
    ExprModel::Binary { left: Box::new(left), operator, right: Box::new(right) }
}

/// expression → equality
pub open spec fn parse_expression(ts: Seq<TokenModel>, pos: int) -> Parsed
    decreases ts.len() - pos, 7nat,
{
    parse_equality(ts, pos)
}

/// equality → comparison ( ("!=" | "==") comparison )*
pub open spec fn parse_equality(ts: Seq<TokenModel>, pos: int) -> Parsed
    decreases ts.len() - pos, 6nat,
{
    match parse_comparison(ts, pos) {
        Ok((e, p)) => if p < pos || p > ts.len() {
            Err((seq![], pos))
        } else {
            equality_rest(ts, p, e)
        },
        Err(m) => Err(m),
    }
}

pub open spec fn equality_rest(ts: Seq<TokenModel>, p: int, left: ExprModel) -> Parsed
    decreases ts.len() - p, 0nat,
{
    if is_equality_op(kind_at(ts, p)) {
        match parse_comparison(ts, p + 1) {
            Ok((r, q)) => if q <= p || q > ts.len() {
                Err((seq![], p))
            } else {
                equality_rest(ts, q, binary(left, ts[p], r))
            },
            Err(m) => Err(m),
        }
    } else {
        Ok((left, p))
    }
}

/// comparison → term ( (">" | ">=" | "<" | "<=") term )*
pub open spec fn parse_comparison(ts: Seq<TokenModel>, pos: int) -> Parsed
    decreases ts.len() - pos, 5nat,
{
    match parse_term(ts, pos) {
        Ok((e, p)) => if p < pos || p > ts.len() {
            Err((seq![], pos))
        } else {
            comparison_rest(ts, p, e)
        },
        Err(m) => Err(m),
    }
}

pub open spec fn comparison_rest(ts: Seq<TokenModel>, p: int, left: ExprModel) -> Parsed
    decreases ts.len() - p, 0nat,
{
    if is_comparison_op(kind_at(ts, p)) {
        match parse_term(ts, p + 1) {
            Ok((r, q)) => if q <= p || q > ts.len() {
                Err((seq![], p))
            } else {
                comparison_rest(ts, q, binary(left, ts[p], r))
            },
            Err(m) => Err(m),
        }
    } else {
        Ok((left, p))
    }
}

/// term → factor ( ("-" | "+") factor )*
pub open spec fn parse_term(ts: Seq<TokenModel>, pos: int) -> Parsed
    decreases ts.len() - pos, 4nat,
{
    match parse_factor(ts, pos) {
        Ok((e, p)) => if p < pos || p > ts.len() {
            Err((seq![], pos))
        } else {
            term_rest(ts, p, e)
        },
        Err(m) => Err(m),
    }
}

pub open spec fn term_rest(ts: Seq<TokenModel>, p: int, left: ExprModel) -> Parsed
    decreases ts.len() - p, 0nat,
{
    if is_term_op(kind_at(ts, p)) {
        match parse_factor(ts, p + 1) {
            Ok((r, q)) => if q <= p || q > ts.len() {
                Err((seq![], p))
            } else {
                term_rest(ts, q, binary(left, ts[p], r))
            },
            Err(m) => Err(m),
        }
    } else {
        Ok((left, p))
    }
}

/// factor → unary ( ("/" | "*") unary )*
pub open spec fn parse_factor(ts: Seq<TokenModel>, pos: int) -> Parsed
    decreases ts.len() - pos, 3nat,
{
    match parse_unary(ts, pos) {
        Ok((e, p)) => if p < pos || p > ts.len() {
            Err((seq![], pos))
        } else {
            factor_rest(ts, p, e)
        },
        Err(m) => Err(m),
    }
}

pub open spec fn factor_rest(ts: Seq<TokenModel>, p: int, left: ExprModel) -> Parsed
    decreases ts.len() - p, 0nat,
{
    if is_factor_op(kind_at(ts, p)) {
        match parse_unary(ts, p + 1) {
            Ok((r, q)) => if q <= p || q > ts.len() {
                Err((seq![], p))
            } else {
                factor_rest(ts, q, binary(left, ts[p], r))
            },
            Err(m) => Err(m),
        }
    } else {
        Ok((left, p))
    }
}

/// unary → ("!" | "!=") unary | primary
pub open spec fn parse_unary(ts: Seq<TokenModel>, pos: int) -> Parsed
    decreases ts.len() - pos, 2nat,
{
    if is_unary_op(kind_at(ts, pos)) {
        match parse_unary(ts, pos + 1) {
            Ok((r, q)) => Ok((ExprModel::Unary { operator: ts[pos], right: Box::new(r) }, q)),
            Err(m) => Err(m),
        }
    } else {
        parse_primary(ts, pos)
    }
}

/// primary → NUMBER | STRING | "true" | "false" | "nil" | "(" expression ")"
pub open spec fn parse_primary(ts: Seq<TokenModel>, pos: int) -> Parsed
    decreases ts.len() - pos, 1nat,
{
    let k = kind_at(ts, pos);
    if k == TokenType::LeftParen {
        match parse_expression(ts, pos + 1) {
            Ok((e, p)) => if kind_at(ts, p) == TokenType::RightParen {
                Ok((ExprModel::Grouping { inner: Box::new(e) }, p + 1))
            } else {
                Err(("Expected ')'"@, p))
            },
            Err(m) => Err(m),
        }
    } else if is_literal_kind(k) {
        Ok((ExprModel::Literal { value: token_value(ts[pos]) }, pos + 1))
    } else {
        Err(("Expected expression"@, pos))
    }
}

/// Whether a token kind begins a statement.
pub open spec fn is_statement_start(k: TokenType) -> bool {
    k == TokenType::Class || k == TokenType::Function || k == TokenType::Variable || k
        == TokenType::For || k == TokenType::If || k == TokenType::While || k == TokenType::Say
        || k == TokenType::Return
}

/// Where recovery that has reached `p` stops: at end-of-input, just past a
/// `;`, or at a token that begins a statement.
pub open spec fn sync_from(ts: Seq<TokenModel>, p: int) -> int
    decreases ts.len() - p,
{
    if kind_at(ts, p) == TokenType::Eof {
        p
    } else if kind_at(ts, p - 1) == TokenType::SemiColon {
        p
    } else if is_statement_start(kind_at(ts, p)) {
        p
    } else {
        sync_from(ts, p + 1)
    }
}

/// Where recovery from a syntax error at `cur` stops: it first steps past the
/// offending token.
pub open spec fn sync_target(ts: Seq<TokenModel>, cur: int) -> int {
    sync_from(
        ts,
        if kind_at(ts, cur) == TokenType::Eof {
            cur
        } else {
            cur + 1
        },
    )
}

/// What parsing a whole token sequence from its start gives.
pub open spec fn parse_tokens(ts: Seq<TokenModel>) -> Result<ExprModel, Seq<char>> {
    match parse_expression(ts, 0) {
        Ok((e, _)) => Ok(e),
        Err((m, _)) => Err(m),
    }
}

/// Whether `r` is what the production `spec_result` gives, for a parser that
/// now stands at `pos`.
pub open spec fn agrees(spec_result: Parsed, r: Result<Expression, String>, pos: int) -> bool {
    match spec_result {
        Ok((e, p)) => r matches Ok(x) && x@ == e && pos == p,
        Err((m, q)) => r matches Err(x) && x@ == m && pos == q,
    }
}

pub struct Parser {
    tokens: Vec<Token>,
    current: usize,
}

impl Parser {
    /// The token sequence.
    pub closed spec fn token_list(&self) -> Seq<TokenModel> {
        token_models(self.tokens@)
    }

    /// The position of the cursor in the token sequence.
    pub closed spec fn position(&self) -> int {
        self.current as int
    }

    /// Whether the cursor lies within the sequence, and the literal tokens carry payloads.
    pub closed spec fn wf(&self) -> bool {
        &&& self.current <= self.tokens@.len()
        &&& literal_payloads(self.token_list())
    }

    /// Whether this parser has the tokens of `old` and a cursor that has not gone back.
    closed spec fn moved_on(&self, old: &Parser) -> bool {
        &&& self.tokens@ == old.tokens@
        &&& old.current <= self.current <= self.tokens@.len()
    }

    /// A parser at the start of `tokens`.
    pub fn new(tokens: Vec<Token>) -> (r: Self)
        ensures
            r.token_list() == token_models(tokens@),
            r.position() == 0,
            r.wf() == literal_payloads(token_models(tokens@)),
    {
        Self { tokens, current: 0 }
    }

    /// Parses one expression from the cursor on.
    pub fn parse(&mut self) -> (r: Result<Expression, String>)
        requires
            old(self).wf(),
        ensures
            final(self).wf(),
            final(self).token_list() == old(self).token_list(),
            agrees(
                parse_expression(old(self).token_list(), old(self).position()),
                r,
                final(self).position(),
            ),
    {
        self.expression()
    }

    fn expression(&mut self) -> (r: Result<Expression, String>)
        requires
            old(self).wf(),
        ensures
            final(self).wf(),
            final(self).moved_on(old(self)),
            agrees(
                parse_expression(old(self).token_list(), old(self).current as int),
                r,
                final(self).current as int,
            ),
        decreases old(self).tokens@.len() - old(self).current, 7nat,
    {
        self.equality()
    }

    fn peek(&self) -> (r: TokenType)
        ensures
            r == kind_at(self.token_list(), self.current as int),
    {
        if self.current < self.tokens.len() {
            self.tokens[self.current].token_type
        } else {
            TokenType::Eof
        }
    }

    fn previous(&self) -> (r: Token)
        requires
            1 <= self.current <= self.tokens@.len(),
        ensures
            r@ == self.token_list()[self.current - 1],
    {
        self.tokens[self.current - 1].duplicate()
    }

    fn is_at_end(&self) -> (r: bool)
        ensures
            r == (kind_at(self.token_list(), self.current as int) == TokenType::Eof),
    {
        self.peek() == TokenType::Eof
    }

    fn advance(&mut self)
        requires
            old(self).current <= old(self).tokens@.len(),
        ensures
            final(self).tokens@ == old(self).tokens@,
            final(self).current == if kind_at(old(self).token_list(), old(self).current as int)
                == TokenType::Eof {
                old(self).current as int
            } else {
                old(self).current + 1
            },
    {
        if self.current < self.tokens.len() && !self.is_at_end() {
            self.current = self.current + 1;
        }
    }

    fn consume(&mut self, token_type: TokenType, msg: &str) -> (r: Result<(), String>)
        requires
            old(self).current <= old(self).tokens@.len(),
        ensures
            final(self).tokens@ == old(self).tokens@,
            match r {
                Ok(_) => kind_at(old(self).token_list(), old(self).current as int) == token_type
                    && final(self).current == if token_type == TokenType::Eof {
                    old(self).current as int
                } else {
                    old(self).current + 1
                },
                Err(m) => kind_at(old(self).token_list(), old(self).current as int) != token_type
                    && final(self).current == old(self).current && m@ == msg@,
            },
    {
        if self.peek() == token_type {
            self.advance();
            Ok(())
        } else {
            Err(String::from_str(msg))
        }
    }

    fn match_token(&mut self, token_type: TokenType) -> (r: bool)
        requires
            old(self).current <= old(self).tokens@.len(),
        ensures
            final(self).tokens@ == old(self).tokens@,
            r == (kind_at(old(self).token_list(), old(self).current as int) != TokenType::Eof
                && kind_at(old(self).token_list(), old(self).current as int) == token_type),
            final(self).current == if r {
                old(self).current + 1
            } else {
                old(self).current as int
            },
    {
        if self.is_at_end() {
            false
        } else if self.peek() == token_type {
            self.advance();
            true
        } else {
            false
        }
    }

    fn match_tokens(&mut self, types: &[TokenType]) -> (r: bool)
        requires
            old(self).current <= old(self).tokens@.len(),
        ensures
            final(self).tokens@ == old(self).tokens@,
            r == (kind_at(old(self).token_list(), old(self).current as int) != TokenType::Eof
                && types@.contains(kind_at(old(self).token_list(), old(self).current as int))),
            final(self).current == if r {
                old(self).current + 1
            } else {
                old(self).current as int
            },
    {
        let mut i: usize = 0;
        while i < types.len()
            invariant
                self.current == old(self).current,
                self.tokens@ == old(self).tokens@,
                old(self).current <= old(self).tokens@.len(),
                i <= types@.len(),
                kind_at(self.token_list(), self.current as int) == TokenType::Eof || forall|j: int|
                    0 <= j < i ==> types@[j] != kind_at(self.token_list(), self.current as int),
            decreases types@.len() - i,
        {
            if self.match_token(types[i]) {
                return true;
            }
            i = i + 1;
        }
        false
    }

    fn equality(&mut self) -> (r: Result<Expression, String>)
        requires
            old(self).wf(),
        ensures
            final(self).wf(),
            final(self).moved_on(old(self)),
            agrees(
                parse_equality(old(self).token_list(), old(self).current as int),
                r,
                final(self).current as int,
            ),
        decreases old(self).tokens@.len() - old(self).current, 6nat,
    {
        let ghost ts = self.token_list();
        let mut expression = self.comparison()?;
        while self.match_tokens(&[TokenType::BangEqual, TokenType::EqualEqual])
            invariant
                self.wf(),
                self.moved_on(old(self)),
                ts == self.token_list(),
                parse_equality(ts, old(self).current as int) == equality_rest(ts, self.current as int, expression@),
            decreases self.tokens@.len() - self.current,
        {
            let ghost p = self.current - 1;
            let ghost left = expression@;
            assert(is_equality_op(kind_at(ts, p)));
            let operator = self.previous();
            let right = self.comparison()?;
            expression = Expression::Binary {
                left: Box::new(expression),
                operator,
                right: Box::new(right),
            };
            assert(expression@ == binary(left, ts[p], right@));
        }
        Ok(expression)
    }

    fn comparison(&mut self) -> (r: Result<Expression, String>)
        requires
            old(self).wf(),
        ensures
            final(self).wf(),
            final(self).moved_on(old(self)),
            agrees(
                parse_comparison(old(self).token_list(), old(self).current as int),
                r,
                final(self).current as int,
            ),
        decreases old(self).tokens@.len() - old(self).current, 5nat,
    {
        let ghost ts = self.token_list();
        let mut expression = self.term()?;
        while self.match_tokens(&[TokenType::Greater, TokenType::GreaterEqual, TokenType::Less, TokenType::LessEqual])
            invariant
                self.wf(),
                self.moved_on(old(self)),
                ts == self.token_list(),
                parse_comparison(ts, old(self).current as int) == comparison_rest(ts, self.current as int, expression@),
            decreases self.tokens@.len() - self.current,
        {
            let ghost p = self.current - 1;
            let ghost left = expression@;
            assert(is_comparison_op(kind_at(ts, p)));
            let operator = self.previous();
            let right = self.term()?;
            expression = Expression::Binary {
                left: Box::new(expression),
                operator,
                right: Box::new(right),
            };
            assert(expression@ == binary(left, ts[p], right@));
        }
        Ok(expression)
    }

    fn term(&mut self) -> (r: Result<Expression, String>)
        requires
            old(self).wf(),
        ensures
            final(self).wf(),
            final(self).moved_on(old(self)),
            agrees(
                parse_term(old(self).token_list(), old(self).current as int),
                r,
                final(self).current as int,
            ),
        decreases old(self).tokens@.len() - old(self).current, 4nat,
    {
        let ghost ts = self.token_list();
        let mut expression = self.factor()?;
        while self.match_tokens(&[TokenType::Minus, TokenType::Plus])
            invariant
                self.wf(),
                self.moved_on(old(self)),
                ts == self.token_list(),
                parse_term(ts, old(self).current as int) == term_rest(ts, self.current as int, expression@),
            decreases self.tokens@.len() - self.current,
        {
            let ghost p = self.current - 1;
            let ghost left = expression@;
            assert(is_term_op(kind_at(ts, p)));
            let operator = self.previous();
            let right = self.factor()?;
            expression = Expression::Binary {
                left: Box::new(expression),
                operator,
                right: Box::new(right),
            };
            assert(expression@ == binary(left, ts[p], right@));
        }
        Ok(expression)
    }

    fn factor(&mut self) -> (r: Result<Expression, String>)
        requires
            old(self).wf(),
        ensures
            final(self).wf(),
            final(self).moved_on(old(self)),
            agrees(
                parse_factor(old(self).token_list(), old(self).current as int),
                r,
                final(self).current as int,
            ),
        decreases old(self).tokens@.len() - old(self).current, 3nat,
    {
        let ghost ts = self.token_list();
        let mut expression = self.unary()?;
        while self.match_tokens(&[TokenType::Slash, TokenType::Star])
            invariant
                self.wf(),
                self.moved_on(old(self)),
                ts == self.token_list(),
                parse_factor(ts, old(self).current as int) == factor_rest(ts, self.current as int, expression@),
            decreases self.tokens@.len() - self.current,
        {
            let ghost p = self.current - 1;
            let ghost left = expression@;
            assert(is_factor_op(kind_at(ts, p)));
            let operator = self.previous();
            let right = self.unary()?;
            expression = Expression::Binary {
                left: Box::new(expression),
                operator,
                right: Box::new(right),
            };
            assert(expression@ == binary(left, ts[p], right@));
        }
        Ok(expression)
    }

    fn unary(&mut self) -> (r: Result<Expression, String>)
        requires
            old(self).wf(),
        ensures
            final(self).wf(),
            final(self).moved_on(old(self)),
            agrees(
                parse_unary(old(self).token_list(), old(self).current as int),
                r,
                final(self).current as int,
            ),
        decreases old(self).tokens@.len() - old(self).current, 2nat,
    {
        if self.match_tokens(&[TokenType::Bang, TokenType::BangEqual]) {
            let operator = self.previous();
            let right = self.unary()?;
            Ok(Expression::Unary { operator, right: Box::new(right) })
        } else {
            self.primary()
        }
    }

    fn primary(&mut self) -> (r: Result<Expression, String>)
        requires
            old(self).wf(),
        ensures
            final(self).wf(),
            final(self).moved_on(old(self)),
            agrees(
                parse_primary(old(self).token_list(), old(self).current as int),
                r,
                final(self).current as int,
            ),
        decreases old(self).tokens@.len() - old(self).current, 1nat,
    {
        let ghost ts = self.token_list();
        let kind = self.peek();
        match kind {
            TokenType::LeftParen => {
                self.advance();
                let expression = self.expression()?;
                self.consume(TokenType::RightParen, "Expected ')'")?;
                Ok(Expression::Grouping { expression: Box::new(expression) })
            },
            TokenType::False | TokenType::True | TokenType::Nil | TokenType::Number
            | TokenType::StringLiteral => {
                let token = self.tokens[self.current].duplicate();
                assert(is_literal_token(ts[self.current as int]));
                self.advance();
                Ok(Expression::Literal { value: LiteralValue::from_token(token) })
            },
            _ => Err(String::from_str("Expected expression")),
        }
    }

    /// Discards tokens after a syntax error until a statement boundary: just
    /// past a `;`, at a token that begins a statement, or at end-of-input.
    pub fn synchronize(&mut self)
        requires
            old(self).wf(),
        ensures
            final(self).wf(),
            final(self).token_list() == old(self).token_list(),
            final(self).position() == sync_target(old(self).token_list(), old(self).position()),
    {
        let ghost ts = self.token_list();
        self.advance();
        while !self.is_at_end()
            invariant
                self.wf(),
                self.moved_on(old(self)),
                ts == self.token_list(),
                sync_from(ts, self.current as int) == sync_target(ts, old(self).current as int),
                self.current >= 1 || kind_at(ts, self.current as int) == TokenType::Eof,
            decreases self.tokens@.len() - self.current,
        {
            if self.previous().token_type == TokenType::SemiColon {
                return;
            }
            match self.peek() {
                TokenType::Class | TokenType::Function | TokenType::Variable | TokenType::For
                | TokenType::If | TokenType::While | TokenType::Say | TokenType::Return => {
                    return;
                },
                _ => (),
            }
            self.advance();
        }
    }
}

} // verus!
