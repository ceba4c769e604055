use vstd::prelude::*;

use crate::text::{append_chars, chars_of, nat_digits, push_char, push_digits, string_of};
use crate::token::{
    Decimal, DecimalModel, LiteralModel, LiteralValue as TokenLiteralValue, Token, TokenModel, TokenType,
};

verus! {

/// The value of a literal expression.
#[derive(Debug)]
pub enum LiteralValue {
    Number(Decimal),
    StringValue(String),
    True,
    False,
    Nil,
}

/// The mathematical content of a literal expression's value.
pub enum ValueModel {
    Number(DecimalModel),
    Str(Seq<char>),
    True,
    False,
    Nil,
}

impl View for LiteralValue {
    type V = ValueModel;

    open spec fn view(&self) -> ValueModel {
        match self {
            LiteralValue::Number(d) => ValueModel::Number(d@),
            LiteralValue::StringValue(s) => ValueModel::Str(s@),
            LiteralValue::True => ValueModel::True,
            LiteralValue::False => ValueModel::False,
            LiteralValue::Nil => ValueModel::Nil,
        }
    }
}

/// `n` zero digits.
pub open spec fn zeros(n: nat) -> Seq<char> {
    Seq::new(n, |i: int| '0')
}

/// `s` without its leading zeros.
pub open spec fn strip_leading_zeros(s: Seq<char>) -> Seq<char>
    decreases s.len(),
{
    if s.len() > 0 && s[0] == '0' {
        strip_leading_zeros(s.drop_first())
    } else {
        s
    }
}

/// `s` without its trailing zeros.
pub open spec fn strip_zeros(s: Seq<char>) -> Seq<char>
    decreases s.len(),
{
    if s.len() > 0 && s.last() == '0' {
        strip_zeros(s.drop_last())
    } else {
        s
    }
}

/// The shortest plain decimal form of `d`: its integer part without leading
/// zeros (`0` where it is empty), and a point and the fraction only where the
/// fraction is not zero, without its trailing zeros.
pub open spec fn decimal_text(d: DecimalModel) -> Seq<char> {
    let sig = strip_leading_zeros(d.digits);
    let k = d.scale;
    if sig.len() == 0 {
        seq!['0']
    } else {
        let sign = if d.negative {
            seq!['-']
        } else {
            Seq::<char>::empty()
        };
        let whole = if sig.len() > k {
            sig.subrange(0, sig.len() - k)
        } else {
            seq!['0']
        };
        let frac = if sig.len() > k {
            strip_zeros(sig.subrange(sig.len() - k, sig.len() as int))
        } else {
            zeros((k - sig.len()) as nat) + strip_zeros(sig)
        };
        sign + whole + if frac.len() == 0 {
            Seq::<char>::empty()
        } else {
            seq!['.'] + frac
        }
    }
}

/// The text of a literal value.
pub open spec fn value_text(v: ValueModel) -> Seq<char> {
    match v {
        ValueModel::Number(d) => decimal_text(d),
        ValueModel::Str(s) => s,
        ValueModel::True => seq!['T', 'r', 'u', 'e'],
        ValueModel::False => seq!['F', 'a', 'l', 's', 'e'],
        ValueModel::Nil => seq!['N', 'i', 'l'],
    }
}

/// Whether a token can stand as a literal expression, payload included.
pub open spec fn is_literal_token(t: TokenModel) -> bool {
    match t.kind {
        TokenType::Number => t.literal matches Some(l) && (l is Int || l is Dec),
        TokenType::StringLiteral => t.literal matches Some(l) && (l is Str || l is Ident),
        TokenType::True | TokenType::False | TokenType::Nil => true,
        _ => false,
    }
}

/// The number an integer stands for.
pub open spec fn int_decimal(i: int) -> DecimalModel {
    DecimalModel {
        negative: i < 0,
        digits: nat_digits((if i < 0 { -i } else { i }) as nat),
        scale: 0,
    }
}

/// The value of a literal token.
pub open spec fn token_value(t: TokenModel) -> ValueModel {
    match t.kind {
        TokenType::Number => match t.literal {
            Some(LiteralModel::Int(i)) => ValueModel::Number(int_decimal(i)),
            Some(LiteralModel::Dec(d)) => ValueModel::Number(d),
            _ => ValueModel::Nil,
        },
        TokenType::StringLiteral => match t.literal {
            Some(LiteralModel::Str(s)) => ValueModel::Str(s),
            Some(LiteralModel::Ident(s)) => ValueModel::Str(s),
            _ => ValueModel::Nil,
        },
        TokenType::True => ValueModel::True,
        TokenType::False => ValueModel::False,
        _ => ValueModel::Nil,
    }
}

fn unwrap_as_number(literal: Option<TokenLiteralValue>) -> (r: Decimal)
    requires
        literal matches Some(l) && (l is IntValue || l is FValue),
    ensures
        ValueModel::Number(r@) == token_value(
            TokenModel {
                kind: TokenType::Number,
                lexeme: seq![],
                literal: crate::token::literal_model(literal),
                line: 0,
            },
        ),
{
    match literal {
        Some(TokenLiteralValue::IntValue(x)) => {
            let negative = x < 0;
            let magnitude: u64 = if x < 0 {
                if x == i64::MIN {
                    9223372036854775808u64
                } else {
                    (-x) as u64
                }
            } else {
                x as u64
            };
            let mut ds: Vec<char> = Vec::new();
            assert(magnitude as int == if x < 0 { -(x as int) } else { x as int });
            push_digits(&mut ds, magnitude);
            assert(ds@ =~= nat_digits(magnitude as nat));
            assert(ds@.subrange(0, ds@.len() as int) =~= ds@);
            let r = Decimal { negative, digits: string_of(&ds, 0, ds.len()), scale: 0 };
            assert(r@ == int_decimal(x as int));
            r
        },
        Some(TokenLiteralValue::FValue(d)) => d,
        _ => Decimal { negative: false, digits: String::new(), scale: 0 },
    }
}

fn unwrap_as_string(literal: Option<TokenLiteralValue>) -> (r: String)
    requires
        literal matches Some(l) && (l is StringValue || l is IdentifierValue),
    ensures
        ValueModel::Str(r@) == token_value(
            TokenModel {
                kind: TokenType::StringLiteral,
                lexeme: seq![],
                literal: crate::token::literal_model(literal),
                line: 0,
            },
        ),
{
    match literal {
        Some(TokenLiteralValue::StringValue(s)) => s,
        Some(TokenLiteralValue::IdentifierValue(s)) => s,
        _ => String::new(),
    }
}

impl LiteralValue {
    /// The text of this value: numbers in plain decimal, strings verbatim,
    /// `True`, `False` and `Nil`.
    pub fn to_string(&self) -> (r: String)
        ensures
            r@ == value_text(self@),
    {
        match self {
            LiteralValue::Number(d) => decimal_string(d),
            LiteralValue::StringValue(s) => s.clone(),
            LiteralValue::True => {
                let mut s = String::new();
                push_char(&mut s, 'T');
                push_char(&mut s, 'r');
                push_char(&mut s, 'u');
                push_char(&mut s, 'e');
                assert(s@ =~= seq!['T', 'r', 'u', 'e']);
                s
            },
            LiteralValue::False => {
                let mut s = String::new();
                push_char(&mut s, 'F');
                push_char(&mut s, 'a');
                push_char(&mut s, 'l');
                push_char(&mut s, 's');
                push_char(&mut s, 'e');
                assert(s@ =~= seq!['F', 'a', 'l', 's', 'e']);
                s
            },
            LiteralValue::Nil => {
                let mut s = String::new();
                push_char(&mut s, 'N');
                push_char(&mut s, 'i');
                push_char(&mut s, 'l');
                assert(s@ =~= seq!['N', 'i', 'l']);
                s
            },
        }
    }

    /// The value of a literal token.
    pub fn from_token(token: Token) -> (r: Self)
        requires
            is_literal_token(token@),
        ensures
            r@ == token_value(token@),
    {
        match token.token_type {
            TokenType::Number => LiteralValue::Number(unwrap_as_number(token.literal)),
            TokenType::StringLiteral => LiteralValue::StringValue(unwrap_as_string(token.literal)),
            TokenType::False => LiteralValue::False,
            TokenType::True => LiteralValue::True,
            _ => LiteralValue::Nil,
        }
    }
}

/// The end of `ds[from..]` once its trailing zeros are left out.
fn trimmed_end(ds: &Vec<char>, from: usize) -> (end: usize)
    requires
        from <= ds@.len(),
    ensures
        from <= end <= ds@.len(),
        ds@.subrange(from as int, end as int) == strip_zeros(
            ds@.subrange(from as int, ds@.len() as int),
        ),
{
    let mut end = ds.len();
    while end > from && ds[end - 1] == '0'
        invariant
            from <= end <= ds@.len(),
            strip_zeros(ds@.subrange(from as int, end as int)) == strip_zeros(
                ds@.subrange(from as int, ds@.len() as int),
            ),
        decreases end,
    {
        assert(ds@.subrange(from as int, end as int).drop_last() =~= ds@.subrange(
            from as int,
            end - 1,
        ));
        end = end - 1;
    }
    let ghost frac = ds@.subrange(from as int, end as int);
    assert(frac.len() == 0 || frac.last() != '0');
    assert(strip_zeros(frac) == frac);
    end
}

/// The first position at or after `from` in `ds` that does not hold a zero.
fn first_nonzero(ds: &Vec<char>, from: usize) -> (start: usize)
    requires
        from <= ds@.len(),
    ensures
        from <= start <= ds@.len(),
        start < ds@.len() ==> ds@[start as int] != '0',
        ds@.subrange(start as int, ds@.len() as int) == strip_leading_zeros(
            ds@.subrange(from as int, ds@.len() as int),
        ),
{
    let mut start = from;
    while start < ds.len() && ds[start] == '0'
        invariant
            from <= start <= ds@.len(),
            strip_leading_zeros(ds@.subrange(start as int, ds@.len() as int))
                == strip_leading_zeros(ds@.subrange(from as int, ds@.len() as int)),
        decreases ds@.len() - start,
    {
        assert(ds@.subrange(start as int, ds@.len() as int).drop_first() =~= ds@.subrange(
            start + 1,
            ds@.len() as int,
        ));
        start = start + 1;
    }
    let ghost rest = ds@.subrange(start as int, ds@.len() as int);
    assert(rest.len() == 0 || rest[0] != '0');
    assert(strip_leading_zeros(rest) == rest);
    start
}

/// The text of `d` in plain decimal.
pub fn decimal_string(d: &Decimal) -> (r: String)
    ensures
        r@ == decimal_text(d@),
{
    let ds = chars_of(d.digits.as_str());
    let n = ds.len();
    let lead = first_nonzero(&ds, 0);
    assert(ds@.subrange(0, n as int) =~= ds@);
    let ghost sig = ds@.subrange(lead as int, n as int);
    let k = d.scale;
    let mut s = String::new();
    if lead == n {
        push_char(&mut s, '0');
        assert(s@ =~= decimal_text(d@));
        return s;
    }
    if d.negative {
        push_char(&mut s, '-');
    }
    if n - lead > k {
        let cut = n - k;
        append_chars(&mut s, &ds, lead, cut);
        let end = trimmed_end(&ds, cut);
        assert(sig.subrange(0, sig.len() - k) =~= ds@.subrange(lead as int, cut as int));
        assert(sig.subrange(sig.len() - k, sig.len() as int) =~= ds@.subrange(cut as int, n as int));
        if end > cut {
            push_char(&mut s, '.');
            append_chars(&mut s, &ds, cut, end);
        }
    } else {
        push_char(&mut s, '0');
        let end = trimmed_end(&ds, lead);
        assert(ds@.subrange(lead as int, end as int).len() > 0) by {
            assert(ds@[lead as int] != '0');
            assert(strip_zeros(sig).len() > 0) by {
                lemma_strip_keeps_first(sig);
            }
        }
        push_char(&mut s, '.');
        let zs = k - (n - lead);
        let mut i: usize = 0;
        let ghost before = s@;
        while i < zs
            invariant
                i <= zs,
                s@ == before + zeros(i as nat),
            decreases zs - i,
        {
            push_char(&mut s, '0');
            i = i + 1;
            assert(s@ =~= before + zeros(i as nat));
        }
        append_chars(&mut s, &ds, lead, end);
    }
    assert(s@ =~= decimal_text(d@));
    s
}

/// Stripping trailing zeros from a sequence that starts with a nonzero digit
/// leaves that digit.
proof fn lemma_strip_keeps_first(s: Seq<char>)
    requires
        s.len() > 0,
        s[0] != '0',
    ensures
        strip_zeros(s).len() > 0,
    decreases s.len(),
{
    if s.len() > 1 && s.last() == '0' {
        lemma_strip_keeps_first(s.drop_last());
    }
}

/// An expression tree; each node owns its sub-expressions.
#[derive(Debug)]
pub enum Expression {
    Binary { left: Box<Expression>, operator: Token, right: Box<Expression> },
    Grouping { expression: Box<Expression> },
    Literal { value: LiteralValue },
    Unary { operator: Token, right: Box<Expression> },
}

/// The mathematical content of an expression tree.
pub enum ExprModel {
    Binary { left: Box<ExprModel>, operator: TokenModel, right: Box<ExprModel> },
    Grouping { inner: Box<ExprModel> },
    Literal { value: ValueModel },
    Unary { operator: TokenModel, right: Box<ExprModel> },
}

pub open spec fn expr_model(e: Expression) -> ExprModel
    decreases e,
{
    match e {
        Expression::Binary { left, operator, right } => ExprModel::Binary {
            left: Box::new(expr_model(*left)),
            operator: operator@,
            right: Box::new(expr_model(*right)),
        },
        Expression::Grouping { expression } => ExprModel::Grouping {
            inner: Box::new(expr_model(*expression)),
        },
        Expression::Literal { value } => ExprModel::Literal { value: value@ },
        Expression::Unary { operator, right } => ExprModel::Unary {
            operator: operator@,
            right: Box::new(expr_model(*right)),
        },
    }
}

impl View for Expression {
    type V = ExprModel;

    open spec fn view(&self) -> ExprModel {
        expr_model(*self)
    }
}

/// The fully parenthesized prefix form of an expression: `(op left right)`,
/// `(op operand)`, `(group inner)`, or a literal's text.
pub open spec fn render(e: ExprModel) -> Seq<char>
    decreases e,
{
    match e {
        ExprModel::Binary { left, operator, right } => seq!['('] + operator.lexeme + seq![' ']
            + render(*left) + seq![' '] + render(*right) + seq![')'],
        ExprModel::Grouping { inner } => seq!['(', 'g', 'r', 'o', 'u', 'p', ' '] + render(*inner)
            + seq![')'],
        ExprModel::Literal { value } => value_text(value),
        ExprModel::Unary { operator, right } => seq!['('] + operator.lexeme + seq![' '] + render(
            *right,
        ) + seq![')'],
    }
}

impl Expression {
    /// The fully parenthesized prefix form of this expression.
    pub fn to_string(&self) -> (r: String)
        ensures
            r@ == render(self@),
        decreases self,
    {
        let mut s = String::new();
        match self {
            Expression::Binary { left, operator, right } => {
                let l = left.to_string();
                let r = right.to_string();
                push_char(&mut s, '(');
                s.append(operator.lexeme.as_str());
                push_char(&mut s, ' ');
                s.append(l.as_str());
                push_char(&mut s, ' ');
                s.append(r.as_str());
                push_char(&mut s, ')');
            },
            Expression::Grouping { expression } => {
                let inner = expression.to_string();
                push_char(&mut s, '(');
                push_char(&mut s, 'g');
                push_char(&mut s, 'r');
                push_char(&mut s, 'o');
                push_char(&mut s, 'u');
                push_char(&mut s, 'p');
                push_char(&mut s, ' ');
                s.append(inner.as_str());
                push_char(&mut s, ')');
            },
            Expression::Literal { value } => {
                s = value.to_string();
            },
            Expression::Unary { operator, right } => {
                let r = right.to_string();
                push_char(&mut s, '(');
                s.append(operator.lexeme.as_str());
                push_char(&mut s, ' ');
                s.append(r.as_str());
                push_char(&mut s, ')');
            },
        }
        assert(s@ =~= render(self@));
        s
    }
}

} // verus!
