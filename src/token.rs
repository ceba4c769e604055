use vstd::prelude::*;

verus! {

/// The lexical category of a token.
#[derive(Clone, Copy, Debug, PartialEq, Eq, Structural)]
pub enum TokenType {
    // Single-character punctuation.
    LeftParen,
    RightParen,
    LeftBrace,
    RightBrace,
    Comma,
    Dot,
    Minus,
    Plus,
    SemiColon,
    Slash,
    Star,
    // One- or two-character operators.
    Bang,
    BangEqual,
    Equal,
    EqualEqual,
    Greater,
    GreaterEqual,
    Less,
    LessEqual,
    // Literals.
    Identifier,
    StringLiteral,
    Number,
    // Reserved keywords.
    And,
    Class,
    Else,
    False,
    Function,
    For,
    If,
    Nil,
    Or,
    Say,
    Return,
    Super,
    This,
    True,
    Variable,
    While,
    Eof,
}

/// An exact decimal number: the value of the decimal digits `digits`,
/// divided by `10^scale`, negated when `negative` holds.
///
/// `123.45` is held as digits `"12345"` with scale `2`. The digits are kept
/// as written, so a numeral of any length is held exactly.
#[derive(Debug, PartialEq, Eq)]
pub struct Decimal {
    pub negative: bool,
    pub digits: String,
    pub scale: usize,
}

/// The mathematical content of a decimal number.
pub struct DecimalModel {
    pub negative: bool,
    pub digits: Seq<char>,
    pub scale: nat,
}

impl View for Decimal {
    type V = DecimalModel;

    open spec fn view(&self) -> DecimalModel {
        DecimalModel { negative: self.negative, digits: self.digits@, scale: self.scale as nat }
    }
}

impl Decimal {
    /// A copy of this number.
    pub fn duplicate(&self) -> (r: Decimal)
        ensures
            r@ == self@,
    {
        Decimal { negative: self.negative, digits: self.digits.clone(), scale: self.scale }
    }
}

impl Clone for Decimal {
    fn clone(&self) -> (r: Decimal)
        ensures
            r@ == self@,
    {
        self.duplicate()
    }
}

/// The payload a token may carry.
#[derive(Debug)]
pub enum LiteralValue {
    IntValue(i64),
    FValue(Decimal),
    StringValue(String),
    IdentifierValue(String),
}

/// The mathematical content of a literal payload.
pub enum LiteralModel {
    Int(int),
    Dec(DecimalModel),
    Str(Seq<char>),
    Ident(Seq<char>),
}

impl View for LiteralValue {
    type V = LiteralModel;

    open spec fn view(&self) -> LiteralModel {
        match self {
            LiteralValue::IntValue(x) => LiteralModel::Int(*x as int),
            LiteralValue::FValue(d) => LiteralModel::Dec(d@),
            LiteralValue::StringValue(s) => LiteralModel::Str(s@),
            LiteralValue::IdentifierValue(s) => LiteralModel::Ident(s@),
        }
    }
}

impl LiteralValue {
    /// A copy of this payload.
    pub fn duplicate(&self) -> (r: LiteralValue)
        ensures
            r@ == self@,
    {
        match self {
            LiteralValue::IntValue(x) => LiteralValue::IntValue(*x),
            LiteralValue::FValue(d) => LiteralValue::FValue(d.duplicate()),
            LiteralValue::StringValue(s) => LiteralValue::StringValue(s.clone()),
            LiteralValue::IdentifierValue(s) => LiteralValue::IdentifierValue(s.clone()),
        }
    }
}

impl Clone for LiteralValue {
    fn clone(&self) -> (r: LiteralValue)
        ensures
            r@ == self@,
    {
        self.duplicate()
    }
}

/// A lexical token: its category, the source text it came from, its payload
/// and the 1-based line on which it starts.
#[derive(Debug)]
pub struct Token {
    pub token_type: TokenType,
    pub lexeme: String,
    pub literal: Option<LiteralValue>,
    pub line_number: usize,
}

/// The mathematical content of a token.
pub struct TokenModel {
    pub kind: TokenType,
    pub lexeme: Seq<char>,
    pub literal: Option<LiteralModel>,
    pub line: nat,
}

pub open spec fn literal_model(l: Option<LiteralValue>) -> Option<LiteralModel> {
    match l {
        Some(v) => Some(v@),
        None => None,
    }
}

impl View for Token {
    type V = TokenModel;

    open spec fn view(&self) -> TokenModel {
        TokenModel {
            kind: self.token_type,
            lexeme: self.lexeme@,
            literal: literal_model(self.literal),
            line: self.line_number as nat,
        }
    }
}

impl Token {
    /// A copy of this token.
    pub fn duplicate(&self) -> (r: Token)
        ensures
            r@ == self@,
    {
        let literal = match &self.literal {
            Some(l) => Some(l.duplicate()),
            None => None,
        };
        Token {
            token_type: self.token_type,
            lexeme: self.lexeme.clone(),
            literal,
            line_number: self.line_number,
        }
    }
}

impl Clone for Token {
    fn clone(&self) -> (r: Token)
        ensures
            r@ == self@,
    {
        self.duplicate()
    }
}

/// The models of a sequence of tokens.
pub open spec fn token_models(ts: Seq<Token>) -> Seq<TokenModel> {
    ts.map_values(|t: Token| t@)
}

} // verus!
