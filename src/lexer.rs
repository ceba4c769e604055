use vstd::prelude::*;

use crate::text::{append_chars, chars_of, nat_digits, push_char, push_digits, string_of};
use crate::token::{Decimal, DecimalModel, LiteralModel, LiteralValue, Token, TokenModel, TokenType, token_models};

verus! {

pub open spec fn is_digit_char(c: char) -> bool {
    '0' <= c && c <= '9'
}

pub open spec fn is_alpha_char(c: char) -> bool {
    ('a' <= c && c <= 'z') || ('A' <= c && c <= 'Z') || c == '_'
}

pub open spec fn is_alnum_char(c: char) -> bool {
    is_alpha_char(c) || is_digit_char(c)
}

/// The first position at or after `i` that does not hold a digit.
pub open spec fn digits_end(src: Seq<char>, i: int) -> int
    decreases src.len() - i,
{
    if 0 <= i < src.len() && is_digit_char(src[i]) {
        digits_end(src, i + 1)
    } else {
        i
    }
}

/// The first position at or after `i` that does not hold a letter, digit or underscore.
pub open spec fn ident_end(src: Seq<char>, i: int) -> int
    decreases src.len() - i,
{
    if 0 <= i < src.len() && is_alnum_char(src[i]) {
        ident_end(src, i + 1)
    } else {
        i
    }
}

/// The first position at or after `i` that holds a newline, or the end.
pub open spec fn line_end(src: Seq<char>, i: int) -> int
    decreases src.len() - i,
{
    if 0 <= i < src.len() && src[i] != '\n' {
        line_end(src, i + 1)
    } else {
        i
    }
}

/// The first position at or after `i` that holds a double quote, or the end.
pub open spec fn quote_end(src: Seq<char>, i: int) -> int
    decreases src.len() - i,
{
    if 0 <= i < src.len() && src[i] != '"' {
        quote_end(src, i + 1)
    } else {
        i
    }
}

/// The number of newlines in `s`.
pub open spec fn newlines(s: Seq<char>) -> nat
    decreases s.len(),
{
    if s.len() == 0 {
        0
    } else {
        newlines(s.drop_last()) + if s.last() == '\n' { 1nat } else { 0nat }
    }
}

/// The value of a run of decimal digits, most significant first.
pub open spec fn digits_value(s: Seq<char>) -> nat
    decreases s.len(),
{
    if s.len() == 0 {
        0
    } else {
        digits_value(s.drop_last()) * 10 + (s.last() as nat - '0' as nat) as nat
    }
}

/// The token kind of a character that always stands alone.
pub open spec fn single_char_kind(c: char) -> Option<TokenType> {
    if c == '(' {
        Some(TokenType::LeftParen)
    } else if c == ')' {
        Some(TokenType::RightParen)
    } else if c == '{' {
        Some(TokenType::LeftBrace)
    } else if c == '}' {
        Some(TokenType::RightBrace)
    } else if c == ',' {
        Some(TokenType::Comma)
    } else if c == '.' {
        Some(TokenType::Dot)
    } else if c == '-' {
        Some(TokenType::Minus)
    } else if c == '+' {
        Some(TokenType::Plus)
    } else if c == ';' {
        Some(TokenType::SemiColon)
    } else if c == '*' {
        Some(TokenType::Star)
    } else {
        None
    }
}

/// For an operator character that may be followed by `=`: its kind alone, and
/// its kind when followed by `=`.
pub open spec fn operator_kinds(c: char) -> Option<(TokenType, TokenType)> {
    if c == '!' {
        Some((TokenType::Bang, TokenType::BangEqual))
    } else if c == '=' {
        Some((TokenType::Equal, TokenType::EqualEqual))
    } else if c == '<' {
        Some((TokenType::Less, TokenType::LessEqual))
    } else if c == '>' {
        Some((TokenType::Greater, TokenType::GreaterEqual))
    } else {
        None
    }
}

/// The reserved words, with the kind of each.
pub open spec fn keyword_table() -> Seq<(Seq<char>, TokenType)> {
    seq![
        (seq!['a', 'n', 'd'], TokenType::And),
        (seq!['c', 'l', 'a', 's', 's'], TokenType::Class),
        (seq!['e', 'l', 's', 'e'], TokenType::Else),
        (seq!['F', 'a', 'l', 's', 'e'], TokenType::False),
        (seq!['f', 'o', 'r'], TokenType::For),
        (seq!['f', 'u', 'n'], TokenType::Function),
        (seq!['i', 'f'], TokenType::If),
        (seq!['N', 'i', 'l'], TokenType::Nil),
        (seq!['o', 'r'], TokenType::Or),
        (seq!['s', 'a', 'y'], TokenType::Say),
        (seq!['r', 'e', 't', 'u', 'r', 'n'], TokenType::Return),
        (seq!['s', 'u', 'p', 'e', 'r'], TokenType::Super),
        (seq!['t', 'h', 'i', 's'], TokenType::This),
        (seq!['T', 'r', 'u', 'e'], TokenType::True),
        (seq!['v', 'a', 'r'], TokenType::Variable),
        (seq!['w', 'h', 'i', 'l', 'e'], TokenType::While),
    ]
}

/// The kind of the first entry from `i` on in `table` spelled exactly `w`.
pub open spec fn lookup_from(table: Seq<(Seq<char>, TokenType)>, w: Seq<char>, i: int) -> Option<TokenType>
    decreases table.len() - i,
{
    if i < 0 || i >= table.len() {
        None
    } else if table[i].0 == w {
        Some(table[i].1)
    } else {
        lookup_from(table, w, i + 1)
    }
}

/// The keyword kind of the word `w`, if it is a reserved word.
pub open spec fn keyword_of(w: Seq<char>) -> Option<TokenType> {
    lookup_from(keyword_table(), w, 0)
}

/// What one scanning step does: where it stops, the line it leaves, and the
/// token or the error it produces.
pub struct Step {
    pub next: int,
    pub line: nat,
    pub token: Option<TokenModel>,
    pub error: Option<Seq<char>>,
}

pub open spec fn token_step(src: Seq<char>, start: int, next: int, line: nat, kind: TokenType) -> Step {
    Step {
        next,
        line,
        token: Some(TokenModel { kind, lexeme: src.subrange(start, next), literal: None, line }),
        error: None,
    }
}

pub open spec fn skip_step(next: int, line: nat) -> Step {
    Step { next, line, token: None, error: None }
}

pub open spec fn error_step(next: int, line: nat, msg: Seq<char>) -> Step {
    Step { next, line, token: None, error: Some(msg) }
}

/// Where a number starting at `start` ends: its digits, and a fraction only
/// where a digit follows the point.
pub open spec fn number_end(src: Seq<char>, start: int) -> int {
    let d = digits_end(src, start);
    if d + 1 < src.len() && src[d] == '.' && is_digit_char(src[d + 1]) {
        digits_end(src, d + 1)
    } else {
        d
    }
}

/// The digits of the number starting at `start`, with the point left out.
pub open spec fn number_digits(src: Seq<char>, start: int) -> Seq<char> {
    let d = digits_end(src, start);
    let e = number_end(src, start);
    if e == d {
        src.subrange(start, d)
    } else {
        src.subrange(start, d) + src.subrange(d + 1, e)
    }
}

/// How many digits of the number starting at `start` follow its point.
pub open spec fn number_scale(src: Seq<char>, start: int) -> int {
    let d = digits_end(src, start);
    let e = number_end(src, start);
    if e == d {
        0
    } else {
        e - d - 1
    }
}

/// A number always makes a token: its digits are kept exactly, with the
/// number of fraction digits as its scale.
pub open spec fn number_step(src: Seq<char>, start: int, line: nat) -> Step {
    let e = number_end(src, start);
    Step {
        next: e,
        line,
        token: Some(
            TokenModel {
                kind: TokenType::Number,
                lexeme: src.subrange(start, e),
                literal: Some(
                    LiteralModel::Dec(
                        DecimalModel {
                            negative: false,
                            digits: number_digits(src, start),
                            scale: number_scale(src, start) as nat,
                        },
                    ),
                ),
                line,
            },
        ),
        error: None,
    }
}

pub open spec fn string_step(src: Seq<char>, start: int, line: nat) -> Step {
    let e = quote_end(src, start + 1);
    let content = src.subrange(start + 1, e);
    if e >= src.len() {
        error_step(e, line + newlines(content), "Unterminated string."@)
    } else {
        Step {
            next: e + 1,
            line: line + newlines(content),
            token: Some(
                TokenModel {
                    kind: TokenType::StringLiteral,
                    lexeme: src.subrange(start, e + 1),
                    literal: Some(LiteralModel::Str(content)),
                    line,
                },
            ),
            error: None,
        }
    }
}

pub open spec fn word_step(src: Seq<char>, start: int, line: nat) -> Step {
    let e = ident_end(src, start + 1);
    let kind = match keyword_of(src.subrange(start, e)) {
        Some(k) => k,
        None => TokenType::Identifier,
    };
    token_step(src, start, e, line, kind)
}

pub open spec fn unrecognized_message(line: nat, c: char) -> Seq<char> {
    "Unrecognized char at line "@ + nat_digits(line) + ": "@ + seq![c]
}

/// One scanning step at `start`, on line `line`.
pub open spec fn scan_step(src: Seq<char>, start: int, line: nat) -> Step {
    let c = src[start];
    let eq_follows = start + 1 < src.len() && src[start + 1] == '=';
    if let Some(k) = single_char_kind(c) {
        token_step(src, start, start + 1, line, k)
    } else if let Some(ks) = operator_kinds(c) {
        if eq_follows {
            token_step(src, start, start + 2, line, ks.1)
        } else {
            token_step(src, start, start + 1, line, ks.0)
        }
    } else if c == '/' {
        if start + 1 < src.len() && src[start + 1] == '/' {
            skip_step(line_end(src, start + 2), line)
        } else {
            token_step(src, start, start + 1, line, TokenType::Slash)
        }
    } else if c == ' ' || c == '\r' || c == '\t' {
        skip_step(start + 1, line)
    } else if c == '\n' {
        skip_step(start + 1, line + 1)
    } else if c == '"' {
        string_step(src, start, line)
    } else if is_digit_char(c) {
        number_step(src, start, line)
    } else if is_alpha_char(c) {
        word_step(src, start, line)
    } else {
        error_step(start + 1, line, unrecognized_message(line, c))
    }
}

/// The tokens and errors of scanning from `pos` to the end, and the line reached.
pub struct Scan {
    pub tokens: Seq<TokenModel>,
    pub errors: Seq<Seq<char>>,
    pub line: nat,
}

pub open spec fn prepend<T>(x: Option<T>, s: Seq<T>) -> Seq<T> {
    match x {
        Some(v) => seq![v] + s,
        None => s,
    }
}

pub open spec fn scan_from(src: Seq<char>, pos: int, line: nat) -> Scan
    decreases src.len() - pos,
{
    if pos < 0 || pos >= src.len() {
        Scan { tokens: seq![], errors: seq![], line }
    } else {
        let st = scan_step(src, pos, line);
        if st.next <= pos || st.next > src.len() {
            Scan { tokens: seq![], errors: seq![], line }
        } else {
            let rest = scan_from(src, st.next, st.line);
            Scan {
                tokens: prepend(st.token, rest.tokens),
                errors: prepend(st.error, rest.errors),
                line: rest.line,
            }
        }
    }
}

/// The end-of-input token on line `line`.
pub open spec fn eof_token(line: nat) -> TokenModel {
    TokenModel { kind: TokenType::Eof, lexeme: seq![], literal: None, line }
}

/// The error messages, each followed by a newline.
pub open spec fn joined(errors: Seq<Seq<char>>) -> Seq<char>
    decreases errors.len(),
{
    if errors.len() == 0 {
        seq![]
    } else {
        joined(errors.drop_last()) + errors.last() + seq!['\n']
    }
}

/// What scanning the whole of `src` with a fresh lexer gives: every token,
/// closed by the end-of-input token, or the joined error messages.
pub open spec fn lex(src: Seq<char>) -> Result<Seq<TokenModel>, Seq<char>> {
    let s = scan_from(src, 0, 1);
    if s.errors.len() == 0 {
        Ok(s.tokens.push(eof_token(s.line)))
    } else {
        Err(joined(s.errors))
    }
}

/// The keyword entries as sequences of characters.
pub open spec fn table_view(t: Seq<(Vec<char>, TokenType)>) -> Seq<(Seq<char>, TokenType)> {
    t.map_values(|e: (Vec<char>, TokenType)| (e.0@, e.1))
}

/// The models of the error messages.
pub open spec fn messages(es: Seq<String>) -> Seq<Seq<char>> {
    es.map_values(|s: String| s@)
}

/// The reserved words of the language with their token kinds.
pub fn get_keywords() -> (r: Vec<(Vec<char>, TokenType)>)
    ensures
        table_view(r@) == keyword_table(),
{
    let mut t: Vec<(Vec<char>, TokenType)> = Vec::new();
    t.push((vec!['a', 'n', 'd'], TokenType::And));
    t.push((vec!['c', 'l', 'a', 's', 's'], TokenType::Class));
    t.push((vec!['e', 'l', 's', 'e'], TokenType::Else));
    t.push((vec!['F', 'a', 'l', 's', 'e'], TokenType::False));
    t.push((vec!['f', 'o', 'r'], TokenType::For));
    t.push((vec!['f', 'u', 'n'], TokenType::Function));
    t.push((vec!['i', 'f'], TokenType::If));
    t.push((vec!['N', 'i', 'l'], TokenType::Nil));
    t.push((vec!['o', 'r'], TokenType::Or));
    t.push((vec!['s', 'a', 'y'], TokenType::Say));
    t.push((vec!['r', 'e', 't', 'u', 'r', 'n'], TokenType::Return));
    t.push((vec!['s', 'u', 'p', 'e', 'r'], TokenType::Super));
    t.push((vec!['t', 'h', 'i', 's'], TokenType::This));
    t.push((vec!['T', 'r', 'u', 'e'], TokenType::True));
    t.push((vec!['v', 'a', 'r'], TokenType::Variable));
    t.push((vec!['w', 'h', 'i', 'l', 'e'], TokenType::While));
    assert(table_view(t@) =~= keyword_table());
    t
}

/// Whether `src[from..to]` is exactly `word`.
fn same_chars(src: &Vec<char>, from: usize, to: usize, word: &Vec<char>) -> (r: bool)
    requires
        from <= to <= src@.len(),
    ensures
        r == (src@.subrange(from as int, to as int) == word@),
{
    if to - from != word.len() {
        assert(src@.subrange(from as int, to as int).len() != word@.len());
        return false;
    }
    let mut i: usize = 0;
    while i < word.len()
        invariant
            from <= to <= src@.len(),
            to - from == word@.len(),
            0 <= i <= word@.len(),
            forall|j: int| 0 <= j < i ==> src@[from + j] == word@[j],
        decreases word@.len() - i,
    {
        if src[from + i] != word[i] {
            assert(src@.subrange(from as int, to as int)[i as int] != word@[i as int]);
            return false;
        }
        i = i + 1;
    }
    assert(src@.subrange(from as int, to as int) =~= word@);
    true
}

pub struct Lexer {
    source: Vec<char>,
    tokens: Vec<Token>,
    start: usize,
    current: usize,
    line: usize,
    keywords: Vec<(Vec<char>, TokenType)>,
}

impl Lexer {
    /// The source text.
    pub closed spec fn text(&self) -> Seq<char> {
        self.source@
    }

    /// The position of the scan cursor.
    pub closed spec fn position(&self) -> int {
        self.current as int
    }

    /// The line the scan cursor is on.
    pub closed spec fn current_line(&self) -> nat {
        self.line as nat
    }

    /// The tokens produced so far.
    pub closed spec fn scanned(&self) -> Seq<TokenModel> {
        token_models(self.tokens@)
    }

    pub closed spec fn wf(&self) -> bool {
        &&& self.current <= self.source@.len() < usize::MAX
        &&& 1 <= self.line <= self.current + 1
        &&& table_view(self.keywords@) == keyword_table()
    }

    /// Whether `other` scans the same text with the same keyword table.
    closed spec fn same_text(&self, other: &Lexer) -> bool {
        &&& self.source@ == other.source@
        &&& self.keywords@ == other.keywords@
    }

    /// A lexer at the start of `source`, on line 1, with no tokens yet.
    pub fn new(source: &str) -> (r: Self)
        requires
            source@.len() < usize::MAX,
        ensures
            r.wf(),
            r.text() == source@,
            r.position() == 0,
            r.current_line() == 1,
            r.scanned() == Seq::<TokenModel>::empty(),
    {
        let chars = chars_of(source);
        let r = Lexer {
            source: chars,
            tokens: Vec::new(),
            start: 0,
            current: 0,
            line: 1,
            keywords: get_keywords(),
        };
        assert(r.scanned() =~= Seq::<TokenModel>::empty());
        r
    }

    /// The tokens produced so far.
    pub fn tokens(&self) -> (r: &Vec<Token>)
        ensures
            token_models(r@) == self.scanned(),
    {
        &self.tokens
    }

    fn is_at_end(&self) -> (r: bool)
        ensures
            r == (self.current >= self.source@.len()),
    {
        self.current >= self.source.len()
    }

    fn is_digit(&self, ch: char) -> (r: bool)
        ensures
            r == is_digit_char(ch),
    {
        '0' <= ch && ch <= '9'
    }

    fn is_alphabetical(&self, ch: char) -> (r: bool)
        ensures
            r == is_alpha_char(ch),
    {
        ('a' <= ch && ch <= 'z') || ('A' <= ch && ch <= 'Z') || ch == '_'
    }

    fn is_alpha_numeric(&self, ch: char) -> (r: bool)
        ensures
            r == is_alnum_char(ch),
    {
        self.is_alphabetical(ch) || self.is_digit(ch)
    }

    fn peek(&self) -> (r: char)
        ensures
            r == if self.current < self.source@.len() {
                self.source@[self.current as int]
            } else {
                '\0'
            },
    {
        if self.is_at_end() {
            return '\0';
        }
        self.source[self.current]
    }

    fn peek_next(&self) -> (r: char)
        ensures
            r == if self.current + 1 < self.source@.len() {
                self.source@[self.current + 1]
            } else {
                '\0'
            },
    {
        if self.current >= self.source.len() || self.current + 1 >= self.source.len() {
            return '\0';
        }
        self.source[self.current + 1]
    }

    fn advance(&mut self) -> (r: char)
        requires
            old(self).current < old(self).source@.len() < usize::MAX,
        ensures
            r == old(self).source@[old(self).current as int],
            final(self).current == old(self).current + 1,
            final(self).same_text(old(self)),
            final(self).tokens == old(self).tokens,
            final(self).start == old(self).start,
            final(self).line == old(self).line,
    {
        let c = self.source[self.current];
        self.current = self.current + 1;
        c
    }

    fn char_match(&mut self, c: char) -> (r: bool)
        requires
            old(self).source@.len() < usize::MAX,
        ensures
            r == (old(self).current < old(self).source@.len()
                && old(self).source@[old(self).current as int] == c),
            final(self).current == if r { old(self).current + 1 } else { old(self).current as int },
            final(self).same_text(old(self)),
            final(self).tokens == old(self).tokens,
            final(self).start == old(self).start,
            final(self).line == old(self).line,
    {
        if self.is_at_end() {
            return false;
        }
        if self.source[self.current] != c {
            false
        } else {
            self.current = self.current + 1;
            true
        }
    }

    fn add_token(&mut self, token_type: TokenType)
        requires
            old(self).start <= old(self).current <= old(self).source@.len(),
        ensures
            final(self).scanned() == old(self).scanned().push(
                TokenModel {
                    kind: token_type,
                    lexeme: old(self).source@.subrange(old(self).start as int, old(self).current as int),
                    literal: None,
                    line: old(self).line as nat,
                },
            ),
            final(self).current == old(self).current,
            final(self).same_text(old(self)),
            final(self).start == old(self).start,
            final(self).line == old(self).line,
    {
        let line = self.line;
        self.add_token_literal(token_type, None, line);
    }

    fn add_token_literal(&mut self, token_type: TokenType, literal: Option<LiteralValue>, line: usize)
        requires
            old(self).start <= old(self).current <= old(self).source@.len(),
        ensures
            final(self).scanned() == old(self).scanned().push(
                TokenModel {
                    kind: token_type,
                    lexeme: old(self).source@.subrange(old(self).start as int, old(self).current as int),
                    literal: crate::token::literal_model(literal),
                    line: line as nat,
                },
            ),
            final(self).current == old(self).current,
            final(self).same_text(old(self)),
            final(self).start == old(self).start,
            final(self).line == old(self).line,
    {
        let text = string_of(&self.source, self.start, self.current);
        self.tokens.push(Token { token_type, lexeme: text, literal, line_number: line });
        assert(self.scanned() =~= old(self).scanned().push(
            TokenModel {
                kind: token_type,
                lexeme: old(self).source@.subrange(old(self).start as int, old(self).current as int),
                literal: crate::token::literal_model(literal),
                line: line as nat,
            },
        ));
    }

    /// Whether this lexer is `old` after the scanning step `st`, with outcome `r`.
    closed spec fn took_step(&self, old: &Lexer, st: Step, r: Result<(), String>) -> bool {
        &&& self.same_text(old)
        &&& self.current == st.next
        &&& self.line == st.line
        &&& self.start == old.start
        &&& self.scanned() == match st.token {
            Some(t) => old.scanned().push(t),
            None => old.scanned(),
        }
        &&& match r {
            Ok(_) => st.error is None,
            Err(m) => st.error == Some(m@),
        }
    }

    /// The keyword kind of the text between `start` and the cursor, if it is a reserved word.
    fn keyword_type(&self) -> (r: Option<TokenType>)
        requires
            self.start <= self.current <= self.source@.len(),
            table_view(self.keywords@) == keyword_table(),
        ensures
            r == keyword_of(self.source@.subrange(self.start as int, self.current as int)),
    {
        let ghost w = self.source@.subrange(self.start as int, self.current as int);
        let mut i: usize = 0;
        while i < self.keywords.len()
            invariant
                self.start <= self.current <= self.source@.len(),
                table_view(self.keywords@) == keyword_table(),
                i <= self.keywords@.len(),
                w == self.source@.subrange(self.start as int, self.current as int),
                lookup_from(keyword_table(), w, i as int) == keyword_of(w),
            decreases self.keywords@.len() - i,
        {
            let entry = &self.keywords[i];
            assert(keyword_table()[i as int] == (entry.0@, entry.1));
            if same_chars(&self.source, self.start, self.current, &entry.0) {
                return Some(entry.1);
            }
            i = i + 1;
        }
        None
    }

    fn identifier(&mut self)
        requires
            old(self).wf(),
            old(self).current == old(self).start + 1,
            is_alpha_char(old(self).source@[old(self).start as int]),
        ensures
            final(self).wf(),
            final(self).current >= old(self).current,
            final(self).took_step(
                old(self),
                word_step(old(self).source@, old(self).start as int, old(self).line as nat),
                Ok(()),
            ),
    {
        while self.is_alpha_numeric(self.peek())
            invariant
                self.wf(),
                self.same_text(old(self)),
                self.tokens == old(self).tokens,
                self.start == old(self).start,
                self.line == old(self).line,
                self.start < self.current,
                ident_end(self.source@, self.current as int) == ident_end(
                    self.source@,
                    old(self).current as int,
                ),
            decreases self.source@.len() - self.current,
        {
            self.advance();
        }
        let kind = match self.keyword_type() {
            Some(k) => k,
            None => TokenType::Identifier,
        };
        self.add_token(kind);
    }

    fn number(&mut self)
        requires
            old(self).wf(),
            old(self).current == old(self).start + 1,
            is_digit_char(old(self).source@[old(self).start as int]),
        ensures
            final(self).wf(),
            final(self).current >= old(self).current,
            final(self).took_step(
                old(self),
                number_step(old(self).source@, old(self).start as int, old(self).line as nat),
                Ok(()),
            ),
    {
        let ghost src = self.source@;
        let ghost start = self.start as int;
        while self.is_digit(self.peek())
            invariant
                self.wf(),
                self.same_text(old(self)),
                self.tokens == old(self).tokens,
                self.start == old(self).start,
                self.line == old(self).line,
                self.start < self.current,
                src == self.source@,
                start == self.start,
                digits_end(src, self.current as int) == digits_end(src, start + 1),
            decreases self.source@.len() - self.current,
        {
            self.advance();
        }
        let int_end = self.current;
        assert(digits_end(src, start) == int_end);
        let mut digits = string_of(&self.source, self.start, int_end);
        let mut scale: usize = 0;
        if self.peek() == '.' && self.is_digit(self.peek_next()) {
            self.advance();
            while self.is_digit(self.peek())
                invariant
                    self.wf(),
                    self.same_text(old(self)),
                    self.tokens == old(self).tokens,
                    self.start == old(self).start,
                    self.line == old(self).line,
                    int_end + 1 <= self.current,
                    src == self.source@,
                    digits_end(src, self.current as int) == digits_end(src, int_end + 1),
                decreases self.source@.len() - self.current,
            {
                self.advance();
            }
            append_chars(&mut digits, &self.source, int_end + 1, self.current);
            scale = self.current - int_end - 1;
        }
        assert(number_end(src, start) == self.current);
        assert(digits@ =~= number_digits(src, start));
        let line = self.line;
        self.add_token_literal(
            TokenType::Number,
            Some(LiteralValue::FValue(Decimal { negative: false, digits, scale })),
            line,
        );
    }

    fn string(&mut self) -> (r: Result<(), String>)
        requires
            old(self).wf(),
            old(self).current == old(self).start + 1,
            old(self).source@[old(self).start as int] == '"',
        ensures
            final(self).wf(),
            final(self).current >= old(self).current,
            final(self).took_step(
                old(self),
                string_step(old(self).source@, old(self).start as int, old(self).line as nat),
                r,
            ),
    {
        let ghost src = self.source@;
        let ghost start = self.start as int;
        let first_line = self.line;
        while self.peek() != '"' && !self.is_at_end()
            invariant
                self.same_text(old(self)),
                self.tokens == old(self).tokens,
                self.start == old(self).start,
                self.start < self.current <= src.len() < usize::MAX,
                src == self.source@,
                start == self.start,
                first_line == old(self).line,
                1 <= first_line <= self.start + 2,
                self.line == first_line + newlines(src.subrange(start + 1, self.current as int)),
                self.line <= first_line + (self.current - (start + 1)),
                quote_end(src, self.current as int) == quote_end(src, start + 1),
            decreases src.len() - self.current,
        {
            let ghost before = src.subrange(start + 1, self.current as int);
            let ghost after = src.subrange(start + 1, self.current + 1);
            assert(after.drop_last() =~= before);
            if self.peek() == '\n' {
                self.line = self.line + 1;
            }
            self.advance();
        }
        if self.is_at_end() {
            return Err(String::from_str("Unterminated string."));
        }
        self.advance();
        let value = string_of(&self.source, self.start + 1, self.current - 1);
        self.add_token_literal(
            TokenType::StringLiteral,
            Some(LiteralValue::StringValue(value)),
            first_line,
        );
        Ok(())
    }

    fn scan_token(&mut self) -> (r: Result<(), String>)
        requires
            old(self).wf(),
            old(self).start == old(self).current,
            old(self).current < old(self).source@.len(),
        ensures
            final(self).wf(),
            final(self).current > old(self).current,
            final(self).took_step(
                old(self),
                scan_step(old(self).source@, old(self).current as int, old(self).line as nat),
                r,
            ),
    {
        let ghost src = self.source@;
        let ghost start = self.start as int;
        let c = self.advance();
        match c {
            '(' => self.add_token(TokenType::LeftParen),
            ')' => self.add_token(TokenType::RightParen),
            '{' => self.add_token(TokenType::LeftBrace),
            '}' => self.add_token(TokenType::RightBrace),
            ',' => self.add_token(TokenType::Comma),
            '.' => self.add_token(TokenType::Dot),
            '-' => self.add_token(TokenType::Minus),
            '+' => self.add_token(TokenType::Plus),
            ';' => self.add_token(TokenType::SemiColon),
            '*' => self.add_token(TokenType::Star),
            '!' => {
                let token = if self.char_match('=') {
                    TokenType::BangEqual
                } else {
                    TokenType::Bang
                };
                self.add_token(token);
            },
            '=' => {
                let token = if self.char_match('=') {
                    TokenType::EqualEqual
                } else {
                    TokenType::Equal
                };
                self.add_token(token);
            },
            '<' => {
                let token = if self.char_match('=') {
                    TokenType::LessEqual
                } else {
                    TokenType::Less
                };
                self.add_token(token);
            },
            '>' => {
                let token = if self.char_match('=') {
                    TokenType::GreaterEqual
                } else {
                    TokenType::Greater
                };
                self.add_token(token);
            },
            '/' => {
                if self.char_match('/') {
                    while self.peek() != '\n' && !self.is_at_end()
                        invariant
                            self.wf(),
                            self.same_text(old(self)),
                            self.tokens == old(self).tokens,
                            self.start == old(self).start,
                            self.line == old(self).line,
                            src == self.source@,
                            start + 2 <= self.current,
                            line_end(src, self.current as int) == line_end(src, start + 2),
                        decreases src.len() - self.current,
                    {
                        self.advance();
                    }
                } else {
                    self.add_token(TokenType::Slash)
                }
            },
            ' ' | '\r' | '\t' => {},
            '\n' => self.line = self.line + 1,
            '"' => {
                return self.string();
            },
            c => {
                if self.is_digit(c) {
                    self.number();
                } else if self.is_alphabetical(c) {
                    self.identifier();
                } else {
                    let mut msg = String::from_str("Unrecognized char at line ");
                    let mut digits: Vec<char> = Vec::new();
                    push_digits(&mut digits, self.line as u64);
                    append_chars(&mut msg, &digits, 0, digits.len());
                    msg.append(": ");
                    push_char(&mut msg, c);
                    assert(msg@ =~= unrecognized_message(old(self).line as nat, c));
                    return Err(msg);
                }
            },
        }
        Ok(())
    }

    /// Scans the rest of the source, closing the tokens with the end-of-input
    /// token. Scanning goes on past each error; where there were any, the
    /// result is their messages, each followed by a newline.
    pub fn scan_tokens(&mut self) -> (r: Result<Vec<Token>, String>)
        requires
            old(self).wf(),
        ensures
            final(self).wf(),
            final(self).text() == old(self).text(),
            final(self).position() == old(self).text().len(),
            ({
                let s = scan_from(old(self).text(), old(self).position(), old(self).current_line());
                &&& final(self).current_line() == s.line
                &&& final(self).scanned() == old(self).scanned() + s.tokens.push(eof_token(s.line))
                &&& match r {
                    Ok(v) => s.errors.len() == 0 && token_models(v@) == final(self).scanned(),
                    Err(e) => s.errors.len() > 0 && e@ == joined(s.errors),
                }
            }),
    {
        let ghost src = self.source@;
        let ghost total = scan_from(src, self.current as int, self.line as nat);
        let mut errors: Vec<String> = Vec::new();
        while !self.is_at_end()
            invariant
                self.wf(),
                self.same_text(old(self)),
                src == self.source@,
                total == scan_from(src, old(self).current as int, old(self).line as nat),
                old(self).scanned() + total.tokens == self.scanned() + scan_from(
                    src,
                    self.current as int,
                    self.line as nat,
                ).tokens,
                messages(errors@) + scan_from(src, self.current as int, self.line as nat).errors
                    == total.errors,
                scan_from(src, self.current as int, self.line as nat).line == total.line,
            decreases src.len() - self.current,
        {
            let ghost before = *self;
            let ghost errors_before = errors@;
            self.start = self.current;
            let step = self.scan_token();
            match step {
                Ok(_) => (),
                Err(msg) => errors.push(msg),
            }
            proof {
                let st = scan_step(src, before.current as int, before.line as nat);
                let rest = scan_from(src, self.current as int, self.line as nat);
                assert(st.next == self.current);
                assert(scan_from(src, before.current as int, before.line as nat).tokens
                    == prepend(st.token, rest.tokens));
                assert(scan_from(src, before.current as int, before.line as nat).errors
                    == prepend(st.error, rest.errors));
                assert(old(self).scanned() + total.tokens =~= self.scanned() + rest.tokens);
                match st.error {
                    Some(m) => {
                        assert(messages(errors@) =~= messages(errors_before).push(m));
                    },
                    None => {
                        assert(errors@ == errors_before);
                    },
                }
                assert(messages(errors@) + rest.errors =~= total.errors);
            }
        }
        let line = self.line;
        let ghost scanned_before = self.scanned();
        assert(scan_from(src, self.current as int, self.line as nat).tokens =~= seq![]);
        assert(scanned_before =~= old(self).scanned() + total.tokens);
        self.tokens.push(Token {
            token_type: TokenType::Eof,
            lexeme: String::new(),
            literal: None,
            line_number: line,
        });
        assert(self.scanned() =~= scanned_before.push(eof_token(total.line)));
        assert(self.scanned() =~= old(self).scanned() + total.tokens.push(eof_token(total.line)));
        if errors.len() > 0 {
            let mut joined_errors = String::new();
            let mut i: usize = 0;
            while i < errors.len()
                invariant
                    i <= errors@.len(),
                    joined_errors@ == joined(messages(errors@).subrange(0, i as int)),
                decreases errors@.len() - i,
            {
                let ghost part = messages(errors@).subrange(0, i + 1);
                assert(part.drop_last() =~= messages(errors@).subrange(0, i as int));
                joined_errors.append(errors[i].as_str());
                push_char(&mut joined_errors, '\n');
                i = i + 1;
                assert(joined_errors@ =~= joined(part));
            }
            assert(messages(errors@).subrange(0, errors@.len() as int) =~= messages(errors@));
            return Err(joined_errors);
        }
        let mut out: Vec<Token> = Vec::new();
        let mut i: usize = 0;
        while i < self.tokens.len()
            invariant
                i <= self.tokens@.len(),
                out@.len() == i,
                forall|j: int| 0 <= j < i ==> (#[trigger] out@[j])@ == self.tokens@[j]@,
            decreases self.tokens@.len() - i,
        {
            out.push(self.tokens[i].duplicate());
            i = i + 1;
        }
        assert(token_models(out@) =~= token_models(self.tokens@));
        Ok(out)
    }
}

} // verus!
