use vstd::prelude::*;

use crate::lexer::{
    digits_end, digits_value, eof_token, ident_end, is_alnum_char, is_alpha_char, is_digit_char,
    keyword_of, keyword_table, lex, lookup_from, newlines, number_digits, operator_kinds,
    quote_end, scan_from, scan_step, single_char_kind, token_step, string_step, word_step,
    number_end, number_step, prepend, Step,
};
use crate::expression::is_literal_token;
use crate::parser::literal_payloads;
use crate::token::{DecimalModel, LiteralModel, TokenModel, TokenType};

verus! {

/// The token that a character standing alone always makes.
pub open spec fn punctuation_kind(c: char) -> TokenType {
    if c == '/' {
        TokenType::Slash
    } else {
        single_char_kind(c)->0
    }
}

/// The kind of an operator character followed by `=`.
pub open spec fn paired_kind(c: char) -> TokenType {
    match operator_kinds(c) {
        Some((_, two)) => two,
        None => TokenType::Eof,
    }
}

/// The kind of an operator character standing alone.
pub open spec fn lone_kind(c: char) -> TokenType {
    match operator_kinds(c) {
        Some((one, _)) => one,
        None => TokenType::Eof,
    }
}

/// A token without payload on line 1.
pub open spec fn plain(kind: TokenType, lexeme: Seq<char>) -> TokenModel {
    TokenModel { kind, lexeme, literal: None, line: 1 }
}

/// Whether a character always makes a token of its own.
pub open spec fn is_punctuation(c: char) -> bool {
    single_char_kind(c) is Some || c == '/'
}

/// The tokens of a run of punctuation on line 1: one for each character.
pub open spec fn punctuation_tokens(src: Seq<char>, pos: int) -> Seq<TokenModel> {
    Seq::new(
        (src.len() - pos) as nat,
        |i: int| plain(punctuation_kind(src[pos + i]), seq![src[pos + i]]),
    )
}

proof fn lemma_punctuation_from(src: Seq<char>, pos: int)
    requires
        0 <= pos <= src.len(),
        forall|i: int| pos <= i < src.len() ==> is_punctuation(#[trigger] src[i]),
        forall|i: int| pos <= i < src.len() - 1 ==> !(#[trigger] src[i] == '/' && src[i + 1] == '/'),
    ensures
        scan_from(src, pos, 1).tokens == punctuation_tokens(src, pos),
        scan_from(src, pos, 1).errors.len() == 0,
        scan_from(src, pos, 1).line == 1,
    decreases src.len() - pos,
{
    if pos < src.len() {
        lemma_punctuation_from(src, pos + 1);
        assert(src.subrange(pos, pos + 1) =~= seq![src[pos]]);
        let st = scan_step(src, pos, 1);
        assert(st.next == pos + 1);
        assert(st.token == Some(plain(punctuation_kind(src[pos]), seq![src[pos]])));
        assert(scan_from(src, pos, 1).tokens =~= punctuation_tokens(src, pos));
    } else {
        assert(punctuation_tokens(src, pos) =~= Seq::<TokenModel>::empty());
    }
}

/// Punctuation scans to one token per character, each of its character's
/// kind, holding that character, on line 1, followed by end-of-input; two
/// slashes in a row are left out, as they begin a comment.
pub proof fn lemma_punctuation(src: Seq<char>)
    requires
        forall|i: int| 0 <= i < src.len() ==> is_punctuation(#[trigger] src[i]),
        forall|i: int| 0 <= i < src.len() - 1 ==> !(#[trigger] src[i] == '/' && src[i + 1] == '/'),
    ensures
        lex(src) is Ok,
        lex(src)->Ok_0 == punctuation_tokens(src, 0).push(eof_token(1)),
        lex(src)->Ok_0.len() == src.len() + 1,
{
    lemma_punctuation_from(src, 0);
}

/// An operator character followed by `=` is scanned as one two-character
/// token, wherever it stands.
pub proof fn lemma_two_char_operator(src: Seq<char>, i: int, line: nat)
    requires
        0 <= i,
        i + 1 < src.len(),
        operator_kinds(src[i]) is Some,
        src[i + 1] == '=',
    ensures
        scan_step(src, i, line) == token_step(src, i, i + 2, line, paired_kind(src[i])),
        scan_step(src, i, line).token->0.lexeme == seq![src[i], '='],
{
    assert(src.subrange(i, i + 2) =~= seq![src[i], '=']);
}

/// An operator character not followed by `=` is scanned alone, and the
/// character after it is left for the next token.
pub proof fn lemma_one_char_operator(src: Seq<char>, i: int, line: nat)
    requires
        0 <= i < src.len(),
        operator_kinds(src[i]) is Some,
        !(i + 1 < src.len() && src[i + 1] == '='),
    ensures
        scan_step(src, i, line) == token_step(src, i, i + 1, line, lone_kind(src[i])),
        scan_step(src, i, line).next == i + 1,
        scan_step(src, i, line).token->0.lexeme == seq![src[i]],
{
    assert(src.subrange(i, i + 1) =~= seq![src[i]]);
}

proof fn lemma_quote_end(src: Seq<char>, i: int, e: int)
    requires
        0 <= i <= e <= src.len(),
        forall|j: int| i <= j < e ==> src[j] != '"',
        e == src.len() || src[e] == '"',
    ensures
        quote_end(src, i) == e,
    decreases e - i,
{
    if i < e {
        lemma_quote_end(src, i + 1, e);
    }
}

proof fn lemma_digits_end(src: Seq<char>, i: int, e: int)
    requires
        0 <= i <= e <= src.len(),
        forall|j: int| i <= j < e ==> is_digit_char(src[j]),
        e == src.len() || !is_digit_char(src[e]),
    ensures
        digits_end(src, i) == e,
    decreases e - i,
{
    if i < e {
        lemma_digits_end(src, i + 1, e);
    }
}

proof fn lemma_ident_end(src: Seq<char>, i: int, e: int)
    requires
        0 <= i <= e <= src.len(),
        forall|j: int| i <= j < e ==> is_alnum_char(src[j]),
        e == src.len() || !is_alnum_char(src[e]),
    ensures
        ident_end(src, i) == e,
    decreases e - i,
{
    if i < e {
        lemma_ident_end(src, i + 1, e);
    }
}

/// A string literal's payload is exactly the text between its quotes, newlines
/// included; the token stands on the line where it starts, and the line count
/// goes on after the newlines inside it.
pub proof fn lemma_string_round_trip(s: Seq<char>)
    requires
        !s.contains('"'),
    ensures
        ({
            let src = seq!['"'] + s + seq!['"'];
            &&& lex(src) is Ok
            &&& lex(src)->Ok_0 == seq![
                TokenModel {
                    kind: TokenType::StringLiteral,
                    lexeme: src,
                    literal: Some(LiteralModel::Str(s)),
                    line: 1,
                },
                eof_token(1 + newlines(s)),
            ]
        }),
{
    let src = seq!['"'] + s + seq!['"'];
    let e = s.len() + 1int;
    assert forall|j: int| 1 <= j < e implies src[j] != '"' by {
        assert(src[j] == s[j - 1]);
        if src[j] == '"' {
            assert(s.contains('"'));
        }
    }
    lemma_quote_end(src, 1, e);
    assert(src.subrange(1, e) =~= s);
    assert(src.subrange(0, e + 1) =~= src);
    assert(src[0] == '"');
    assert(scan_step(src, 0, 1) == string_step(src, 0, 1));
    assert(scan_step(src, 0, 1).next == e + 1);
    assert(scan_step(src, 0, 1).line == 1 + newlines(s));
    let rest = scan_from(src, e + 1, 1 + newlines(s));
    assert(rest.tokens.len() == 0 && rest.errors.len() == 0);
    assert(rest.line == 1 + newlines(s));
    assert(scan_from(src, 0, 1).errors.len() == 0);
    assert(scan_from(src, 0, 1).line == 1 + newlines(s));
    let toks = scan_from(src, 0, 1).tokens;
    assert(toks =~= seq![
        TokenModel {
            kind: TokenType::StringLiteral,
            lexeme: src,
            literal: Some(LiteralModel::Str(s)),
            line: 1,
        },
    ]);
    assert(lex(src)->Ok_0 =~= toks.push(eof_token(1 + newlines(s))));
}

/// A string literal without its closing quote is a lexical error, and yields
/// no token.
pub proof fn lemma_unterminated_string(s: Seq<char>)
    requires
        !s.contains('"'),
    ensures
        ({
            let src = seq!['"'] + s;
            &&& scan_from(src, 0, 1).tokens.len() == 0
            &&& scan_from(src, 0, 1).errors == seq!["Unterminated string."@]
            &&& lex(src) is Err
        }),
{
    let src = seq!['"'] + s;
    let e = src.len() as int;
    assert forall|j: int| 1 <= j < e implies src[j] != '"' by {
        assert(src[j] == s[j - 1]);
        if src[j] == '"' {
            assert(s.contains('"'));
        }
    }
    lemma_quote_end(src, 1, e);
    let rest = scan_from(src, e, newlines(src.subrange(1, e)) + 1);
    assert(rest.tokens.len() == 0 && rest.errors.len() == 0);
    assert(scan_from(src, 0, 1).errors =~= seq!["Unterminated string."@]);
}

/// Wherever scanning reaches an opening quote with a closing quote later on,
/// it makes one string token whose payload is exactly the text between the
/// quotes, on the line where it starts; the line count goes on after the
/// newlines inside it.
pub proof fn lemma_string_at(src: Seq<char>, pos: int, e: int, line: nat)
    requires
        0 <= pos < e < src.len(),
        src[pos] == '"',
        src[e] == '"',
        forall|j: int| pos < j < e ==> src[j] != '"',
    ensures
        scan_step(src, pos, line) == (Step {
            next: e + 1,
            line: line + newlines(src.subrange(pos + 1, e)),
            token: Some(
                TokenModel {
                    kind: TokenType::StringLiteral,
                    lexeme: src.subrange(pos, e + 1),
                    literal: Some(LiteralModel::Str(src.subrange(pos + 1, e))),
                    line,
                },
            ),
            error: None,
        }),
{
    lemma_quote_end(src, pos + 1, e);
}

/// Wherever scanning reaches an opening quote with no closing quote after
/// it, the rest of the scan is the one error "Unterminated string." and no
/// token.
pub proof fn lemma_unterminated_at(src: Seq<char>, pos: int, line: nat)
    requires
        0 <= pos < src.len(),
        src[pos] == '"',
        forall|j: int| pos < j < src.len() ==> src[j] != '"',
    ensures
        scan_from(src, pos, line).tokens.len() == 0,
        scan_from(src, pos, line).errors == seq!["Unterminated string."@],
        scan_from(src, pos, line).line == line + newlines(src.subrange(pos + 1, src.len() as int)),
{
    lemma_quote_end(src, pos + 1, src.len() as int);
    let rest = scan_from(
        src,
        src.len() as int,
        line + newlines(src.subrange(pos + 1, src.len() as int)),
    );
    assert(rest.tokens.len() == 0 && rest.errors.len() == 0);
    assert(scan_from(src, pos, line).errors =~= seq!["Unterminated string."@]);
}

/// Ten to the power `n`.
pub open spec fn pow10(n: nat) -> nat
    decreases n,
{
    if n == 0 {
        1
    } else {
        10 * pow10((n - 1) as nat)
    }
}

/// Reading the digits of a number with the point left out gives its value
/// times ten to the number of fraction digits.
pub proof fn lemma_digits_value_split(d: Seq<char>, f: Seq<char>)
    ensures
        digits_value(d + f) == digits_value(d) * pow10(f.len()) + digits_value(f),
    decreases f.len(),
{
    if f.len() == 0 {
        assert(d + f =~= d);
        assert(pow10(0) == 1);
        assert(digits_value(f) == 0);
    } else {
        let g = f.drop_last();
        lemma_digits_value_split(d, g);
        assert((d + f).drop_last() =~= d + g);
        assert((d + f).last() == f.last());
        let a = digits_value(d);
        let p = pow10(g.len());
        let vg = digits_value(g);
        let x = (f.last() as nat - '0' as nat) as nat;
        assert(digits_value(d + f) == digits_value(d + g) * 10 + x);
        assert(digits_value(f) == vg * 10 + x);
        assert(pow10(f.len()) == 10 * p);
        assert((a * p + vg) * 10 + x == a * (10 * p) + (vg * 10 + x)) by (nonlinear_arith);
        assert(a * pow10(f.len()) == a * (10 * p));
    }
}

/// A numeric literal `digits(.digits)?` of any length scans to one number
/// token whose value is exactly that of the literal: it keeps all its digits,
/// with the number of fraction digits as its scale, and the value of those
/// digits is the integer part times ten to the scale, plus the fraction
/// digits' value.
#[verifier::rlimit(50)]
pub proof fn lemma_number_literal(d: Seq<char>, f: Seq<char>)
    requires
        d.len() > 0,
        forall|j: int| 0 <= j < d.len() ==> is_digit_char(#[trigger] d[j]),
        forall|j: int| 0 <= j < f.len() ==> is_digit_char(#[trigger] f[j]),
    ensures
        ({
            let src = if f.len() == 0 {
                d
            } else {
                d + seq!['.'] + f
            };
            let value = DecimalModel { negative: false, digits: d + f, scale: f.len() };
            lex(src) == Ok::<Seq<TokenModel>, Seq<char>>(
                seq![
                    TokenModel {
                        kind: TokenType::Number,
                        lexeme: src,
                        literal: Some(LiteralModel::Dec(value)),
                        line: 1,
                    },
                    eof_token(1),
                ],
            )
        }),
        digits_value(d + f) == digits_value(d) * pow10(f.len()) + digits_value(f),
{
    lemma_digits_value_split(d, f);
    let src = if f.len() == 0 {
        d
    } else {
        d + seq!['.'] + f
    };
    let n = d.len() as int;
    assert forall|j: int| 0 <= j < n implies is_digit_char(src[j]) by {
        assert(src[j] == d[j]);
    }
    if f.len() == 0 {
        lemma_digits_end(src, 0, n);
        assert(src.subrange(0, n) =~= d + f);
    } else {
        assert(src[n] == '.');
        lemma_digits_end(src, 0, n);
        assert forall|j: int| n + 1 <= j < src.len() implies is_digit_char(src[j]) by {
            assert(src[j] == f[j - n - 1]);
        }
        assert(src[n + 1] == f[0]);
        lemma_digits_end(src, n + 1, src.len() as int);
        assert(src.subrange(0, n) =~= d);
        assert(src.subrange(n + 1, src.len() as int) =~= f);
        assert(number_digits(src, 0) =~= d + f);
    }
    assert(src.subrange(0, src.len() as int) =~= src);
    assert(number_end(src, 0) == src.len());
    assert(scan_step(src, 0, 1) == number_step(src, 0, 1));
    let rest = scan_from(src, src.len() as int, 1);
    assert(rest.tokens.len() == 0 && rest.errors.len() == 0);
    let value = DecimalModel { negative: false, digits: d + f, scale: f.len() };
    let tok = TokenModel {
        kind: TokenType::Number,
        lexeme: src,
        literal: Some(LiteralModel::Dec(value)),
        line: 1,
    };
    assert(scan_from(src, 0, 1).tokens =~= seq![tok]);
    assert(lex(src)->Ok_0 =~= seq![tok, eof_token(1)]);
}

/// A point after a number's digits with no digit after it is not part of the
/// number: it is scanned as a separate `.` token.
pub proof fn lemma_trailing_point(d: Seq<char>)
    requires
        d.len() > 0,
        forall|j: int| 0 <= j < d.len() ==> is_digit_char(#[trigger] d[j]),
    ensures
        ({
            let src = d + seq!['.'];
            let value = DecimalModel { negative: false, digits: d, scale: 0 };
            lex(src) == Ok::<Seq<TokenModel>, Seq<char>>(
                seq![
                    TokenModel {
                        kind: TokenType::Number,
                        lexeme: d,
                        literal: Some(LiteralModel::Dec(value)),
                        line: 1,
                    },
                    plain(TokenType::Dot, seq!['.']),
                    eof_token(1),
                ],
            )
        }),
{
    let src = d + seq!['.'];
    let n = d.len() as int;
    assert forall|j: int| 0 <= j < n implies is_digit_char(src[j]) by {
        assert(src[j] == d[j]);
    }
    lemma_digits_end(src, 0, n);
    assert(src.subrange(0, n) =~= d);
    assert(src.subrange(n, n + 1) =~= seq!['.']);
    let last = scan_from(src, n + 1, 1);
    assert(last.tokens.len() == 0 && last.errors.len() == 0);
    let dot = scan_from(src, n, 1);
    assert(dot.tokens =~= seq![plain(TokenType::Dot, seq!['.'])]);
    let value = DecimalModel { negative: false, digits: d, scale: 0 };
    let tok = TokenModel {
        kind: TokenType::Number,
        lexeme: d,
        literal: Some(LiteralModel::Dec(value)),
        line: 1,
    };
    assert(scan_from(src, 0, 1).tokens =~= seq![tok, plain(TokenType::Dot, seq!['.'])]);
    assert(lex(src)->Ok_0 =~= seq![tok, plain(TokenType::Dot, seq!['.']), eof_token(1)]);
}

proof fn lemma_lookup_exact(table: Seq<(Seq<char>, TokenType)>, w: Seq<char>, i: int)
    ensures
        lookup_from(table, w, i) matches Some(k) ==> table.contains((w, k)),
    decreases table.len() - i,
{
    if 0 <= i < table.len() && table[i].0 != w {
        lemma_lookup_exact(table, w, i + 1);
    }
    if 0 <= i < table.len() && table[i].0 == w {
        assert(table[i] == (w, table[i].1));
    }
}

/// Keyword lookup is an exact, case-sensitive match: a word is a keyword only
/// where the table spells it letter for letter.
pub proof fn lemma_keyword_exact(w: Seq<char>)
    ensures
        keyword_of(w) matches Some(k) ==> keyword_table().contains((w, k)),
{
    lemma_lookup_exact(keyword_table(), w, 0);
}

/// A word scans to its keyword's token where the table spells it exactly,
/// and to an identifier otherwise.
pub proof fn lemma_word(w: Seq<char>)
    requires
        w.len() > 0,
        is_alpha_char(w[0]),
        forall|j: int| 0 <= j < w.len() ==> is_alnum_char(#[trigger] w[j]),
    ensures
        lex(w) is Ok,
        lex(w)->Ok_0 == seq![
            plain(
                match keyword_of(w) {
                    Some(k) => k,
                    None => TokenType::Identifier,
                },
                w,
            ),
            eof_token(1),
        ],
{
    lemma_ident_end(w, 1, w.len() as int);
    assert(w.subrange(0, w.len() as int) =~= w);
    assert(scan_step(w, 0, 1) == word_step(w, 0, 1));
    assert(scan_step(w, 0, 1).next == w.len());
    let rest = scan_from(w, w.len() as int, 1);
    assert(rest.tokens.len() == 0 && rest.errors.len() == 0);
    let kind = match keyword_of(w) {
        Some(k) => k,
        None => TokenType::Identifier,
    };
    assert(scan_from(w, 0, 1).tokens =~= seq![plain(kind, w)]);
    assert(rest.line == 1);
    assert(scan_from(w, 0, 1).errors.len() == 0);
    assert(scan_from(w, 0, 1).line == 1);
    assert(lex(w) is Ok);
    assert(lex(w)->Ok_0 =~= seq![plain(kind, w), eof_token(1)]);
    assert(lex(w) == Ok::<Seq<TokenModel>, Seq<char>>(seq![plain(kind, w), eof_token(1)]));
}

proof fn lemma_keyword_kinds(w: Seq<char>)
    ensures
        keyword_of(w) matches Some(k) ==> k != TokenType::Number && k != TokenType::StringLiteral,
{
    lemma_keyword_exact(w);
    let t = keyword_table();
    assert forall|i: int| 0 <= i < t.len() implies #[trigger] t[i].1 != TokenType::Number && t[i].1
        != TokenType::StringLiteral by {}
}

proof fn lemma_scan_payloads(src: Seq<char>, pos: int, line: nat)
    ensures
        literal_payloads(scan_from(src, pos, line).tokens),
    decreases src.len() - pos,
{
    if 0 <= pos < src.len() {
        let st = scan_step(src, pos, line);
        if pos < st.next <= src.len() {
            lemma_scan_payloads(src, st.next, st.line);
            let rest = scan_from(src, st.next, st.line).tokens;
            let all = scan_from(src, pos, line).tokens;
            assert(all == prepend(st.token, rest));
            lemma_keyword_kinds(src.subrange(pos, ident_end(src, pos + 1)));
            if let Some(t) = st.token {
                assert(t.kind == TokenType::Number || t.kind == TokenType::StringLiteral
                    ==> is_literal_token(t));
                assert forall|i: int|
                    0 <= i < all.len() && (all[i].kind == TokenType::Number || all[i].kind
                        == TokenType::StringLiteral) implies is_literal_token(#[trigger] all[i]) by {
                    if i > 0 {
                        assert(all[i] == rest[i - 1]);
                    }
                }
            }
        }
    }
}

/// The tokens the lexer produces can always be handed to the parser: every
/// number carries its value and every string its text.
pub proof fn lemma_lexed_tokens_have_payloads(src: Seq<char>)
    ensures
        lex(src) matches Ok(ts) ==> literal_payloads(ts),
{
    let s = scan_from(src, 0, 1);
    lemma_scan_payloads(src, 0, 1);
    if s.errors.len() == 0 {
        let ts = s.tokens.push(eof_token(s.line));
        assert forall|i: int|
            0 <= i < ts.len() && (ts[i].kind == TokenType::Number || ts[i].kind
                == TokenType::StringLiteral) implies is_literal_token(#[trigger] ts[i]) by {
            if i < s.tokens.len() {
                assert(ts[i] == s.tokens[i]);
            }
        }
    }
}

} // verus!
