use vstd::prelude::*;

use crate::expression::ExprModel;
use crate::parser::{
    is_comparison_op, is_equality_op, is_factor_op, is_literal_kind, is_term_op, is_unary_op,
    kind_at, parse_comparison, parse_equality, parse_expression, parse_factor, parse_primary,
    parse_term, parse_unary, Parsed, binary, parse_tokens, equality_rest, comparison_rest,
    term_rest, factor_rest,
};
use crate::expression::{render, token_value};
use crate::token::{TokenModel, TokenType};

verus! {

/// Whether a token kind is an infix operator of the grammar.
pub open spec fn is_binary_op(k: TokenType) -> bool {
    is_equality_op(k) || is_comparison_op(k) || is_term_op(k) || is_factor_op(k)
}

/// The error "Expected expression" at position `p`.
pub open spec fn expected_expression(p: int) -> Parsed {
    Err(("Expected expression"@, p))
}

/// A token that cannot begin an operand (end-of-input among them): every
/// level of the grammar reports "Expected expression" at that token, with no
/// token consumed.
pub proof fn lemma_no_operand(ts: Seq<TokenModel>, p: int)
    requires
        !is_literal_kind(kind_at(ts, p)),
        !is_unary_op(kind_at(ts, p)),
        kind_at(ts, p) != TokenType::LeftParen,
    ensures
        parse_primary(ts, p) == expected_expression(p),
        parse_unary(ts, p) == expected_expression(p),
        parse_factor(ts, p) == expected_expression(p),
        parse_term(ts, p) == expected_expression(p),
        parse_comparison(ts, p) == expected_expression(p),
        parse_equality(ts, p) == expected_expression(p),
        parse_expression(ts, p) == expected_expression(p),
{
    assert(parse_primary(ts, p) == expected_expression(p));
    assert(parse_unary(ts, p) == expected_expression(p));
    assert(parse_factor(ts, p) == expected_expression(p));
    assert(parse_term(ts, p) == expected_expression(p));
    assert(parse_comparison(ts, p) == expected_expression(p));
    assert(parse_equality(ts, p) == expected_expression(p));
}

/// An operand followed by an infix operator and then end-of-input is a
/// syntax error, with no expression returned.
pub proof fn lemma_trailing_operator(ts: Seq<TokenModel>, p: int)
    requires
        is_literal_kind(kind_at(ts, p)),
        is_binary_op(kind_at(ts, p + 1)),
        kind_at(ts, p + 2) == TokenType::Eof,
    ensures
        parse_expression(ts, p) == expected_expression(p + 2),
{
    lemma_no_operand(ts, p + 2);
    let k = kind_at(ts, p + 1);
    assert(!is_unary_op(kind_at(ts, p)));
    let lit = parse_primary(ts, p);
    assert(lit is Ok && lit->Ok_0.1 == p + 1);
    assert(parse_unary(ts, p) == lit);
    if is_factor_op(k) {
        assert(parse_factor(ts, p) == expected_expression(p + 2));
        assert(parse_term(ts, p) == expected_expression(p + 2));
        assert(parse_comparison(ts, p) == expected_expression(p + 2));
    } else {
        assert(parse_factor(ts, p) == lit);
        if is_term_op(k) {
            assert(parse_term(ts, p) == expected_expression(p + 2));
            assert(parse_comparison(ts, p) == expected_expression(p + 2));
        } else {
            assert(parse_term(ts, p) == lit);
            if is_comparison_op(k) {
                assert(parse_comparison(ts, p) == expected_expression(p + 2));
            } else {
                assert(parse_comparison(ts, p) == lit);
            }
        }
    }
    assert(parse_equality(ts, p) == expected_expression(p + 2));
}

/// A group whose inner expression is not followed by `)` is the syntax error
/// "Expected ')'" at the token that should have been `)`.
pub proof fn lemma_unclosed_group(ts: Seq<TokenModel>, p: int, e: ExprModel, q: int)
    requires
        kind_at(ts, p) == TokenType::LeftParen,
        parse_expression(ts, p + 1) == Ok::<(ExprModel, int), (Seq<char>, int)>((e, q)),
        kind_at(ts, q) != TokenType::RightParen,
    ensures
        parse_expression(ts, p) == Err::<(ExprModel, int), (Seq<char>, int)>(("Expected ')'"@, q)),
{
    let err = Err::<(ExprModel, int), (Seq<char>, int)>(("Expected ')'"@, q));
    assert(parse_primary(ts, p) == err);
    assert(parse_unary(ts, p) == err);
    assert(parse_factor(ts, p) == err);
    assert(parse_term(ts, p) == err);
    assert(parse_comparison(ts, p) == err);
    assert(parse_equality(ts, p) == err);
}

/// Whether two operator kinds stand on the same level of the grammar.
pub open spec fn same_level(a: TokenType, b: TokenType) -> bool {
    (is_equality_op(a) && is_equality_op(b)) || (is_comparison_op(a) && is_comparison_op(b)) || (
    is_term_op(a) && is_term_op(b)) || (is_factor_op(a) && is_factor_op(b))
}

/// The literal expression of the token at `i`.
pub open spec fn literal_at(ts: Seq<TokenModel>, i: int) -> ExprModel {
    ExprModel::Literal { value: token_value(ts[i]) }
}

/// Operators of one level chain to the left: `a o1 b o2 c` is `((a o1 b) o2 c)`.
#[verifier::rlimit(50)]
pub proof fn lemma_left_associative(ts: Seq<TokenModel>)
    requires
        ts.len() >= 5,
        is_literal_kind(kind_at(ts, 0)),
        is_literal_kind(kind_at(ts, 2)),
        is_literal_kind(kind_at(ts, 4)),
        is_binary_op(kind_at(ts, 1)),
        same_level(kind_at(ts, 1), kind_at(ts, 3)),
        kind_at(ts, 5) == TokenType::Eof,
    ensures
        parse_tokens(ts) == Ok::<ExprModel, Seq<char>>(
            binary(binary(literal_at(ts, 0), ts[1], literal_at(ts, 2)), ts[3], literal_at(ts, 4)),
        ),
{
    let a = literal_at(ts, 0);
    let b = literal_at(ts, 2);
    let c = literal_at(ts, 4);
    let ab = binary(a, ts[1], b);
    let abc = binary(ab, ts[3], c);
    let k = kind_at(ts, 1);
    let done = Ok::<(ExprModel, int), (Seq<char>, int)>((abc, 5));
    assert(parse_unary(ts, 0) == Ok::<(ExprModel, int), (Seq<char>, int)>((a, 1)));
    assert(parse_unary(ts, 2) == Ok::<(ExprModel, int), (Seq<char>, int)>((b, 3)));
    assert(parse_unary(ts, 4) == Ok::<(ExprModel, int), (Seq<char>, int)>((c, 5)));
    assert(factor_rest(ts, 5, abc) == done);
    assert(term_rest(ts, 5, abc) == done);
    assert(comparison_rest(ts, 5, abc) == done);
    assert(equality_rest(ts, 5, abc) == done);
    if is_factor_op(k) {
        assert(factor_rest(ts, 3, ab) == done);
        assert(factor_rest(ts, 1, a) == done);
        assert(parse_factor(ts, 0) == done);
        assert(parse_term(ts, 0) == done);
        assert(parse_comparison(ts, 0) == done);
    } else {
        assert(parse_factor(ts, 4) == Ok::<(ExprModel, int), (Seq<char>, int)>((c, 5)));
        assert(parse_factor(ts, 2) == Ok::<(ExprModel, int), (Seq<char>, int)>((b, 3)));
        assert(parse_factor(ts, 0) == Ok::<(ExprModel, int), (Seq<char>, int)>((a, 1)));
        if is_term_op(k) {
            assert(term_rest(ts, 3, ab) == done);
            assert(term_rest(ts, 1, a) == done);
            assert(parse_term(ts, 0) == done);
            assert(parse_comparison(ts, 0) == done);
        } else {
            assert(parse_term(ts, 4) == Ok::<(ExprModel, int), (Seq<char>, int)>((c, 5)));
            assert(parse_term(ts, 2) == Ok::<(ExprModel, int), (Seq<char>, int)>((b, 3)));
            assert(parse_term(ts, 0) == Ok::<(ExprModel, int), (Seq<char>, int)>((a, 1)));
            if is_comparison_op(k) {
                assert(comparison_rest(ts, 3, ab) == done);
                assert(comparison_rest(ts, 1, a) == done);
                assert(parse_comparison(ts, 0) == done);
            } else {
                assert(parse_comparison(ts, 4) == Ok::<(ExprModel, int), (Seq<char>, int)>((c, 5)));
                assert(parse_comparison(ts, 2) == Ok::<(ExprModel, int), (Seq<char>, int)>((b, 3)));
                assert(parse_comparison(ts, 0) == Ok::<(ExprModel, int), (Seq<char>, int)>((a, 1)));
                assert(equality_rest(ts, 3, ab) == done);
                assert(equality_rest(ts, 1, a) == done);
            }
        }
    }
    assert(parse_equality(ts, 0) == done);
    assert(parse_expression(ts, 0) == done);
}

/// The precedence level of an infix operator, from 1 (equality, binding
/// loosest) to 4 (factor, binding tightest); 0 for any other token.
pub open spec fn op_level(k: TokenType) -> int {
    if is_equality_op(k) {
        1
    } else if is_comparison_op(k) {
        2
    } else if is_term_op(k) {
        3
    } else if is_factor_op(k) {
        4
    } else {
        0
    }
}

/// The production of level `l`: equality, comparison, term, factor, and unary past them.
pub open spec fn parse_at(ts: Seq<TokenModel>, pos: int, l: int) -> Parsed {
    if l == 1 {
        parse_equality(ts, pos)
    } else if l == 2 {
        parse_comparison(ts, pos)
    } else if l == 3 {
        parse_term(ts, pos)
    } else if l == 4 {
        parse_factor(ts, pos)
    } else {
        parse_unary(ts, pos)
    }
}

/// The operator loop of the production of level `l`.
pub open spec fn rest_at(ts: Seq<TokenModel>, p: int, left: ExprModel, l: int) -> Parsed {
    if l == 1 {
        equality_rest(ts, p, left)
    } else if l == 2 {
        comparison_rest(ts, p, left)
    } else if l == 3 {
        term_rest(ts, p, left)
    } else {
        factor_rest(ts, p, left)
    }
}

proof fn lemma_level_unfold(ts: Seq<TokenModel>, pos: int, l: int)
    requires
        1 <= l <= 4,
    ensures
        parse_at(ts, pos, l) == match parse_at(ts, pos, l + 1) {
            Ok((e, p)) => if p < pos || p > ts.len() {
                Err((seq![], pos))
            } else {
                rest_at(ts, p, e, l)
            },
            Err(m) => Err(m),
        },
{
}

proof fn lemma_rest_stop(ts: Seq<TokenModel>, p: int, left: ExprModel, l: int)
    requires
        1 <= l <= 4,
        op_level(kind_at(ts, p)) != l,
    ensures
        rest_at(ts, p, left, l) == Ok::<(ExprModel, int), (Seq<char>, int)>((left, p)),
{
}

proof fn lemma_rest_step(ts: Seq<TokenModel>, p: int, left: ExprModel, l: int)
    requires
        1 <= l <= 4,
        op_level(kind_at(ts, p)) == l,
    ensures
        rest_at(ts, p, left, l) == match parse_at(ts, p + 1, l + 1) {
            Ok((r, q)) => if q <= p || q > ts.len() {
                Err((seq![], p))
            } else {
                rest_at(ts, q, binary(left, ts[p], r), l)
            },
            Err(m) => Err(m),
        },
{
}

/// A literal followed by no operator of level `l` or tighter is, at level
/// `l`, just that literal.
proof fn lemma_operand(ts: Seq<TokenModel>, i: int, l: int)
    requires
        1 <= l <= 5,
        is_literal_kind(kind_at(ts, i)),
        op_level(kind_at(ts, i + 1)) < l,
        i + 1 <= ts.len(),
    ensures
        parse_at(ts, i, l) == Ok::<(ExprModel, int), (Seq<char>, int)>((literal_at(ts, i), i + 1)),
    decreases 5 - l,
{
    if l == 5 {
        assert(parse_primary(ts, i) == Ok::<(ExprModel, int), (Seq<char>, int)>(
            (literal_at(ts, i), i + 1),
        ));
    } else {
        lemma_operand(ts, i, l + 1);
        lemma_level_unfold(ts, i, l);
        lemma_rest_stop(ts, i + 1, literal_at(ts, i), l);
    }
}

/// `x op y` followed by no operator: at levels up to the operator's it is the
/// binary expression, at tighter levels just `x`.
proof fn lemma_one_operator(ts: Seq<TokenModel>, i: int, l: int)
    requires
        1 <= l <= 5,
        is_literal_kind(kind_at(ts, i)),
        is_literal_kind(kind_at(ts, i + 2)),
        op_level(kind_at(ts, i + 1)) >= 1,
        op_level(kind_at(ts, i + 3)) == 0,
        i + 3 <= ts.len(),
    ensures
        parse_at(ts, i, l) == if l <= op_level(kind_at(ts, i + 1)) {
            Ok::<(ExprModel, int), (Seq<char>, int)>(
                (binary(literal_at(ts, i), ts[i + 1], literal_at(ts, i + 2)), i + 3),
            )
        } else {
            Ok::<(ExprModel, int), (Seq<char>, int)>((literal_at(ts, i), i + 1))
        },
    decreases 5 - l,
{
    let lv = op_level(kind_at(ts, i + 1));
    let x = literal_at(ts, i);
    let xy = binary(x, ts[i + 1], literal_at(ts, i + 2));
    if l == 5 {
        lemma_operand(ts, i, 5);
    } else {
        lemma_one_operator(ts, i, l + 1);
        lemma_level_unfold(ts, i, l);
        if l + 1 <= lv {
            lemma_rest_stop(ts, i + 3, xy, l);
        } else if l == lv {
            lemma_rest_step(ts, i + 1, x, l);
            lemma_operand(ts, i + 2, l + 1);
            lemma_rest_stop(ts, i + 3, xy, l);
        } else {
            lemma_rest_stop(ts, i + 1, x, l);
        }
    }
}

/// What level `l` of the grammar makes of `a o1 b o2 c` when the two
/// operators stand on different levels.
pub open spec fn mixed_at(ts: Seq<TokenModel>, l: int) -> Parsed {
    let l1 = op_level(kind_at(ts, 1));
    let l2 = op_level(kind_at(ts, 3));
    let a = literal_at(ts, 0);
    let b = literal_at(ts, 2);
    let c = literal_at(ts, 4);
    if l > l1 {
        Ok((a, 1))
    } else if l1 < l2 {
        Ok((binary(a, ts[1], binary(b, ts[3], c)), 5))
    } else if l > l2 {
        Ok((binary(a, ts[1], b), 3))
    } else {
        Ok((binary(binary(a, ts[1], b), ts[3], c), 5))
    }
}

proof fn lemma_mixed(ts: Seq<TokenModel>, l: int)
    requires
        1 <= l <= 5,
        ts.len() >= 5,
        is_literal_kind(kind_at(ts, 0)),
        is_literal_kind(kind_at(ts, 2)),
        is_literal_kind(kind_at(ts, 4)),
        op_level(kind_at(ts, 1)) >= 1,
        op_level(kind_at(ts, 3)) >= 1,
        op_level(kind_at(ts, 1)) != op_level(kind_at(ts, 3)),
        op_level(kind_at(ts, 5)) == 0,
    ensures
        parse_at(ts, 0, l) == mixed_at(ts, l),
    decreases 5 - l,
{
    let l1 = op_level(kind_at(ts, 1));
    let l2 = op_level(kind_at(ts, 3));
    let a = literal_at(ts, 0);
    let b = literal_at(ts, 2);
    if l > l1 {
        lemma_operand(ts, 0, l);
    } else {
        lemma_mixed(ts, l + 1);
        lemma_level_unfold(ts, 0, l);
        let r = mixed_at(ts, l);
        if l == l1 {
            lemma_rest_step(ts, 1, a, l);
            if l1 < l2 {
                lemma_one_operator(ts, 2, l + 1);
                lemma_rest_stop(ts, 5, r->Ok_0.0, l);
            } else {
                lemma_operand(ts, 2, l + 1);
                if l > l2 {
                    lemma_rest_stop(ts, 3, binary(a, ts[1], b), l);
                }
            }
        } else if l1 < l2 || l < l2 {
            lemma_rest_stop(ts, 5, r->Ok_0.0, l);
        } else if l > l2 {
            lemma_rest_stop(ts, 3, binary(a, ts[1], b), l);
        } else {
            lemma_rest_step(ts, 3, binary(a, ts[1], b), l);
            lemma_operand(ts, 4, l + 1);
            lemma_rest_stop(ts, 5, r->Ok_0.0, l);
        }
    }
}

/// Precedence is kept across levels: in `a o1 b o2 c`, the operator that binds
/// tighter takes its operands first.
pub proof fn lemma_precedence(ts: Seq<TokenModel>)
    requires
        ts.len() >= 5,
        is_literal_kind(kind_at(ts, 0)),
        is_literal_kind(kind_at(ts, 2)),
        is_literal_kind(kind_at(ts, 4)),
        is_binary_op(kind_at(ts, 1)),
        is_binary_op(kind_at(ts, 3)),
        !same_level(kind_at(ts, 1), kind_at(ts, 3)),
        kind_at(ts, 5) == TokenType::Eof,
    ensures
        op_level(kind_at(ts, 1)) < op_level(kind_at(ts, 3)) ==> parse_tokens(ts) == Ok::<
            ExprModel,
            Seq<char>,
        >(binary(literal_at(ts, 0), ts[1], binary(literal_at(ts, 2), ts[3], literal_at(ts, 4)))),
        op_level(kind_at(ts, 1)) > op_level(kind_at(ts, 3)) ==> parse_tokens(ts) == Ok::<
            ExprModel,
            Seq<char>,
        >(binary(binary(literal_at(ts, 0), ts[1], literal_at(ts, 2)), ts[3], literal_at(ts, 4))),
{
    lemma_mixed(ts, 1);
}

/// A parenthesized expression stays a group in the tree, and its rendering
/// wraps the inner rendering in `(group ...)`.
pub proof fn lemma_group_kept(ts: Seq<TokenModel>, p: int, e: ExprModel, q: int)
    requires
        kind_at(ts, p) == TokenType::LeftParen,
        parse_expression(ts, p + 1) == Ok::<(ExprModel, int), (Seq<char>, int)>((e, q)),
        kind_at(ts, q) == TokenType::RightParen,
    ensures
        parse_unary(ts, p) == Ok::<(ExprModel, int), (Seq<char>, int)>(
            (ExprModel::Grouping { inner: Box::new(e) }, q + 1),
        ),
        render(ExprModel::Grouping { inner: Box::new(e) }) == seq!['(', 'g', 'r', 'o', 'u', 'p', ' ']
            + render(e) + seq![')'],
{
    assert(parse_primary(ts, p) == Ok::<(ExprModel, int), (Seq<char>, int)>(
        (ExprModel::Grouping { inner: Box::new(e) }, q + 1),
    ));
}

} // verus!
