//! Laws of the evaluator, stated over the mathematical model and proved
//! for every input.

use crate::eval::{op_result, spec_eval, spec_eval_tokens, EvalOutcome};
use crate::numeric::{
    dec_literal, lemma_dec_literal_parses, lemma_div_trunc_in_range, lemma_literal_token_is_word,
    spec_parse_i32,
};
use crate::tokens::{lemma_single_token, lemma_spec_tokens_split, spec_tokens};
use vstd::arithmetic::div_mod::lemma_div_basics;
use vstd::prelude::*;

verus! {

/// A line holding a single integer literal evaluates to that integer
/// unchanged.
pub proof fn lemma_eval_literal(t: Seq<char>, v: i32)
    requires
        spec_parse_i32(t) == Some(v),
    ensures
        spec_eval(t) == EvalOutcome::Value(v),
{
    lemma_literal_token_is_word(t);
    lemma_single_token(t);
    assert(seq![t].skip(1) =~= Seq::<Seq<char>>::empty());
    assert(Seq::<i32>::empty().push(v) =~= seq![v]);
    assert(spec_eval_tokens(Seq::<Seq<char>>::empty(), seq![v]) == EvalOutcome::Value(v));
    assert(spec_eval_tokens(seq![t], Seq::empty())
        == spec_eval_tokens(Seq::<Seq<char>>::empty(), seq![v]));
}

/// The empty line has no tokens, so the final stack holds no value where
/// exactly one is required.
pub proof fn lemma_eval_empty()
    ensures
        spec_eval(Seq::<char>::empty()) == EvalOutcome::Leftover,
{
    assert(spec_tokens(Seq::<char>::empty()) =~= Seq::<Seq<char>>::empty());
}

/// For any two integer literals `ta` and `tb` with values `a` and `b`,
/// the line `"ta tb op"` yields the exact result of the operator on `a`
/// and `b` whenever that result fits in `i32`; a result outside the
/// `i32` range is an overflow (for `/` that happens only at
/// `i32::MIN / -1`), and `/` with `b == 0` is a division by zero.
pub proof fn lemma_eval_binary(ta: Seq<char>, tb: Seq<char>, a: i32, b: i32, op: char)
    requires
        spec_parse_i32(ta) == Some(a),
        spec_parse_i32(tb) == Some(b),
        op == '+' || op == '-' || op == '*' || op == '/',
    ensures
        op == '/' && b == 0 ==> spec_eval(ta + seq![' '] + tb + seq![' ', op])
            == EvalOutcome::DivByZero,
        !(op == '/' && b == 0) && i32::MIN <= op_result(op, a, b) <= i32::MAX ==> spec_eval(
            ta + seq![' '] + tb + seq![' ', op],
        ) == EvalOutcome::Value(op_result(op, a, b) as i32),
        !(op == '/' && b == 0) && !(i32::MIN <= op_result(op, a, b) <= i32::MAX) ==> spec_eval(
            ta + seq![' '] + tb + seq![' ', op],
        ) == EvalOutcome::Overflow,
        op == '/' && b != 0 ==> ((i32::MIN <= op_result(op, a, b) <= i32::MAX) <==> !(a
            == i32::MIN && b == -1)),
{
    let line = ta + seq![' '] + tb + seq![' ', op];
    lemma_literal_token_is_word(ta);
    lemma_literal_token_is_word(tb);
    let rest = tb + seq![' '] + seq![op];
    assert(line =~= ta + seq![' '] + rest);
    lemma_spec_tokens_split(ta, rest);
    lemma_spec_tokens_split(tb, seq![op]);
    lemma_single_token(ta);
    lemma_single_token(tb);
    assert(forall|i: int|
        0 <= i < seq![op].len() ==> !crate::tokens::is_ascii_space(#[trigger] seq![op][i]));
    lemma_single_token(seq![op]);
    let ts = seq![ta, tb, seq![op]];
    assert(spec_tokens(line) =~= ts);

    assert(spec_parse_i32(seq![op]) is None) by {
        if op == '+' || op == '-' {
            assert(seq![op].skip(1).len() == 0);
        } else {
            assert(!crate::numeric::is_digit(seq![op][0]));
        }
    }

    if op == '/' && b != 0 {
        if a == i32::MIN && b == -1 {
            lemma_div_basics(0x8000_0000int);
            assert(op_result(op, a, b) == 0x8000_0000int);
        } else {
            lemma_div_trunc_in_range(a, b);
        }
    }

    let r = op_result(op, a, b);
    assert(ts.skip(1) =~= seq![tb, seq![op]]);
    assert(seq![tb, seq![op]].skip(1) =~= seq![seq![op]]);
    assert(seq![seq![op]].skip(1) =~= Seq::<Seq<char>>::empty());
    assert(Seq::<i32>::empty().push(a) =~= seq![a]);
    assert(seq![a].push(b) =~= seq![a, b]);
    assert(seq![a, b].take(0) =~= Seq::<i32>::empty());

    assert(spec_eval_tokens(ts, Seq::empty()) == spec_eval_tokens(seq![tb, seq![op]], seq![a]));
    assert(spec_eval_tokens(seq![tb, seq![op]], seq![a])
        == spec_eval_tokens(seq![seq![op]], seq![a, b]));
    if op == '/' && b == 0 {
        assert(spec_eval_tokens(seq![seq![op]], seq![a, b]) == EvalOutcome::DivByZero);
    } else if i32::MIN <= r <= i32::MAX {
        assert(Seq::<i32>::empty().push(r as i32) =~= seq![r as i32]);
        assert(spec_eval_tokens(seq![seq![op]], seq![a, b])
            == spec_eval_tokens(Seq::<Seq<char>>::empty(), seq![r as i32]));
        assert(spec_eval_tokens(Seq::<Seq<char>>::empty(), seq![r as i32])
            == EvalOutcome::Value(r as i32));
    } else {
        assert(spec_eval_tokens(seq![seq![op]], seq![a, b]) == EvalOutcome::Overflow);
    }
}

/// Every integer value, written in decimal, evaluates to itself.
pub proof fn lemma_eval_literal_value(v: i32)
    ensures
        spec_eval(dec_literal(v)) == EvalOutcome::Value(v),
{
    lemma_dec_literal_parses(v);
    lemma_eval_literal(dec_literal(v), v);
}

/// For all pairs of integers `a` and `b`, written in decimal: the line
/// `"a b op"` yields the exact result of the operator where it fits in
/// `i32`, an overflow where it does not, and a division by zero for `/`
/// with `b == 0`.
pub proof fn lemma_eval_binary_values(a: i32, b: i32, op: char)
    requires
        op == '+' || op == '-' || op == '*' || op == '/',
    ensures
        op == '/' && b == 0 ==> spec_eval(
            dec_literal(a) + seq![' '] + dec_literal(b) + seq![' ', op],
        ) == EvalOutcome::DivByZero,
        !(op == '/' && b == 0) && i32::MIN <= op_result(op, a, b) <= i32::MAX ==> spec_eval(
            dec_literal(a) + seq![' '] + dec_literal(b) + seq![' ', op],
        ) == EvalOutcome::Value(op_result(op, a, b) as i32),
        !(op == '/' && b == 0) && !(i32::MIN <= op_result(op, a, b) <= i32::MAX) ==> spec_eval(
            dec_literal(a) + seq![' '] + dec_literal(b) + seq![' ', op],
        ) == EvalOutcome::Overflow,
{
    lemma_dec_literal_parses(a);
    lemma_dec_literal_parses(b);
    lemma_eval_binary(dec_literal(a), dec_literal(b), a, b, op);
}

} // verus!
