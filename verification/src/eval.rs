//! The RPN evaluator and its error taxonomy.
//!
//! `spec_eval` is the mathematical semantics of one line: split it into
//! tokens, run them left to right over a value stack, and classify the
//! result. `RpnCalculator::eval` is proved to report exactly that outcome.

use crate::numeric::{div_trunc, parse_i32, spec_parse_i32};
use crate::tokens::{spec_tokens, tokenize};
use std::io::Write;
use vstd::arithmetic::div_mod::lemma_div_basics;
use vstd::prelude::*;
use vstd::string::*;

verus! {

/// An error from evaluating one line of input.
#[derive(Debug)]
pub enum InputError {
    /// A token that is neither an integer literal nor one of the four
    /// operator symbols; it carries the offending token.
    UnknownOperator(String),
    /// An operator found fewer than two operands on the stack, or the
    /// final stack did not hold exactly one value; it carries the reason.
    SyntaxError(String),
    /// A division whose right operand is zero.
    DivisionByZero,
    /// An operator whose exact result does not fit in `i32`.
    Overflow,
}

/// What evaluating a line comes to.
pub enum EvalOutcome {
    /// The expression is well formed and has this value.
    Value(i32),
    /// This token is neither an integer literal nor an operator symbol.
    UnknownOp(Seq<char>),
    /// An operator was reached with fewer than two values on the stack.
    MissingOperand,
    /// After all tokens, the stack did not hold exactly one value.
    Leftover,
    /// A division by zero was reached.
    DivByZero,
    /// An operator's exact result lies outside the `i32` range.
    Overflow,
}

/// The four operator symbols, each a token of exactly one character.
pub open spec fn is_op_token(t: Seq<char>) -> bool {
    t.len() == 1 && (t[0] == '+' || t[0] == '-' || t[0] == '*' || t[0] == '/')
}

/// The exact mathematical result of an operator on the left operand `x`
/// and the right operand `y`: the sum, difference, product, or (for a
/// nonzero `y`) the quotient truncated toward zero.
pub open spec fn op_result(c: char, x: i32, y: i32) -> int {
    if c == '+' {
        x + y
    } else if c == '-' {
        x - y
    } else if c == '*' {
        x * y
    } else {
        div_trunc(x as int, y as int)
    }
}

/// Run the tokens `ts` left to right over `stack`. An integer literal is
/// pushed; an operator symbol pops the right operand, then the left, and
/// pushes its exact result, unless that result lies outside the `i32`
/// range; any other token stops evaluation. After the last token the
/// stack must hold exactly one value, the result.
pub open spec fn spec_eval_tokens(ts: Seq<Seq<char>>, stack: Seq<i32>) -> EvalOutcome
    decreases ts.len(),
{
    if ts.len() == 0 {
        if stack.len() == 1 {
            EvalOutcome::Value(stack[0])
        } else {
            EvalOutcome::Leftover
        }
    } else {
        let t = ts[0];
        match spec_parse_i32(t) {
            Some(v) => spec_eval_tokens(ts.skip(1), stack.push(v)),
            None => if is_op_token(t) {
                if stack.len() < 2 {
                    EvalOutcome::MissingOperand
                } else if t[0] == '/' && stack.last() == 0 {
                    EvalOutcome::DivByZero
                } else {
                    let y = stack.last();
                    let x = stack[stack.len() - 2];
                    let r = op_result(t[0], x, y);
                    if r < i32::MIN || r > i32::MAX {
                        EvalOutcome::Overflow
                    } else {
                        spec_eval_tokens(
                            ts.skip(1),
                            stack.take(stack.len() - 2).push(r as i32),
                        )
                    }
                }
            } else {
                EvalOutcome::UnknownOp(t)
            },
        }
    }
}

/// The outcome of one whole line.
pub open spec fn spec_eval(line: Seq<char>) -> EvalOutcome {
    spec_eval_tokens(spec_tokens(line), Seq::empty())
}

/// How the evaluator reports each outcome: the value on success, and the
/// error variant with its exact message otherwise.
pub open spec fn outcome_reported(o: EvalOutcome, r: Result<i32, InputError>) -> bool {
    match o {
        EvalOutcome::Value(v) => r == Ok::<i32, InputError>(v),
        EvalOutcome::UnknownOp(t) => (r matches Err(InputError::UnknownOperator(u)) && u@ == t),
        EvalOutcome::MissingOperand => (r matches Err(InputError::SyntaxError(m)) && m@
            == "Cannot fetch next number"@),
        EvalOutcome::Leftover => (r matches Err(InputError::SyntaxError(m)) && m@
            == "Value remains on the stack"@),
        EvalOutcome::DivByZero => (r matches Err(InputError::DivisionByZero)),
        EvalOutcome::Overflow => (r matches Err(InputError::Overflow)),
    }
}

impl InputError {
    /// The human-readable message for this error.
    pub fn message(&self) -> (r: String)
        ensures
            self matches InputError::UnknownOperator(t) ==> r@ == "Unknown operator: "@ + t@,
            self matches InputError::SyntaxError(m) ==> r@ == "Invalid syntax: "@ + m@,
            self is DivisionByZero ==> r@ == "Division by zero"@,
            self is Overflow ==> r@ == "Arithmetic overflow"@,
    {
        match self {
            InputError::UnknownOperator(t) => "Unknown operator: ".to_owned().concat(t.as_str()),
            InputError::SyntaxError(m) => "Invalid syntax: ".to_owned().concat(m.as_str()),
            InputError::DivisionByZero => "Division by zero".to_owned(),
            InputError::Overflow => "Arithmetic overflow".to_owned(),
        }
    }
}

/// Relies on `std::io::stdout` and the `writeln` macro: prints one
/// diagnostic line holding the unconsumed tokens and the current stack;
/// the write result is discarded.
#[verifier::external_body]
fn trace_line(rest: &[String], stack: &Vec<i32>) {
    let _ = writeln!(std::io::stdout(), "{:?} {:?}", rest, stack);
}

/// The calculator; it holds the verbose flag, fixed at construction.
pub struct RpnCalculator(bool);

impl RpnCalculator {
    /// Whether a diagnostic line is printed after each token.
    pub closed spec fn is_verbose(&self) -> bool {
        self.0
    }

    pub fn new(verbose: bool) -> (r: Self)
        ensures
            r.is_verbose() == verbose,
    {
        Self(verbose)
    }

    /// Evaluate one line and report its outcome.
    pub fn eval(&self, formula: &str) -> (r: Result<i32, InputError>)
        ensures
            outcome_reported(spec_eval(formula@), r),
    {
        let toks = tokenize(formula);
        self.eval_inner(&toks)
    }

    fn eval_inner(&self, tokens: &Vec<String>) -> (r: Result<i32, InputError>)
        ensures
            outcome_reported(spec_eval_tokens(tokens.deep_view(), Seq::empty()), r),
    {
        let ghost ts = tokens.deep_view();
        let mut stack: Vec<i32> = Vec::new();
        let mut k: usize = 0;
        proof {
            assert(ts.skip(0) =~= ts);
        }
        while k < tokens.len()
            invariant
                ts == tokens.deep_view(),
                k <= tokens.len(),
                spec_eval_tokens(ts.skip(k as int), stack@) == spec_eval_tokens(ts, Seq::empty()),
            decreases tokens.len() - k,
        {
            proof {
                assert(ts[k as int] == tokens@[k as int]@);
                assert(ts.skip(k as int)[0] == ts[k as int]);
                assert(ts.skip(k as int).skip(1) =~= ts.skip(k as int + 1));
            }
            let tok: &String = &tokens[k];
            match parse_i32(tok.as_str()) {
                Some(v) => {
                    stack.push(v);
                },
                None => {
                    let ss = tok.as_str();
                    let single = ss.unicode_len() == 1;
                    let opc: char = if single {
                        ss.get_char(0)
                    } else {
                        ' '
                    };
                    if !(single && (opc == '+' || opc == '-' || opc == '*' || opc == '/')) {
                        return Err(InputError::UnknownOperator(tok.clone()));
                    }
                    if stack.len() < 2 {
                        return Err(
                            InputError::SyntaxError("Cannot fetch next number".to_owned()),
                        );
                    }
                    let ghost stack0 = stack@;
                    let y: i32 = stack.pop().unwrap();
                    let x: i32 = stack.pop().unwrap();
                    proof {
                        assert(stack@ =~= stack0.take(stack0.len() - 2));
                    }
                    let res: i32;
                    if opc == '+' {
                        res = match x.checked_add(y) {
                            Some(v) => v,
                            None => {
                                return Err(InputError::Overflow);
                            },
                        };
                    } else if opc == '-' {
                        res = match x.checked_sub(y) {
                            Some(v) => v,
                            None => {
                                return Err(InputError::Overflow);
                            },
                        };
                    } else if opc == '*' {
                        res = match x.checked_mul(y) {
                            Some(v) => v,
                            None => {
                                return Err(InputError::Overflow);
                            },
                        };
                    } else {
                        if y == 0 {
                            return Err(InputError::DivisionByZero);
                        }
                        proof {
                            if x == 0 {
                                lemma_div_basics(
                                    if y > 0 {
                                        y as int
                                    } else {
                                        -(y as int)
                                    },
                                );
                            }
                        }
                        res = match x.checked_div(y) {
                            Some(q) => q,
                            None => {
                                return Err(InputError::Overflow);
                            },
                        };
                    }
                    stack.push(res);
                },
            }
            if self.0 {
                let rest = tokens.as_slice().split_at(k + 1).1;
                trace_line(rest, &stack);
            }
            k = k + 1;
        }
        proof {
            assert(ts.skip(tokens@.len() as int) =~= Seq::<Seq<char>>::empty());
        }
        if stack.len() == 1 {
            Ok(stack[0])
        } else {
            Err(InputError::SyntaxError("Value remains on the stack".to_owned()))
        }
    }
}

} // verus!
