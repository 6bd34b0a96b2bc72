//! The evaluator: from a symbol sequence to a single decimal result.
//!
//! Four reduction passes run in a fixed order — Division, Multiplication,
//! Plus, Minus — each folding the operators of exactly one kind left to
//! right and leaving everything else untouched.  After the four passes the
//! sequence must hold exactly one number (the result) or nothing (blank
//! input); anything else is a structural error.

use vstd::prelude::*;

use crate::decimal::{bd_rep, dec_render};
use crate::error::{AppError, ErrRep};
use crate::model::{in_bounds, render, DecRep};
use crate::parser::{
    parse, spec_operate, spec_tokenize, syms_view, Operator, SymRep, Symbol,
};

verus! {

/// Whether an operator may be applied to these operands within this
/// library's machine bounds: both within bounds, and no division by zero
/// (which would panic in the decimal library).
pub open spec fn op_ok(op: Operator, a: DecRep, b: DecRep) -> bool {
    &&& in_bounds(a)
    &&& in_bounds(b)
    &&& (op is Division ==> b.mant != 0)
}

/// One reduction pass, step by step: `acc` is the output written so far,
/// `rest` the input still to be read.  A number or a foreign operator is
/// copied; an operator of the target kind folds the last written number
/// and the next input number into one.  `None` marks an application beyond
/// the machine bounds this library is verified under.
pub open spec fn pass_step(acc: Seq<SymRep>, rest: Seq<SymRep>, op: Operator) -> Option<
    Result<Seq<SymRep>, ErrRep>,
>
    decreases rest.len(),
{
    if rest.len() == 0 {
        Some(Ok(acc))
    } else {
        match rest[0] {
            SymRep::Dec(d) => pass_step(acc.push(SymRep::Dec(d)), rest.drop_first(), op),
            SymRep::Op(o) => if o != op {
                pass_step(acc.push(SymRep::Op(o)), rest.drop_first(), op)
            } else if acc.len() == 0 {
                Some(Err(ErrRep::InvalidExpression))
            } else {
                match acc.last() {
                    SymRep::Op(_) => Some(Err(ErrRep::InvalidExpression)),
                    SymRep::Dec(a) => if rest.len() < 2 {
                        Some(Err(ErrRep::InvalidExpression))
                    } else {
                        match rest[1] {
                            SymRep::Op(_) => Some(Err(ErrRep::InvalidExpression)),
                            SymRep::Dec(b) => if !op_ok(op, a, b) {
                                None
                            } else {
                                pass_step(
                                    acc.drop_last().push(SymRep::Dec(spec_operate(op, a, b))),
                                    rest.skip(2),
                                    op,
                                )
                            },
                        }
                    },
                }
            },
        }
    }
}

/// A whole reduction pass over a sequence.
pub open spec fn spec_pass(syms: Seq<SymRep>, op: Operator) -> Option<
    Result<Seq<SymRep>, ErrRep>,
> {
    pass_step(Seq::empty(), syms, op)
}

/// What evaluating a symbol sequence yields: the four passes in order,
/// then the final length check.
pub open spec fn spec_eval_syms(syms: Seq<SymRep>) -> Option<Result<Option<DecRep>, ErrRep>> {
    match spec_pass(syms, Operator::Division) {
        Option::None => None,
        Option::Some(Result::Err(e)) => Some(Err(e)),
        Option::Some(Result::Ok(s1)) => match spec_pass(s1, Operator::Multiplication) {
            Option::None => None,
            Option::Some(Result::Err(e)) => Some(Err(e)),
            Option::Some(Result::Ok(s2)) => match spec_pass(s2, Operator::Plus) {
                Option::None => None,
                Option::Some(Result::Err(e)) => Some(Err(e)),
                Option::Some(Result::Ok(s3)) => match spec_pass(s3, Operator::Minus) {
                    Option::None => None,
                    Option::Some(Result::Err(e)) => Some(Err(e)),
                    Option::Some(Result::Ok(s4)) => if s4.len() == 1 {
                        match s4[0] {
                            SymRep::Dec(d) => Some(Ok(Some(d))),
                            SymRep::Op(_) => Some(Err(ErrRep::InvalidExpression)),
                        }
                    } else if s4.len() == 0 {
                        Some(Ok(None))
                    } else {
                        Some(Err(ErrRep::InvalidExpression))
                    },
                },
            },
        },
    }
}

/// What evaluating a raw string yields: tokenize, evaluate, render.
/// `None` marks an input beyond the machine bounds this library is
/// verified under.
pub open spec fn spec_evaluate(s: Seq<char>) -> Option<Result<Option<Seq<char>>, ErrRep>> {
    match spec_tokenize(s) {
        Option::None => None,
        Option::Some(Result::Err(e)) => Some(Err(e)),
        Option::Some(Result::Ok(syms)) => match spec_eval_syms(syms) {
            Option::None => None,
            Option::Some(Result::Err(e)) => Some(Err(e)),
            Option::Some(Result::Ok(Option::None)) => Some(Ok(None)),
            Option::Some(Result::Ok(Option::Some(d))) => Some(Ok(Some(render(d)))),
        },
    }
}

/// One reduction pass for the target operator kind: numbers and foreign
/// operators are copied through; each operator of the target kind folds
/// its neighbours into a computed number, left to right.
pub fn operate_expression(expression: Vec<Symbol>, op: Operator) -> (r: Result<
    Vec<Symbol>,
    AppError,
>)
    requires
        spec_pass(syms_view(expression@), op) is Some,
    ensures
        (r matches Ok(v) ==> spec_pass(syms_view(expression@), op) == Some(
            Ok::<Seq<SymRep>, ErrRep>(syms_view(v@)),
        )),
        (r matches Err(e) ==> spec_pass(syms_view(expression@), op) == Some(
            Err::<Seq<SymRep>, ErrRep>(e@),
        )),
{
    let ghost whole = spec_pass(syms_view(expression@), op);
    let mut result_expression: Vec<Symbol> = Vec::new();
    let n = expression.len();
    let mut index: usize = 0;
    proof {
        assert(syms_view(result_expression@) =~= Seq::<SymRep>::empty());
        assert(syms_view(expression@).skip(0) =~= syms_view(expression@));
    }
    while index < n
        invariant
            n == expression@.len(),
            index <= n,
            whole is Some,
            whole == spec_pass(syms_view(expression@), op),
            pass_step(
                syms_view(result_expression@),
                syms_view(expression@).skip(index as int),
                op,
            ) == whole,
        decreases n - index,
    {
        let ghost acc0 = syms_view(result_expression@);
        let ghost rest0 = syms_view(expression@).skip(index as int);
        proof {
            assert(rest0.len() > 0);
            assert(rest0[0] == syms_view(expression@)[index as int]);
            assert(rest0.drop_first() =~= syms_view(expression@).skip(index as int + 1));
        }
        let symbol = &expression[index];
        index = index + 1;
        match symbol {
            Symbol::Decimal(_) => {
                let copied = symbol.clone();
                proof {
                    assert(syms_view(result_expression@.push(copied)) =~= acc0.push(copied@));
                }
                result_expression.push(copied);
            },
            Symbol::Operator(iop) => {
                if *iop == op {
                    let v1 = match result_expression.pop() {
                        Option::Some(Symbol::Decimal(d)) => d,
                        Option::Some(Symbol::Operator(o)) => {
                            return Err(AppError::InvalidExpression);
                        },
                        Option::None => {
                            return Err(AppError::InvalidExpression);
                        },
                    };
                    proof {
                        assert(acc0.last() == result_expression@.push(
                            Symbol::Decimal(v1),
                        ).map_values(|s: Symbol| s@).last());
                    }
                    if index == n {
                        return Err(AppError::InvalidExpression);
                    }
                    let v2 = match &expression[index] {
                        Symbol::Decimal(d) => d,
                        Symbol::Operator(_) => {
                            return Err(AppError::InvalidExpression);
                        },
                    };
                    index = index + 1;
                    proof {
                        assert(rest0[1] == syms_view(expression@)[index - 1]);
                        assert(op_ok(op, bd_rep(&v1), bd_rep(v2))) by {
                            if !op_ok(op, bd_rep(&v1), bd_rep(v2)) {
                                assert(pass_step(acc0, rest0, op) is None);
                            }
                        }
                    }
                    let computed = op.operate(&v1, v2);
                    let sym = Symbol::Decimal(computed);
                    proof {
                        assert(syms_view(result_expression@) =~= acc0.drop_last());
                        assert(syms_view(result_expression@.push(sym)) =~= acc0.drop_last().push(
                            sym@,
                        ));
                        assert(rest0.skip(2) =~= syms_view(expression@).skip(index as int));
                    }
                    result_expression.push(sym);
                } else {
                    let copied = symbol.clone();
                    proof {
                        assert(syms_view(result_expression@.push(copied)) =~= acc0.push(copied@));
                    }
                    result_expression.push(copied);
                }
            },
        }
    }
    proof {
        assert(syms_view(expression@).skip(n as int) =~= Seq::<SymRep>::empty());
    }
    Ok(result_expression)
}

/// Evaluate a symbol sequence: the four passes in their fixed order, then
/// the final check that one number (or nothing) survives.
pub fn evaluate_expression(expression: Vec<Symbol>) -> (r: Result<
    Option<bigdecimal::BigDecimal>,
    AppError,
>)
    requires
        spec_eval_syms(syms_view(expression@)) is Some,
    ensures
        (r matches Ok(Some(d)) ==> spec_eval_syms(syms_view(expression@)) == Some(
            Ok::<Option<DecRep>, ErrRep>(Some(bd_rep(&d))),
        )),
        (r matches Ok(None) ==> spec_eval_syms(syms_view(expression@)) == Some(
            Ok::<Option<DecRep>, ErrRep>(None),
        )),
        (r matches Err(e) ==> spec_eval_syms(syms_view(expression@)) == Some(
            Err::<Option<DecRep>, ErrRep>(e@),
        )),
{
    let ghost syms0 = syms_view(expression@);
    let expression = match operate_expression(expression, Operator::Division) {
        Ok(v) => v,
        Err(e) => {
            return Err(e);
        },
    };
    let expression = match operate_expression(expression, Operator::Multiplication) {
        Ok(v) => v,
        Err(e) => {
            return Err(e);
        },
    };
    let expression = match operate_expression(expression, Operator::Plus) {
        Ok(v) => v,
        Err(e) => {
            return Err(e);
        },
    };
    let mut expression = match operate_expression(expression, Operator::Minus) {
        Ok(v) => v,
        Err(e) => {
            return Err(e);
        },
    };
    if expression.len() == 1 {
        let symbol = expression.pop().unwrap();
        match symbol {
            Symbol::Decimal(decimal) => Ok(Some(decimal)),
            Symbol::Operator(_) => Err(AppError::InvalidExpression),
        }
    } else if expression.len() == 0 {
        Ok(None)
    } else {
        Err(AppError::InvalidExpression)
    }
}

/// Evaluate a raw expression string: tokenize it, reduce it, and render
/// the surviving value (`None` for blank input).
pub fn evaluate(input: &str) -> (r: Result<Option<String>, AppError>)
    requires
        spec_evaluate(input@) is Some,
    ensures
        (r matches Ok(Some(s)) ==> spec_evaluate(input@) == Some(
            Ok::<Option<Seq<char>>, ErrRep>(Some(s@)),
        )),
        (r matches Ok(None) ==> spec_evaluate(input@) == Some(
            Ok::<Option<Seq<char>>, ErrRep>(None),
        )),
        (r matches Err(e) ==> spec_evaluate(input@) == Some(
            Err::<Option<Seq<char>>, ErrRep>(e@),
        )),
{
    let syms = match parse(input) {
        Ok(v) => v,
        Err(e) => {
            return Err(e);
        },
    };
    match evaluate_expression(syms) {
        Ok(Some(d)) => Ok(Some(dec_render(&d))),
        Ok(None) => Ok(None),
        Err(e) => Err(e),
    }
}

} // verus!
