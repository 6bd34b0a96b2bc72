//! A stricter entry point: like the evaluator, but blank input is an
//! error rather than an empty result.

use vstd::prelude::*;

use crate::decimal::{bd_rep, dec_render};
use crate::error::{AppError, ErrRep};
use crate::evaluator::{evaluate_expression, operate_expression, spec_eval_syms, spec_pass};
use crate::model::render;
use crate::parser::{parse, spec_tokenize, syms_view, Operator, SymRep, Symbol};

verus! {

/// What [`calculate`] yields: as the evaluator, except that an empty
/// symbol sequence is an `InvalidExpression` error instead of an empty
/// result.
pub open spec fn spec_calculate(s: Seq<char>) -> Option<Result<Seq<char>, ErrRep>> {
    match spec_tokenize(s) {
        Option::None => None,
        Option::Some(Result::Err(e)) => Some(Err(e)),
        Option::Some(Result::Ok(syms)) => match spec_eval_syms(syms) {
            Option::None => None,
            Option::Some(Result::Err(e)) => Some(Err(e)),
            Option::Some(Result::Ok(Option::None)) => Some(Err(ErrRep::InvalidExpression)),
            Option::Some(Result::Ok(Option::Some(d))) => Some(Ok(render(d))),
        },
    }
}

/// One reduction pass over a token sequence: numbers and foreign
/// operators are copied through, the target operator folds its
/// neighbours, left to right.
pub fn operate_tokens(tokens: Vec<Symbol>, op: Operator) -> (r: Result<Vec<Symbol>, AppError>)
    requires
        spec_pass(syms_view(tokens@), op) is Some,
    ensures
        (r matches Ok(v) ==> spec_pass(syms_view(tokens@), op) == Some(
            Ok::<Seq<SymRep>, ErrRep>(syms_view(v@)),
        )),
        (r matches Err(e) ==> spec_pass(syms_view(tokens@), op) == Some(
            Err::<Seq<SymRep>, ErrRep>(e@),
        )),
{
    operate_expression(tokens, op)
}

/// Reduce a token sequence to the one number it must denote: the four
/// passes in their fixed order, then exactly one number must survive.
pub fn calculate_tokens(tokens: Vec<Symbol>) -> (r: Result<bigdecimal::BigDecimal, AppError>)
    requires
        spec_eval_syms(syms_view(tokens@)) is Some,
    ensures
        (r matches Ok(d) ==> spec_eval_syms(syms_view(tokens@)) == Some(
            Ok::<Option<crate::model::DecRep>, ErrRep>(Some(bd_rep(&d))),
        )),
        (r matches Err(e) ==> spec_eval_syms(syms_view(tokens@)) == Some(
            Err::<Option<crate::model::DecRep>, ErrRep>(e@),
        ) || (spec_eval_syms(syms_view(tokens@)) == Some(
            Ok::<Option<crate::model::DecRep>, ErrRep>(None),
        ) && e@ == ErrRep::InvalidExpression)),
{
    match evaluate_expression(tokens) {
        Ok(Some(d)) => Ok(d),
        Ok(None) => Err(AppError::InvalidExpression),
        Err(e) => Err(e),
    }
}

/// Evaluate an expression string to its rendered value; blank input is an
/// `InvalidExpression` error.
pub fn calculate(input: &str) -> (r: Result<String, AppError>)
    requires
        spec_calculate(input@) is Some,
    ensures
        (r matches Ok(s) ==> spec_calculate(input@) == Some(Ok::<Seq<char>, ErrRep>(s@))),
        (r matches Err(e) ==> spec_calculate(input@) == Some(Err::<Seq<char>, ErrRep>(e@))),
{
    let tokens = match parse(input) {
        Ok(v) => v,
        Err(e) => {
            return Err(e);
        },
    };
    match calculate_tokens(tokens) {
        Ok(d) => Ok(dec_render(&d)),
        Err(e) => Err(e),
    }
}

} // verus!
