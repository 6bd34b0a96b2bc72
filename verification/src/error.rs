//! The error taxonomy of the calculator core.

use vstd::prelude::*;

verus! {

/// Mathematical image of an [`AppError`]: the same four kinds, with the
/// carried string abstracted to a sequence of characters.
pub ghost enum ErrRep {
    InvalidChar(char),
    InvalidString(Seq<char>),
    InvalidExpression,
    InvalidPercent,
}

/// An error of the tokenizer or of the evaluator.
///
/// `InvalidChar` carries the first character outside the recognized set;
/// `InvalidString` carries a buffered run of digits that is not a decimal
/// literal; `InvalidExpression` marks a structural violation (adjacent
/// numbers, dangling operator, leftover symbols); `InvalidPercent` marks a
/// `%` with no preceding number to scale.
#[derive(Debug)]
pub enum AppError {
    InvalidChar(char),
    InvalidString(String),
    InvalidExpression,
    InvalidPercent,
}

impl View for AppError {
    type V = ErrRep;

    open spec fn view(&self) -> ErrRep {
        match self {
            AppError::InvalidChar(c) => ErrRep::InvalidChar(*c),
            AppError::InvalidString(s) => ErrRep::InvalidString(s@),
            AppError::InvalidExpression => ErrRep::InvalidExpression,
            AppError::InvalidPercent => ErrRep::InvalidPercent,
        }
    }
}

impl PartialEq for AppError {
    fn eq(&self, other: &AppError) -> (r: bool)
        ensures
            r == (self@ == other@),
    {
        match (self, other) {
            (AppError::InvalidChar(a), AppError::InvalidChar(b)) => *a == *b,
            (AppError::InvalidString(a), AppError::InvalidString(b)) => {
                let r: bool = (*a).eq(b);
                r
            },
            (AppError::InvalidExpression, AppError::InvalidExpression) => true,
            (AppError::InvalidPercent, AppError::InvalidPercent) => true,
            _ => false,
        }
    }
}

impl vstd::std_specs::cmp::PartialEqSpecImpl for AppError {
    open spec fn obeys_eq_spec() -> bool {
        true
    }

    open spec fn eq_spec(&self, other: &AppError) -> bool {
        self@ == other@
    }
}

} // verus!
