//! A stateful calculator shell around the display string.
//!
//! The one state so far is `Empty`, in which the display is handed back
//! unchanged.

use vstd::prelude::*;

use crate::error::AppError;

verus! {

/// The calculator's state.
pub enum Status {
    Empty,
}

/// A calculator holding the state of an interaction.
pub struct Calculator {
    pub status: Status,
}

impl Calculator {
    /// What the display should show in the current state: in the `Empty`
    /// state, the display itself.
    pub fn calc(&mut self, display: &str) -> (r: Result<String, AppError>)
        ensures
            r matches Ok(s) && s@ == display@,
            *final(self) == *old(self),
    {
        match self.status {
            _ => Ok(display.to_owned()),
        }
    }
}

/// Run one calculator interaction on a display string.
pub fn calculate(display: &str) -> (r: Result<String, AppError>)
    ensures
        r matches Ok(s) && s@ == display@,
{
    let mut calculator = Calculator { status: Status::Empty };
    calculator.calc(display)
}

} // verus!
