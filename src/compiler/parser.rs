use vstd::prelude::*;

use crate::token::Token;

verus! {

/// The parser's state: the token just consumed, the one ahead, whether an
/// error has been seen in this compile, and whether reports are suppressed.
pub struct Parser {
    pub current: Option<Token>,
    pub previous: Option<Token>,
    pub had_error: bool,
    pub panic_mode: bool,
}

impl Parser {
    pub fn new() -> (r: Self)
        ensures
            r.current is None,
            r.previous is None,
            !r.had_error,
            !r.panic_mode,
    {
        Parser { current: None, previous: None, had_error: false, panic_mode: false }
    }
}

} // verus!
