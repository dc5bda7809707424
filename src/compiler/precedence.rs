use vstd::prelude::*;

verus! {

/// Binding strength of operators, lowest first.
#[derive(Clone, Copy, Debug, PartialEq, Eq, Structural)]
pub enum Precedence {
    PREC_NONE,
    /// =
    PREC_ASSIGNMENT,
    /// or
    PREC_OR,
    /// and
    PREC_AND,
    /// == !=
    PREC_EQUALITY,
    /// < > <= >=
    PREC_COMPARISON,
    /// + -
    PREC_TERM,
    /// * /
    PREC_FACTOR,
    /// ! -
    PREC_UNARY,
    /// . ()
    PREC_CALL,
    PREC_PRIMARY,
}

/// The rank of a precedence, from zero for `PREC_NONE`.
pub open spec fn level(p: Precedence) -> nat {
    match p {
        Precedence::PREC_NONE => 0,
        Precedence::PREC_ASSIGNMENT => 1,
        Precedence::PREC_OR => 2,
        Precedence::PREC_AND => 3,
        Precedence::PREC_EQUALITY => 4,
        Precedence::PREC_COMPARISON => 5,
        Precedence::PREC_TERM => 6,
        Precedence::PREC_FACTOR => 7,
        Precedence::PREC_UNARY => 8,
        Precedence::PREC_CALL => 9,
        Precedence::PREC_PRIMARY => 10,
    }
}

/// The precedence one above `p`, for the right operand of a left-associative
/// operator.
pub open spec fn next_prec(p: Precedence) -> Precedence {
    match p {
        Precedence::PREC_NONE => Precedence::PREC_ASSIGNMENT,
        Precedence::PREC_ASSIGNMENT => Precedence::PREC_OR,
        Precedence::PREC_OR => Precedence::PREC_AND,
        Precedence::PREC_AND => Precedence::PREC_EQUALITY,
        Precedence::PREC_EQUALITY => Precedence::PREC_COMPARISON,
        Precedence::PREC_COMPARISON => Precedence::PREC_TERM,
        Precedence::PREC_TERM => Precedence::PREC_FACTOR,
        Precedence::PREC_FACTOR => Precedence::PREC_UNARY,
        Precedence::PREC_UNARY => Precedence::PREC_CALL,
        Precedence::PREC_CALL => Precedence::PREC_PRIMARY,
        Precedence::PREC_PRIMARY => Precedence::PREC_PRIMARY,
    }
}

impl Precedence {
    pub fn level(self) -> (r: u8)
        ensures
            r == level(self),
    {
        match self {
            Precedence::PREC_NONE => 0,
            Precedence::PREC_ASSIGNMENT => 1,
            Precedence::PREC_OR => 2,
            Precedence::PREC_AND => 3,
            Precedence::PREC_EQUALITY => 4,
            Precedence::PREC_COMPARISON => 5,
            Precedence::PREC_TERM => 6,
            Precedence::PREC_FACTOR => 7,
            Precedence::PREC_UNARY => 8,
            Precedence::PREC_CALL => 9,
            Precedence::PREC_PRIMARY => 10,
        }
    }

    /// The next higher precedence; `PREC_PRIMARY` is the highest.
    pub fn next(self) -> (r: Precedence)
        ensures
            r == next_prec(self),
            self != Precedence::PREC_PRIMARY ==> level(r) == level(self) + 1,
    {
        match self {
            Precedence::PREC_NONE => Precedence::PREC_ASSIGNMENT,
            Precedence::PREC_ASSIGNMENT => Precedence::PREC_OR,
            Precedence::PREC_OR => Precedence::PREC_AND,
            Precedence::PREC_AND => Precedence::PREC_EQUALITY,
            Precedence::PREC_EQUALITY => Precedence::PREC_COMPARISON,
            Precedence::PREC_COMPARISON => Precedence::PREC_TERM,
            Precedence::PREC_TERM => Precedence::PREC_FACTOR,
            Precedence::PREC_FACTOR => Precedence::PREC_UNARY,
            Precedence::PREC_UNARY => Precedence::PREC_CALL,
            Precedence::PREC_CALL => Precedence::PREC_PRIMARY,
            Precedence::PREC_PRIMARY => Precedence::PREC_PRIMARY,
        }
    }
}

} // verus!
