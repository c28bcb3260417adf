use vstd::prelude::*;

verus! {

/// The program's own closed error taxonomy. Every violation of an operation's
/// contract is reported through one of these variants, and none is retryable.
#[derive(Clone, Copy, Debug, PartialEq, Eq, Structural)]
pub enum TodoError {
    /// The caller's identity does not match the referenced record's owner.
    Unauthorized,
    /// Reserved for operation-specific policy violations not otherwise
    /// categorized; surfaced when an address cannot be derived at all.
    NotAllowed,
    /// A counter increment or decrement would leave its representable range.
    MathOverflow,
    /// mark was invoked on an item whose done flag is already set.
    AlreadyMarked,
}

/// What an operation reports on failure: either the program's own error or a
/// host-level existence error, propagated unchanged.
#[derive(Clone, Copy, Debug, PartialEq, Eq, Structural)]
pub enum OpError {
    /// One of the program's own errors.
    Program(TodoError),
    /// The host refused to allocate a record at an occupied address.
    AlreadyExists,
    /// No record is live at the referenced address.
    NotFound,
}

impl TodoError {
    /// The text reported for this error.
    pub open spec fn message_spec(self) -> Seq<char> {
        match self {
            TodoError::Unauthorized => "You are not authorized to perform this action."@,
            TodoError::NotAllowed => "Not Allowed"@,
            TodoError::MathOverflow => "Math operation overflow"@,
            TodoError::AlreadyMarked => "Already Marked"@,
        }
    }

    /// The message the program surfaces beside this error.
    pub fn message(self) -> (r: &'static str)
        ensures
            r@ == self.message_spec(),
    {
        match self {
            TodoError::Unauthorized => "You are not authorized to perform this action.",
            TodoError::NotAllowed => "Not Allowed",
            TodoError::MathOverflow => "Math operation overflow",
            TodoError::AlreadyMarked => "Already Marked",
        }
    }
}

} // verus!
