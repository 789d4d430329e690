//! The errors of a run and the text each one is reported with.

use vstd::prelude::*;
use vstd::string::StringExecFns;

verus! {

pub type CustomResult<T> = core::result::Result<T, CustomError>;

/// What can go wrong in a run.
#[derive(Debug)]
pub enum CustomError {
    /// The command exited with a non-zero status, or its shell could not be
    /// started. Carries the captured standard error, or the description of the
    /// failure to start.
    CommandExecution(String),
    /// A target's directory could not be written as path text.
    PathBuildException,
}

/// The text that `{:?}` formatting gives for a string: the string quoted, with
/// its special characters escaped.
pub uninterp spec fn debug_text(s: Seq<char>) -> Seq<char>;

/// Formats a string with `{:?}` through `format!`, that is through
/// `<str as Debug>::fmt`. The result is a function of the text alone and is
/// known to the proofs only by its name, `debug_text`.
#[verifier::external_body]
fn quoted(s: &String) -> (r: String)
    ensures
        r@ == debug_text(s@),
{
    format!("{:?}", s)
}

/// The text a command failure with message `message` is reported with.
pub open spec fn command_failure_text(message: Seq<char>) -> Seq<char> {
    "CommandExecution("@ + debug_text(message) + ")"@
}

/// The text a path failure is reported with.
pub open spec fn path_failure_text() -> Seq<char> {
    "PathBuildException"@
}

impl CustomError {
    /// The text this error is reported with.
    pub open spec fn text(self) -> Seq<char> {
        match self {
            CustomError::CommandExecution(message) => command_failure_text(message@),
            CustomError::PathBuildException => path_failure_text(),
        }
    }

    /// Renders the error: the variant's name, followed for a command failure
    /// by its message, quoted, in parentheses.
    pub fn to_string(&self) -> (r: String)
        ensures
            r@ == self.text(),
            r@.len() > 0,
    {
        proof {
            lemma_text_not_empty(*self);
        }
        match self {
            CustomError::CommandExecution(message) => {
                let head = String::from_str("CommandExecution(");
                let inner = quoted(message);
                head.concat(inner.as_str()).concat(")")
            },
            CustomError::PathBuildException => String::from_str("PathBuildException"),
        }
    }
}

/// No error is reported with an empty text.
pub proof fn lemma_text_not_empty(e: CustomError)
    ensures
        e.text().len() > 0,
{
    reveal_strlit("CommandExecution(");
    reveal_strlit(")");
    reveal_strlit("PathBuildException");
}

} // verus!
