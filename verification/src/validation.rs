use vstd::prelude::*;

use crate::todo::{CreateTodo, UpdateTodo};

verus! {

/// The fewest characters that a todo's text may have.
pub const TEXT_MIN_CHARS: u64 = 1;

/// The most characters that a todo's text may have.
pub const TEXT_MAX_CHARS: u64 = 100;

/// Why a todo's text was refused.
#[derive(Debug, Clone, Copy, PartialEq, Eq)]
pub enum TextValidationError {
    /// The text has fewer than [`TEXT_MIN_CHARS`] characters.
    Empty,
    /// The text has more than [`TEXT_MAX_CHARS`] characters.
    TooLong,
}

impl TextValidationError {
    /// The message that the payload's validation reports for this error.
    pub fn message(&self) -> (m: &'static str)
        ensures
            m@ == (match self {
                TextValidationError::Empty => "Can not be empty"@,
                TextValidationError::TooLong => "Over text length"@,
            }),
    {
        match self {
            TextValidationError::Empty => "Can not be empty",
            TextValidationError::TooLong => "Over text length",
        }
    }
}

/// The verdict on a todo's text: too short, too long, or accepted.
pub open spec fn text_verdict(text: Seq<char>) -> Result<(), TextValidationError> {
    if text.len() < TEXT_MIN_CHARS {
        Err(TextValidationError::Empty)
    } else if text.len() > TEXT_MAX_CHARS {
        Err(TextValidationError::TooLong)
    } else {
        Ok(())
    }
}

/// A text is accepted exactly when it has between one and a hundred
/// characters; an empty text is refused as empty and every text of more than
/// a hundred characters as too long.
pub proof fn lemma_text_verdict_bounds(text: Seq<char>)
    ensures
        text_verdict(text) is Ok <==> 1 <= text.len() <= 100,
        text.len() == 0 ==> text_verdict(text) == Err::<(), TextValidationError>(
            TextValidationError::Empty,
        ),
        text.len() > 100 ==> text_verdict(text) == Err::<(), TextValidationError>(
            TextValidationError::TooLong,
        ),
{
}

/// Calls `validator::validate_length` with no exact length. That function
/// measures a `&String` by its number of chars and returns `false` exactly
/// when a given `min` exceeds that number or a given `max` falls below it.
#[verifier::external_body]
fn length_within(text: &String, min: Option<u64>, max: Option<u64>) -> (ok: bool)
    ensures
        ok == ((min matches Some(lo) ==> lo <= text@.len()) && (max matches Some(hi) ==> text@.len()
            <= hi)),
{
    validator::validate_length(text, min, max, None)
}

/// Checks a todo's text against both length bounds.
fn validate_text(text: &String) -> (r: Result<(), TextValidationError>)
    ensures
        r == text_verdict(text@),
        r is Ok <==> 1 <= text@.len() <= 100,
        text@.len() == 0 ==> r == Err::<(), TextValidationError>(TextValidationError::Empty),
        text@.len() > 100 ==> r == Err::<(), TextValidationError>(TextValidationError::TooLong),
{
    if !length_within(text, Some(TEXT_MIN_CHARS), None) {
        Err(TextValidationError::Empty)
    } else if !length_within(text, None, Some(TEXT_MAX_CHARS)) {
        Err(TextValidationError::TooLong)
    } else {
        Ok(())
    }
}

impl CreateTodo {
    /// Checks the payload: its text must have between [`TEXT_MIN_CHARS`] and
    /// [`TEXT_MAX_CHARS`] characters.
    pub fn validate(&self) -> (r: Result<(), TextValidationError>)
        ensures
            r == text_verdict(self.text@),
            r is Ok <==> 1 <= self.text@.len() <= 100,
            self.text@.len() == 0 ==> r == Err::<(), TextValidationError>(TextValidationError::Empty),
            self.text@.len() > 100 ==> r == Err::<(), TextValidationError>(
                TextValidationError::TooLong,
            ),
    {
        validate_text(&self.text)
    }
}

impl UpdateTodo {
    /// Checks the payload: a text, when present, must have between
    /// [`TEXT_MIN_CHARS`] and [`TEXT_MAX_CHARS`] characters.
    pub fn validate(&self) -> (r: Result<(), TextValidationError>)
        ensures
            r == (match self.text {
                Some(t) => text_verdict(t@),
                None => Ok(()),
            }),
            self.text is None ==> r is Ok,
            self.text matches Some(t) ==> (r is Ok <==> 1 <= t@.len() <= 100),
            self.text matches Some(t) && t@.len() == 0 ==> r == Err::<(), TextValidationError>(
                TextValidationError::Empty,
            ),
            self.text matches Some(t) && t@.len() > 100 ==> r == Err::<(), TextValidationError>(
                TextValidationError::TooLong,
            ),
    {
        match &self.text {
            Some(t) => validate_text(t),
            None => Ok(()),
        }
    }
}

} // verus!
