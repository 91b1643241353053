//! What can be wrong with a request.

use crate::text::joined;
use vstd::prelude::*;
use vstd::string::*;

verus! {

/// Why a request is refused.
#[derive(Debug)]
pub enum ContactError {
    InvalidListParams,
    InvalidSearchParams,
    InvalidRefreshParams,
    InvalidSaveParams,
    InvalidDeleteParams,
    InvalidContextParams,
    InvalidInferParams,
    InvalidCursor,
    ScoreCursorMismatch,
    RecentCursorMismatch,
    EmptyName,
    NoContactIds,
    EmptyId,
    NotFound(String),
    NoContextIds,
    HydrateTimedOut(String),
    HydrateEnded,
    HydrateFailed(String),
}

/// The words of a refusal.
pub open spec fn error_text(error: ContactError) -> Seq<char> {
    match error {
        ContactError::InvalidListParams => "invalid contact list params"@,
        ContactError::InvalidSearchParams => "invalid contact search params"@,
        ContactError::InvalidRefreshParams => "invalid contact refresh params"@,
        ContactError::InvalidSaveParams => "invalid contact save params"@,
        ContactError::InvalidDeleteParams => "invalid contact delete params"@,
        ContactError::InvalidContextParams => "invalid contact context params"@,
        ContactError::InvalidInferParams => "invalid contact infer params"@,
        ContactError::InvalidCursor => "invalid contact cursor"@,
        ContactError::ScoreCursorMismatch => "contact cursor does not match score-sorted contacts"@,
        ContactError::RecentCursorMismatch =>
            "contact cursor does not match recent Telegram contacts"@,
        ContactError::EmptyName => "contact name must not be empty"@,
        ContactError::NoContactIds => "contact must contain at least one valid contact id"@,
        ContactError::EmptyId => "contact id must not be empty"@,
        ContactError::NotFound(id) => "contact `"@ + id@ + "` not found"@,
        ContactError::NoContextIds =>
            "contact context requires at least one valid contact id"@,
        ContactError::HydrateTimedOut(seconds) => "Telegram contact hydrate timed out after "@
            + seconds@ + "s"@,
        ContactError::HydrateEnded => "Telegram contact hydrate thread ended without a result"@,
        ContactError::HydrateFailed(message) => message@,
    }
}

impl ContactError {
    /// The words of the refusal.
    pub fn message(&self) -> (r: String)
        ensures
            r@ == error_text(*self),
    {
        match self {
            ContactError::InvalidListParams => "invalid contact list params".to_owned(),
            ContactError::InvalidSearchParams => "invalid contact search params".to_owned(),
            ContactError::InvalidRefreshParams => "invalid contact refresh params".to_owned(),
            ContactError::InvalidSaveParams => "invalid contact save params".to_owned(),
            ContactError::InvalidDeleteParams => "invalid contact delete params".to_owned(),
            ContactError::InvalidContextParams => "invalid contact context params".to_owned(),
            ContactError::InvalidInferParams => "invalid contact infer params".to_owned(),
            ContactError::InvalidCursor => "invalid contact cursor".to_owned(),
            ContactError::ScoreCursorMismatch =>
                "contact cursor does not match score-sorted contacts".to_owned(),
            ContactError::RecentCursorMismatch =>
                "contact cursor does not match recent Telegram contacts".to_owned(),
            ContactError::EmptyName => "contact name must not be empty".to_owned(),
            ContactError::NoContactIds =>
                "contact must contain at least one valid contact id".to_owned(),
            ContactError::EmptyId => "contact id must not be empty".to_owned(),
            ContactError::NotFound(id) => joined("contact `", id.as_str()).concat("` not found"),
            ContactError::NoContextIds =>
                "contact context requires at least one valid contact id".to_owned(),
            ContactError::HydrateTimedOut(seconds) => joined(
                "Telegram contact hydrate timed out after ",
                seconds.as_str(),
            ).concat("s"),
            ContactError::HydrateEnded =>
                "Telegram contact hydrate thread ended without a result".to_owned(),
            ContactError::HydrateFailed(message) => message.clone(),
        }
    }
}

/// A refusal tells what it is about: the id that was not found, how long was waited, or what failed.
pub proof fn law_refusals_tell(id: String)
    ensures
        error_text(ContactError::NotFound(id)) == "contact `"@ + id@ + "` not found"@,
        error_text(ContactError::HydrateTimedOut(id)) == "Telegram contact hydrate timed out after "@
            + id@ + "s"@,
        error_text(ContactError::HydrateFailed(id)) == id@,
{
}

} // verus!
