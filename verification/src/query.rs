//! The query boundary: from the hash string of a request to the answer, or
//! to the error that the client is shown.

use vstd::prelude::*;
use vstd::string::StringExecFns;
use crate::fingerprint::{fingerprint_of, hash_string_to_filter_item, InputFormatError};
use crate::password_filter::PasswordFilter;
use crate::random::is_alphanumeric;
use crate::util::{duplicate_licenses, get_error_id, licenses_view, License, ERROR_ID_LENGTH};

verus! {

/// Status of a request that the client got wrong.
pub const BAD_REQUEST: u16 = 400;

/// Status of a request that failed on the server's side.
pub const INTERNAL_SERVER_ERROR: u16 = 500;

/// A request to check one hash.
pub struct HashCheckRequest {
    pub hash: String,
}

/// The answer to a request: whether the hash is among the leaked ones, and
/// the license records of the filter that says so.
pub struct HashCheckResponse {
    pub leaked: bool,
    pub licenses: Vec<License>,
}

/// A failed request. The client is shown the status, the public message
/// and the id; the private message and the error are for the log, where
/// the id finds them again.
pub struct WebAppError {
    pub id: String,
    pub error: Option<InputFormatError>,
    pub public_message: Option<String>,
    pub private_message: Option<String>,
    pub status_code: u16,
}

/// Whether `id` is an error id: ten ASCII letters and digits.
pub open spec fn is_error_id(id: Seq<char>) -> bool {
    id.len() == ERROR_ID_LENGTH && forall|i: int| 0 <= i < id.len() ==> is_alphanumeric(#[trigger] id[i])
}

/// Whether `text` holds the string `expected`.
pub open spec fn holds_text(text: Option<String>, expected: Seq<char>) -> bool {
    text matches Some(s) && s@ == expected
}

impl WebAppError {
    /// An error with a status and a fresh id, and nothing else.
    pub fn new(status_code: u16) -> (r: WebAppError)
        ensures
            r.status_code == status_code,
            is_error_id(r.id@),
            r.error is None,
            r.public_message is None,
            r.private_message is None,
    {
        WebAppError {
            id: get_error_id(),
            status_code,
            public_message: None,
            private_message: None,
            error: None,
        }
    }

    /// The same error with `public_message` as what the client is told.
    pub fn public_message(self, public_message: &str) -> (r: WebAppError)
        ensures
            holds_text(r.public_message, public_message@),
            r.id == self.id,
            r.error == self.error,
            r.private_message == self.private_message,
            r.status_code == self.status_code,
    {
        let mut changed = self;
        changed.public_message = Some(public_message.to_owned());
        changed
    }

    /// The same error with `private_message` as what the log is told.
    pub fn private_message(self, private_message: &str) -> (r: WebAppError)
        ensures
            holds_text(r.private_message, private_message@),
            r.id == self.id,
            r.error == self.error,
            r.public_message == self.public_message,
            r.status_code == self.status_code,
    {
        let mut changed = self;
        changed.private_message = Some(private_message.to_owned());
        changed
    }

    /// The same error with `error` as its cause.
    pub fn error(self, error: InputFormatError) -> (r: WebAppError)
        ensures
            r.error == Some(error),
            r.id == self.id,
            r.public_message == self.public_message,
            r.private_message == self.private_message,
            r.status_code == self.status_code,
    {
        let mut changed = self;
        changed.error = Some(error);
        changed
    }

    /// The error for a cause that nothing has handled: the server's fault,
    /// with what the cause says as the private message and no public one.
    pub fn from_error(error: InputFormatError) -> (r: WebAppError)
        ensures
            r.status_code == INTERNAL_SERVER_ERROR,
            is_error_id(r.id@),
            r.error == Some(error),
            r.public_message is None,
            holds_text(r.private_message, error.spec_message()),
    {
        WebAppError {
            id: get_error_id(),
            private_message: Some(error.message()),
            error: Some(error),
            public_message: None,
            status_code: INTERNAL_SERVER_ERROR,
        }
    }
}

/// Answers a request. A hash without a fingerprint is refused as the
/// client's fault, before the filter is asked; the client is told no more
/// than that the hash is invalid. Any other hash is looked up by its
/// fingerprint.
pub fn check_hash(filter: &PasswordFilter, payload: &HashCheckRequest) -> (r: Result<
    HashCheckResponse,
    WebAppError,
>)
    ensures
        match fingerprint_of(payload.hash@) {
            Ok(key) => r matches Ok(answer) && answer.leaked == filter@.contains(key)
                && licenses_view(answer.licenses@) == filter@.licenses,
            Err(cause) => r matches Err(refusal) && refusal.status_code == BAD_REQUEST
                && is_error_id(refusal.id@) && refusal.error == Some(cause) && holds_text(
                refusal.public_message,
                "Invalid Hash passed."@,
            ) && holds_text(refusal.private_message, "Hash = "@ + payload.hash@),
        },
{
    match hash_string_to_filter_item(&payload.hash) {
        Err(cause) => {
            let mut private: String = "Hash = ".to_owned();
            private.append(payload.hash.as_str());
            Err(
                WebAppError::new(BAD_REQUEST).public_message("Invalid Hash passed.").private_message(
                    private.as_str(),
                ).error(cause),
            )
        },
        Ok(key) => {
            let leaked: bool = filter.contains(&key);
            Ok(HashCheckResponse { leaked, licenses: duplicate_licenses(filter.licenses()) })
        },
    }
}

} // verus!
