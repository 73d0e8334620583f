use vstd::prelude::*;

verus! {

/// HTTP status used for rejected inputs (malformed request or duplicate publish).
pub const BAD_REQUEST: u16 = 400;

/// HTTP status used for every denied authorization decision.
pub const FORBIDDEN: u16 = 403;

/// HTTP status used for records, archives or owner sets that are absent.
pub const NOT_FOUND: u16 = 404;

/// HTTP status used for store-side failures surfaced to the client.
pub const INTERNAL_SERVER_ERROR: u16 = 500;

/// The error shape every operation reports: a status class, a client-facing
/// message, a more detailed operator-side message, and optional context lines.
#[derive(Debug)]
pub struct HttpError {
    pub error_type: u16,
    pub message: String,
    pub verbose_message: String,
    pub contexts: Vec<String>,
}

impl HttpError {
    /// Builds an error whose client and operator messages are the same text.
    pub fn new(status: u16, message: &str) -> (r: HttpError)
        ensures
            r.error_type == status,
            r.message@ == message@,
            r.verbose_message@ == message@,
            r.contexts@.len() == 0,
    {
        HttpError {
            error_type: status,
            message: message.to_owned(),
            verbose_message: message.to_owned(),
            contexts: Vec::new(),
        }
    }

    /// Builds an error with distinct client-facing and operator-side messages.
    pub fn with_verbose(status: u16, message: &str, verbose: &str) -> (r: HttpError)
        ensures
            r.error_type == status,
            r.message@ == message@,
            r.verbose_message@ == verbose@,
            r.contexts@.len() == 0,
    {
        HttpError {
            error_type: status,
            message: message.to_owned(),
            verbose_message: verbose.to_owned(),
            contexts: Vec::new(),
        }
    }
}

} // verus!
