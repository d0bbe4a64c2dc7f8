//! The single error token that flows with a request from reading to
//! dispatch, and the HTTP status each one maps to.

use vstd::prelude::*;

verus! {

/// Every way in which serving one request can fail.
#[derive(Clone, Copy, Debug, PartialEq, Eq, Structural)]
pub enum ErrorToken {
    HeadersReadTimeout,
    HeadersReadingStream,
    HeadersBufferEmpty,
    HeadersBufferToString,
    HeadersInvalidRequestLine,
    HeadersInvalidMethod,
    HeadersInvalidUri,
    HeadersInvalidVersion,
    HeadersInvalidHeaderName,
    HeadersInvalidHeaderValue,
    HeadersInvalidCookie,
    HeadersFailedToParse,
    BodyReadTimeout,
    DirtyBodyReadTimeout,
    BodyReadingStream,
    BodyBufferLengthExceedsContentLength,
    BodyChunkSizeParse,
    BodyChunkIsBiggerThanChunkSize,
    BodyChunkTerminator,
    BodyChunkedButZeroSum,
    BodySizeLimit,
    NotFound,
    MethodNotAllowed,
    Internal,
}

/// The statuses that an error response can carry.
pub open spec fn is_error_status(s: u16) -> bool {
    s == 400 || s == 404 || s == 405 || s == 408 || s == 413 || s == 500
}

impl ErrorToken {
    /// The HTTP status that answers this error.
    pub open spec fn status_spec(self) -> u16 {
        match self {
            ErrorToken::HeadersReadTimeout => 408,
            ErrorToken::BodyReadTimeout => 408,
            ErrorToken::DirtyBodyReadTimeout => 408,
            ErrorToken::BodySizeLimit => 413,
            ErrorToken::NotFound => 404,
            ErrorToken::MethodNotAllowed => 405,
            ErrorToken::Internal => 500,
            _ => 400,
        }
    }

    pub fn status(self) -> (r: u16)
        ensures
            r == self.status_spec(),
            is_error_status(r),
    {
        match self {
            ErrorToken::HeadersReadTimeout => 408,
            ErrorToken::BodyReadTimeout => 408,
            ErrorToken::DirtyBodyReadTimeout => 408,
            ErrorToken::BodySizeLimit => 413,
            ErrorToken::NotFound => 404,
            ErrorToken::MethodNotAllowed => 405,
            ErrorToken::Internal => 500,
            _ => 400,
        }
    }
}

} // verus!
