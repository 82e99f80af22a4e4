//! The decode failures the library reports. Per-line failures are dropped by
//! the dispatcher; only a malformed template is fatal to a whole request.

use vstd::prelude::*;
use vstd::string::StringExecFns;

verus! {

/// A typed decode failure.
#[derive(Debug)]
pub enum AppError {
    /// The URI does not split into scheme, authority and the rest.
    UrlParse,
    /// A base64 payload the scheme requires did not decode.
    Base64Decode,
    /// Decoded bytes were not valid UTF-8.
    Utf8,
    /// A JSON payload or template did not parse.
    Json,
    /// A required part (host, port, a credential) is absent.
    MissingField(&'static str),
    /// The URI parts are present but malformed.
    InvalidFormat(String),
}

impl AppError {
    /// The HTTP status such a failure maps to: every decode failure is the
    /// caller's input being bad.
    pub fn status_code(&self) -> (r: u16)
        ensures
            r == 400,
    {
        match self {
            AppError::UrlParse => 400,
            AppError::Base64Decode => 400,
            AppError::Utf8 => 400,
            AppError::Json => 400,
            AppError::MissingField(_) => 400,
            AppError::InvalidFormat(_) => 400,
        }
    }

    /// A short diagnostic line.
    pub fn message(&self) -> String {
        match self {
            AppError::UrlParse => "URL parse error".to_owned(),
            AppError::Base64Decode => "Base64 decode error".to_owned(),
            AppError::Utf8 => "UTF-8 decode error".to_owned(),
            AppError::Json => "JSON parse error".to_owned(),
            AppError::MissingField(f) => {
                let mut m = "Missing field: ".to_owned();
                m.append(f);
                m
            },
            AppError::InvalidFormat(s) => {
                let mut m = "Invalid format: ".to_owned();
                m.append(s.as_str());
                m
            },
        }
    }
}

/// The ghost kind of a failure, over which decoder contracts are stated.
pub enum ErrKind {
    UrlParse,
    Base64,
    Utf8,
    Json,
    Missing(Seq<char>),
    Invalid(Seq<char>),
}

/// The kind a failure value carries.
pub open spec fn kind_of(e: AppError) -> ErrKind {
    match e {
        AppError::UrlParse => ErrKind::UrlParse,
        AppError::Base64Decode => ErrKind::Base64,
        AppError::Utf8 => ErrKind::Utf8,
        AppError::Json => ErrKind::Json,
        AppError::MissingField(f) => ErrKind::Missing(f@),
        AppError::InvalidFormat(s) => ErrKind::Invalid(s@),
    }
}

} // verus!
