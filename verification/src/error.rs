//! The error taxonomy of the proxy. Failures coming from outside crates
//! (transport, TLS, configuration parsing) are mapped to plain kinds here;
//! the library's own parsing and lookup failures have kinds of their own.

use vstd::prelude::*;

verus! {

/// Every failure the proxy distinguishes, as a plain kind.
#[derive(Clone, Copy, Debug, PartialEq, Eq, Structural)]
pub enum ErrorKind {
    /// A transport or file failure.
    Io,
    /// A TLS failure after the handshake.
    Tls,
    /// A TLS handshake failure.
    TlsHandshake,
    /// A configuration file that could not be parsed.
    Toml,
    /// An HTTP fetch failure while refreshing a block list.
    Http,
    /// Bytes that are not valid UTF-8 where text was expected.
    TextDecoding,
    /// No DNS-over-TLS provider is configured.
    NoDotProviders,
    /// A lock could not be acquired while refreshing the block list.
    SyncError,
    /// A block-list line with no hostname on it; the line is skipped.
    LineIsBlank,
    /// A malformed DNS message.
    DnsParsing,
    /// A DNS message whose question count is not exactly one.
    DnsTooManyQuestions,
}

#[derive(Clone, Copy, Debug, PartialEq, Eq, Structural)]
pub struct Error {
    pub kind: ErrorKind,
}

impl Error {
    pub fn new(kind: ErrorKind) -> (r: Self)
        ensures
            r.kind == kind,
    {
        Self { kind }
    }

    pub fn no_dot_providers() -> (r: Self)
        ensures
            r.kind == ErrorKind::NoDotProviders,
    {
        Self::new(ErrorKind::NoDotProviders)
    }

    pub fn sync_error() -> (r: Self)
        ensures
            r.kind == ErrorKind::SyncError,
    {
        Self::new(ErrorKind::SyncError)
    }

    pub fn line_is_blank() -> (r: Self)
        ensures
            r.kind == ErrorKind::LineIsBlank,
    {
        Self::new(ErrorKind::LineIsBlank)
    }

    pub fn dns_parsing() -> (r: Self)
        ensures
            r.kind == ErrorKind::DnsParsing,
    {
        Self::new(ErrorKind::DnsParsing)
    }

    pub fn dns_too_many_questions() -> (r: Self)
        ensures
            r.kind == ErrorKind::DnsTooManyQuestions,
    {
        Self::new(ErrorKind::DnsTooManyQuestions)
    }

    pub fn text_decoding() -> (r: Self)
        ensures
            r.kind == ErrorKind::TextDecoding,
    {
        Self::new(ErrorKind::TextDecoding)
    }

    /// The diagnostic line reported for this error.
    pub fn message(&self) -> (r: String)
        ensures
            r@ == message_of(self.kind),
    {
        match self.kind {
            ErrorKind::Io => "IO error".to_owned(),
            ErrorKind::Tls => "TLS error".to_owned(),
            ErrorKind::TlsHandshake => "TLS handshake error".to_owned(),
            ErrorKind::Toml => "TOML file error".to_owned(),
            ErrorKind::Http => "HTTP error".to_owned(),
            ErrorKind::TextDecoding => "Couldn't decode bytes as UTF-8".to_owned(),
            ErrorKind::NoDotProviders => {
                "TOML file error: At least one DNS-over-TLS provider must be defined".to_owned()
            },
            ErrorKind::SyncError => "Unable to update block list".to_owned(),
            ErrorKind::LineIsBlank => "Block list line has no meaningful content on it".to_owned(),
            ErrorKind::DnsParsing => "Couldn't parse DNS message".to_owned(),
            ErrorKind::DnsTooManyQuestions => "Too many questions in DNS request".to_owned(),
        }
    }
}

/// What each kind of error reports.
pub open spec fn message_of(kind: ErrorKind) -> Seq<char> {
    match kind {
        ErrorKind::Io => "IO error"@,
        ErrorKind::Tls => "TLS error"@,
        ErrorKind::TlsHandshake => "TLS handshake error"@,
        ErrorKind::Toml => "TOML file error"@,
        ErrorKind::Http => "HTTP error"@,
        ErrorKind::TextDecoding => "Couldn't decode bytes as UTF-8"@,
        ErrorKind::NoDotProviders => "TOML file error: At least one DNS-over-TLS provider must be defined"@,
        ErrorKind::SyncError => "Unable to update block list"@,
        ErrorKind::LineIsBlank => "Block list line has no meaningful content on it"@,
        ErrorKind::DnsParsing => "Couldn't parse DNS message"@,
        ErrorKind::DnsTooManyQuestions => "Too many questions in DNS request"@,
    }
}

} // verus!
