use vstd::prelude::*;

verus! {

/// The kind of an I/O failure seen by the library.
#[derive(Debug, Clone, Copy, PartialEq, Eq, Structural)]
pub enum IoKind {
    /// The stream ended before a complete item was read.
    UnexpectedEof,
    /// The deadline of the exchange passed.
    TimedOut,
    /// The accumulated head grew past the parse buffer limit.
    BufferLimit,
    /// Any other failure of the transport.
    Other,
}

/// Every failure that a request can end in.
#[derive(Debug, Clone, Copy, PartialEq, Eq, Structural)]
pub enum Error {
    MissingScheme,
    MissingAuthority,
    MissingStatus,
    UnsupportedProtocol,
    TooManyRedirects,
    MissingLocation,
    InvalidChunkSize,
    InvalidLineEnding,
    InvalidServerName,
    Io(IoKind),
    Uri,
    Http,
    HeaderValue,
    HeaderToStr,
    Parse,
    Tls,
    Json,
}

impl Error {
    /// The description of each kind of failure.
    pub open spec fn message_text(self) -> Seq<char> {
        match self {
            Error::MissingScheme => "Missing scheme"@,
            Error::MissingAuthority => "Missing authority"@,
            Error::MissingStatus => "Missing status"@,
            Error::UnsupportedProtocol => "Unsupported protocol"@,
            Error::TooManyRedirects => "Too many redirects"@,
            Error::MissingLocation => "Missing location"@,
            Error::InvalidChunkSize => "Invalid chunk size"@,
            Error::InvalidLineEnding => "Invalid line ending"@,
            Error::InvalidServerName => "Invalid server name"@,
            Error::Io(IoKind::UnexpectedEof) => "I/O error: unexpected end of stream"@,
            Error::Io(IoKind::TimedOut) => "I/O error: timed out"@,
            Error::Io(IoKind::BufferLimit) => "I/O error: maximum parse buffer length reached"@,
            Error::Io(IoKind::Other) => "I/O error"@,
            Error::Uri => "HTTP invalid URI"@,
            Error::Http => "HTTP error"@,
            Error::HeaderValue => "HTTP header invalid value"@,
            Error::HeaderToStr => "HTTP header to string"@,
            Error::Parse => "HTTP parser error"@,
            Error::Tls => "TLS error"@,
            Error::Json => "JSON error"@,
        }
    }

    /// A short human-readable description.
    pub fn message(&self) -> (r: &'static str)
        ensures
            r@ == self.message_text(),
    {
        match self {
            Error::MissingScheme => "Missing scheme",
            Error::MissingAuthority => "Missing authority",
            Error::MissingStatus => "Missing status",
            Error::UnsupportedProtocol => "Unsupported protocol",
            Error::TooManyRedirects => "Too many redirects",
            Error::MissingLocation => "Missing location",
            Error::InvalidChunkSize => "Invalid chunk size",
            Error::InvalidLineEnding => "Invalid line ending",
            Error::InvalidServerName => "Invalid server name",
            Error::Io(IoKind::UnexpectedEof) => "I/O error: unexpected end of stream",
            Error::Io(IoKind::TimedOut) => "I/O error: timed out",
            Error::Io(IoKind::BufferLimit) => "I/O error: maximum parse buffer length reached",
            Error::Io(IoKind::Other) => "I/O error",
            Error::Uri => "HTTP invalid URI",
            Error::Http => "HTTP error",
            Error::HeaderValue => "HTTP header invalid value",
            Error::HeaderToStr => "HTTP header to string",
            Error::Parse => "HTTP parser error",
            Error::Tls => "TLS error",
            Error::Json => "JSON error",
        }
    }
}

} // verus!
