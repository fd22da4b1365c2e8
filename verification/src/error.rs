//! Error type shared by the whole core.

use crate::protocol::ErrorCode;
use crate::text;
use vstd::prelude::*;

verus! {

pub type Result<T> = std::result::Result<T, CoreError>;

/// What an input or output operation failed with, as far as the core tells the
/// kinds apart.
#[derive(Debug, Clone, Copy, PartialEq, Eq, Structural)]
pub enum IoKind {
    BrokenPipe,
    UnexpectedEof,
    ConnectionReset,
    ConnectionAborted,
    InvalidData,
    Other,
}

/// A failed input or output operation.
#[derive(Debug, PartialEq)]
pub struct IoFailure {
    pub kind: IoKind,
    /// The code of the operating system, where the failure comes from it.
    pub os_code: Option<i32>,
    pub message: String,
}

/// What went wrong.
#[derive(Debug, PartialEq)]
pub enum CoreError {
    Io(IoFailure),
    Unsupported(String),
    AudioFormat(String),
    InvalidSession(String),
    BadRequest(String),
    Provider(String),
    Model(String),
    Internal(String),
}

/// The model of [`CoreError`].
#[verifier::ext_equal]
pub enum ErrorView {
    Io { kind: IoKind, os_code: Option<i32>, message: Seq<char> },
    Unsupported(Seq<char>),
    AudioFormat(Seq<char>),
    InvalidSession(Seq<char>),
    BadRequest(Seq<char>),
    Provider(Seq<char>),
    Model(Seq<char>),
    Internal(Seq<char>),
}

impl View for CoreError {
    type V = ErrorView;

    open spec fn view(&self) -> ErrorView {
        match self {
            CoreError::Io(io) => ErrorView::Io {
                kind: io.kind,
                os_code: io.os_code,
                message: io.message@,
            },
            CoreError::Unsupported(text) => ErrorView::Unsupported(text@),
            CoreError::AudioFormat(text) => ErrorView::AudioFormat(text@),
            CoreError::InvalidSession(text) => ErrorView::InvalidSession(text@),
            CoreError::BadRequest(text) => ErrorView::BadRequest(text@),
            CoreError::Provider(text) => ErrorView::Provider(text@),
            CoreError::Model(text) => ErrorView::Model(text@),
            CoreError::Internal(text) => ErrorView::Internal(text@),
        }
    }
}

/// `ERROR_NO_DATA`: the named pipe is being closed.
pub const PIPE_CLOSING: i32 = 232;

impl ErrorView {
    /// The wire-level code of the error.
    pub open spec fn code(self) -> ErrorCode {
        match self {
            ErrorView::Io { .. } => ErrorCode::Internal,
            ErrorView::Unsupported(_) => ErrorCode::Unsupported,
            ErrorView::AudioFormat(_) => ErrorCode::AudioFormat,
            ErrorView::InvalidSession(_) => ErrorCode::InvalidSession,
            ErrorView::BadRequest(_) => ErrorCode::BadRequest,
            ErrorView::Provider(_) => ErrorCode::ProviderFailure,
            ErrorView::Model(_) => ErrorCode::Internal,
            ErrorView::Internal(_) => ErrorCode::Internal,
        }
    }

    /// The error as the client is told.
    pub open spec fn text(self) -> Seq<char> {
        match self {
            ErrorView::Io { message, .. } => "io error: "@ + message,
            ErrorView::Unsupported(text) => "unsupported: "@ + text,
            ErrorView::AudioFormat(text) => "invalid audio format: "@ + text,
            ErrorView::InvalidSession(text) => "invalid session: "@ + text,
            ErrorView::BadRequest(text) => "bad request: "@ + text,
            ErrorView::Provider(text) => "provider failure: "@ + text,
            ErrorView::Model(text) => "model error: "@ + text,
            ErrorView::Internal(text) => "internal error: "@ + text,
        }
    }

    /// Whether the error only says that the peer has gone.
    pub open spec fn disconnected(self) -> bool {
        match self {
            ErrorView::Io { kind, os_code, .. } => {
                ||| os_code == Some(PIPE_CLOSING)
                ||| kind == IoKind::BrokenPipe
                ||| kind == IoKind::UnexpectedEof
                ||| kind == IoKind::ConnectionReset
                ||| kind == IoKind::ConnectionAborted
            },
            _ => false,
        }
    }
}

/// The model of a result without a value.
pub open spec fn failure<T>(result: Result<T>) -> Option<ErrorView> {
    match result {
        Ok(_) => None,
        Err(error) => Some(error@),
    }
}

impl CoreError {
    /// Map to the wire-level error code sent back to the client.
    pub fn code(&self) -> (code: ErrorCode)
        ensures
            code == self@.code(),
    {
        match self {
            CoreError::Io(_) => ErrorCode::Internal,
            CoreError::Unsupported(_) => ErrorCode::Unsupported,
            CoreError::AudioFormat(_) => ErrorCode::AudioFormat,
            CoreError::InvalidSession(_) => ErrorCode::InvalidSession,
            CoreError::BadRequest(_) => ErrorCode::BadRequest,
            CoreError::Provider(_) => ErrorCode::ProviderFailure,
            CoreError::Model(_) => ErrorCode::Internal,
            CoreError::Internal(_) => ErrorCode::Internal,
        }
    }

    /// The error as the client is told.
    pub fn message(&self) -> (message: String)
        ensures
            message@ == self@.text(),
    {
        match self {
            CoreError::Io(io) => text::appended("io error: ", io.message.as_str()),
            CoreError::Unsupported(text) => text::appended("unsupported: ", text.as_str()),
            CoreError::AudioFormat(text) => text::appended("invalid audio format: ", text.as_str()),
            CoreError::InvalidSession(text) => text::appended("invalid session: ", text.as_str()),
            CoreError::BadRequest(text) => text::appended("bad request: ", text.as_str()),
            CoreError::Provider(text) => text::appended("provider failure: ", text.as_str()),
            CoreError::Model(text) => text::appended("model error: ", text.as_str()),
            CoreError::Internal(text) => text::appended("internal error: ", text.as_str()),
        }
    }

    /// Whether the error only says that the peer has gone. A client that dies
    /// mid-frame looks like a broken pipe; that is normal.
    pub fn is_disconnect(&self) -> (gone: bool)
        ensures
            gone == self@.disconnected(),
    {
        match self {
            CoreError::Io(io) => {
                let closing: bool = match io.os_code {
                    Some(code) => code == PIPE_CLOSING,
                    None => false,
                };
                closing || match io.kind {
                    IoKind::BrokenPipe => true,
                    IoKind::UnexpectedEof => true,
                    IoKind::ConnectionReset => true,
                    IoKind::ConnectionAborted => true,
                    IoKind::InvalidData => false,
                    IoKind::Other => false,
                }
            },
            _ => false,
        }
    }
}

// ---------------------------------------------------------------------------
// Laws
// ---------------------------------------------------------------------------

impl ErrorView {
    /// What went wrong, in the words of whoever found it.
    pub open spec fn said(self) -> Seq<char> {
        match self {
            ErrorView::Io { message, .. } => message,
            ErrorView::Unsupported(text) => text,
            ErrorView::AudioFormat(text) => text,
            ErrorView::InvalidSession(text) => text,
            ErrorView::BadRequest(text) => text,
            ErrorView::Provider(text) => text,
            ErrorView::Model(text) => text,
            ErrorView::Internal(text) => text,
        }
    }

    /// Two errors of one sort.
    pub open spec fn same_sort(self, other: ErrorView) -> bool {
        &&& self is Io <==> other is Io
        &&& self is Unsupported <==> other is Unsupported
        &&& self is AudioFormat <==> other is AudioFormat
        &&& self is InvalidSession <==> other is InvalidSession
        &&& self is BadRequest <==> other is BadRequest
        &&& self is Provider <==> other is Provider
        &&& self is Model <==> other is Model
        &&& self is Internal <==> other is Internal
    }
}

/// Words in front of what was said.
proof fn lemma_said(head: Seq<char>, said: Seq<char>)
    ensures
        (head + said).skip((head + said).len() - said.len()) == said,
        (head + said).take((head + said).len() - said.len()) == head,
{
    assert((head + said).skip(head.len() as int) =~= said);
    assert((head + said).take(head.len() as int) =~= head);
}

/// The text of an error ends with all that was said, behind words that depend on the sort
/// of error alone.
pub proof fn law_said(error: ErrorView, other: ErrorView)
    ensures
        ({
            let (a, b) = (error.text(), other.text());
            let (x, y) = (error.said(), other.said());
            &&& a.len() >= x.len()
            &&& a.skip(a.len() - x.len()) == x
            &&& error.same_sort(other) ==> a.take(a.len() - x.len()) == b.take(b.len() - y.len())
        }),
{
    let (x, y) = (error.said(), other.said());
    lemma_said("io error: "@, x);
    lemma_said("unsupported: "@, x);
    lemma_said("invalid audio format: "@, x);
    lemma_said("invalid session: "@, x);
    lemma_said("bad request: "@, x);
    lemma_said("provider failure: "@, x);
    lemma_said("model error: "@, x);
    lemma_said("internal error: "@, x);
    lemma_said("io error: "@, y);
    lemma_said("unsupported: "@, y);
    lemma_said("invalid audio format: "@, y);
    lemma_said("invalid session: "@, y);
    lemma_said("bad request: "@, y);
    lemma_said("provider failure: "@, y);
    lemma_said("model error: "@, y);
    lemma_said("internal error: "@, y);
}

/// The codes tell the sorts of error apart, except that trouble with input and output and
/// with a model is internal; none is unspecified.
pub proof fn law_codes(error: ErrorView)
    ensures
        error.code() == ErrorCode::Internal <==> error is Io || error is Model || error is Internal,
        error.code() == ErrorCode::Unsupported <==> error is Unsupported,
        error.code() == ErrorCode::AudioFormat <==> error is AudioFormat,
        error.code() == ErrorCode::InvalidSession <==> error is InvalidSession,
        error.code() == ErrorCode::BadRequest <==> error is BadRequest,
        error.code() == ErrorCode::ProviderFailure <==> error is Provider,
        error.code() != ErrorCode::Unspecified,
{
}

/// Only trouble with input and output is ever a disconnect, whatever its message; bad data
/// and unknown trouble are none unless the pipe was closing.
pub proof fn law_disconnect(error: ErrorView, message: Seq<char>)
    ensures
        error.disconnected() ==> error is Io,
        error matches ErrorView::Io { kind, os_code, .. } ==> {
            &&& error.disconnected() == (ErrorView::Io { kind, os_code, message }).disconnected()
            &&& os_code == Some(232i32) ==> error.disconnected()
            &&& os_code != Some(232i32) ==> (error.disconnected() <==> !(kind is InvalidData)
                && !(kind is Other))
        },
{
}

} // verus!
