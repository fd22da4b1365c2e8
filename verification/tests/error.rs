//! Errors as the client is told.

use translator_core::error::{CoreError, IoFailure, IoKind};
use translator_core::protocol::ErrorCode;

#[test]
fn errors_have_codes_and_texts() {
    let text = || "x".to_string();
    let io = CoreError::Io(IoFailure { kind: IoKind::Other, os_code: None, message: text() });
    let all = [
        (io, ErrorCode::Internal, "io error: x"),
        (CoreError::Unsupported(text()), ErrorCode::Unsupported, "unsupported: x"),
        (CoreError::AudioFormat(text()), ErrorCode::AudioFormat, "invalid audio format: x"),
        (CoreError::InvalidSession(text()), ErrorCode::InvalidSession, "invalid session: x"),
        (CoreError::BadRequest(text()), ErrorCode::BadRequest, "bad request: x"),
        (CoreError::Provider(text()), ErrorCode::ProviderFailure, "provider failure: x"),
        (CoreError::Model(text()), ErrorCode::Internal, "model error: x"),
        (CoreError::Internal(text()), ErrorCode::Internal, "internal error: x"),
    ];
    for (error, code, message) in all {
        assert_eq!(error.code(), code);
        assert_eq!(error.message(), message);
        assert!(!error.is_disconnect());
    }
}
