use piui::contracts::{
    HostError, HostErrorCode, ProjectTrustState, Revision, RevisionError, RuntimeCapabilities,
    RuntimeSnapshot, RuntimeState, SessionParseState, SessionTitleSource, TimelineBlock,
    TimelineBlockKind,
};
use piui::json::JsonValue;

#[test]
fn revision_overflow_is_explicit() {
    assert_eq!(Revision(u64::MAX).next(), Err(RevisionError::Overflow));
}

#[test]
fn revision_advances_by_one() {
    assert_eq!(Revision(41).next(), Ok(Revision(42)));
    assert_eq!(Revision(42).get(), 42);
}

#[test]
fn safe_defaults_are_conservative_and_complete() {
    assert_eq!(ProjectTrustState::default(), ProjectTrustState::Unknown);
    assert_eq!(SessionTitleSource::default(), SessionTitleSource::DateId);
    assert_eq!(SessionParseState::default(), SessionParseState::Partial);
    assert_eq!(RuntimeState::default(), RuntimeState::Dormant);
    assert_eq!(TimelineBlockKind::default(), TimelineBlockKind::Custom);
    assert_eq!(TimelineBlock::default().content, JsonValue::Null);

    let capabilities = RuntimeCapabilities::default();
    assert!(!capabilities.rpc);
    assert!(!capabilities.images);
    assert!(!capabilities.session_tree_navigate);
    assert!(!capabilities.ui_custom_tui.is_supported());

    let snapshot = RuntimeSnapshot::default();
    assert_eq!(snapshot.revision, Revision::zero());
    assert_eq!(snapshot.state, RuntimeState::Dormant);
    assert!(snapshot.available_models.is_empty());
    assert!(snapshot.blocks.is_empty());

    let error = HostError::default();
    assert_eq!(error.code, HostErrorCode::InternalError);
    assert!(!error.recoverable);
}

#[test]
fn host_error_codes_match_the_protocol_spelling() {
    let cases = [
        (HostErrorCode::InvalidArgument, "INVALID_ARGUMENT"),
        (HostErrorCode::NotFound, "NOT_FOUND"),
        (HostErrorCode::NotTrusted, "NOT_TRUSTED"),
        (HostErrorCode::NotSupported, "NOT_SUPPORTED"),
        (HostErrorCode::PermissionDenied, "PERMISSION_DENIED"),
        (HostErrorCode::Conflict, "CONFLICT"),
        (HostErrorCode::RuntimeNotReady, "RUNTIME_NOT_READY"),
        (HostErrorCode::RuntimeFailed, "RUNTIME_FAILED"),
        (HostErrorCode::ProtocolError, "PROTOCOL_ERROR"),
        (HostErrorCode::Timeout, "TIMEOUT"),
        (HostErrorCode::IoError, "IO_ERROR"),
        (HostErrorCode::InternalError, "INTERNAL_ERROR"),
    ];

    for (code, expected) in cases {
        assert_eq!(code.protocol_name(), expected);
    }
}
