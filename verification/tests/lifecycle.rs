use fruitboard_scanner::watcher::lifecycle::{
    arm_failure, classify_start_failure, completion_failure, terminal_reason, validate_start, CompletionFailure,
    WatchSession, WatcherConfig, WatcherStats, ERROR_ACCESS_DENIED, ERROR_BAD_NETPATH, ERROR_BAD_NET_NAME,
    ERROR_DELETE_PENDING, ERROR_DIRECTORY, ERROR_FILE_NOT_FOUND, ERROR_INVALID_HANDLE, ERROR_IO_INCOMPLETE,
    ERROR_MORE_DATA, ERROR_NETNAME_DELETED, ERROR_NOTIFY_ENUM_DIR, ERROR_NOT_READY, ERROR_OPERATION_ABORTED,
    ERROR_PATH_NOT_FOUND, ERROR_SHARING_VIOLATION, arm_wait, classify_root_attributes, ArmWait, ARM_TIMEOUT_MS,
    FILE_ATTRIBUTE_DIRECTORY, FILE_ATTRIBUTE_REPARSE_POINT, INVALID_FILE_ATTRIBUTES,
};
use fruitboard_scanner::watcher::{EndReason, HintKind, RootId, StartError, WatchHint, WatchOutcome};

#[test]
fn terminal_reason_maps_root_lost_codes() {
    for code in [
        ERROR_ACCESS_DENIED,
        ERROR_DELETE_PENDING,
        ERROR_NOT_READY,
        ERROR_BAD_NETPATH,
        ERROR_BAD_NET_NAME,
        ERROR_NETNAME_DELETED,
        ERROR_FILE_NOT_FOUND,
        ERROR_PATH_NOT_FOUND,
        ERROR_INVALID_HANDLE,
        ERROR_DIRECTORY,
    ] {
        assert_eq!(
            terminal_reason(code),
            EndReason::RootLost,
            "os_code {code} must classify as RootLost"
        );
    }
}

#[test]
fn terminal_reason_keeps_sharing_violation_as_watch_failed() {
    assert_eq!(
        terminal_reason(ERROR_SHARING_VIOLATION),
        EndReason::WatchFailed {
            os_code: ERROR_SHARING_VIOLATION
        }
    );
    assert_eq!(
        terminal_reason(0xDEAD),
        EndReason::WatchFailed { os_code: 0xDEAD }
    );
}

#[test]
fn start_failure_preserves_root_lost_instead_of_resource_unavailable() {
    assert_eq!(
        classify_start_failure(Some(EndReason::RootLost), ERROR_FILE_NOT_FOUND),
        StartError::RootUnavailable {
            os_code: ERROR_FILE_NOT_FOUND
        }
    );
    assert_eq!(
        classify_start_failure(Some(EndReason::RootLost), ERROR_DIRECTORY),
        StartError::RootUnavailable {
            os_code: ERROR_DIRECTORY
        }
    );
    assert_eq!(
        classify_start_failure(
            Some(EndReason::WatchFailed {
                os_code: ERROR_SHARING_VIOLATION
            }),
            0
        ),
        StartError::RootUnavailable {
            os_code: ERROR_SHARING_VIOLATION
        }
    );
    assert_eq!(
        classify_start_failure(Some(EndReason::Stopped), 0),
        StartError::ResourceUnavailable { os_code: 0 }
    );
    assert_eq!(
        classify_start_failure(None, 0),
        StartError::ResourceUnavailable { os_code: 0 }
    );
}

#[test]
fn read_failures_map_to_overflow_pending_stop_or_terminal() {
    assert_eq!(completion_failure(ERROR_MORE_DATA, false), CompletionFailure::Overflow);
    assert_eq!(completion_failure(ERROR_NOTIFY_ENUM_DIR, true), CompletionFailure::Overflow);
    assert_eq!(completion_failure(ERROR_IO_INCOMPLETE, false), CompletionFailure::StillPending);
    assert_eq!(
        completion_failure(ERROR_OPERATION_ABORTED, false),
        CompletionFailure::Ended { reason: EndReason::Stopped, record_code: None }
    );
    assert_eq!(
        completion_failure(ERROR_ACCESS_DENIED, true),
        CompletionFailure::Ended { reason: EndReason::Stopped, record_code: None }
    );
    assert_eq!(
        completion_failure(ERROR_ACCESS_DENIED, false),
        CompletionFailure::Ended { reason: EndReason::RootLost, record_code: Some(ERROR_ACCESS_DENIED) }
    );
    assert_eq!(
        completion_failure(ERROR_SHARING_VIOLATION, false),
        CompletionFailure::Ended {
            reason: EndReason::WatchFailed { os_code: ERROR_SHARING_VIOLATION },
            record_code: None
        }
    );
    assert_eq!(arm_failure(ERROR_OPERATION_ABORTED), (EndReason::Stopped, None));
    assert_eq!(arm_failure(ERROR_PATH_NOT_FOUND), (EndReason::RootLost, Some(ERROR_PATH_NOT_FOUND)));
    assert_eq!(arm_failure(7), (EndReason::WatchFailed { os_code: 7 }, None));
}

#[test]
fn configuration_is_validated_and_clamped() {
    let config = WatcherConfig::default();
    assert_eq!(config.normalized(), (64 * 1024, 500));
    let small = WatcherConfig { notify_buffer_bytes: 1, validity_poll_ms: 1, ..config };
    assert_eq!(small.normalized(), (4096, 50));
    let large = WatcherConfig { notify_buffer_bytes: usize::MAX, validity_poll_ms: u32::MAX, ..config };
    assert_eq!(large.normalized(), (1024 * 1024, 10_000));
    let root: Vec<u16> = "C:\\Music".encode_utf16().collect();
    assert_eq!(validate_start(&config, &root), Ok(()));
    assert_eq!(validate_start(&WatcherConfig { window: 0, ..config }, &root), Err(StartError::InvalidConfig));
    assert_eq!(validate_start(&WatcherConfig { raw_queue_bound: 0, ..config }, &root), Err(StartError::InvalidConfig));
    assert_eq!(validate_start(&config, &[]), Err(StartError::InvalidRootPath));
    assert_eq!(validate_start(&config, &[0x43, 0, 0x44]), Err(StartError::InvalidRootPath));
    assert_eq!(WatcherStats::default().dropped_raw_events, 0);
}

#[test]
fn a_session_coalesces_drained_activity_into_one_hint_per_window() {
    let config = WatcherConfig { generation: 4, window: 100, ..WatcherConfig::default() };
    let mut session = WatchSession::new(RootId(9), &config).expect("valid config");
    assert!(session.poll(0, 25, false, None).is_empty());
    assert!(session.poll(50, 3, false, None).is_empty());
    assert_eq!(
        session.poll(100, 0, false, None),
        [WatchHint { root: RootId(9), generation: 4, kind: HintKind::ReconciliationRequested }]
    );
    assert!(session.poll(150, 0, false, None).is_empty());
    assert_eq!(session.root_id(), RootId(9));
    assert_eq!(session.generation(), 4);
}

#[test]
fn a_session_surfaces_loss_immediately_and_one_final_loss_when_the_watch_ends() {
    let config = WatcherConfig { generation: 2, window: 1_000, ..WatcherConfig::default() };
    let mut session = WatchSession::new(RootId(1), &config).expect("valid config");
    assert_eq!(
        session.poll(0, 5, true, None),
        [WatchHint { root: RootId(1), generation: 2, kind: HintKind::CoverageLost }]
    );
    let ended = WatchOutcome { root: RootId(1), generation: 2, reason: EndReason::RootLost };
    assert_eq!(
        session.poll(10, 0, false, Some(ended)),
        [WatchHint { root: RootId(1), generation: 2, kind: HintKind::CoverageLost }]
    );
    assert_eq!(session.outcome(), Some(ended));
    assert!(session.poll(20, 0, false, None).is_empty(), "the final loss is raised once");
    assert!(session.poll(5_000, 0, false, None).is_empty());
    assert!(WatchSession::new(RootId(1), &WatcherConfig { window: 0, ..config }).is_err());
}

#[test]
fn arm_wait_takes_an_armed_watch_and_gives_up_on_exit_or_timeout() {
    assert_eq!(arm_wait(true, false, 0), ArmWait::Armed);
    assert_eq!(arm_wait(true, true, 4_999), ArmWait::Armed);
    assert_eq!(arm_wait(false, true, 10), ArmWait::NotArmed);
    assert_eq!(arm_wait(false, false, 10), ArmWait::Wait);
    assert_eq!(arm_wait(true, false, ARM_TIMEOUT_MS), ArmWait::NotArmed);
    assert_eq!(arm_wait(false, false, 5_000), ArmWait::NotArmed);
}

#[test]
fn root_attributes_decide_the_start() {
    assert_eq!(classify_root_attributes(INVALID_FILE_ATTRIBUTES, 5), Err(StartError::RootUnavailable { os_code: 5 }));
    assert_eq!(classify_root_attributes(FILE_ATTRIBUTE_DIRECTORY | FILE_ATTRIBUTE_REPARSE_POINT, 0), Err(StartError::ReparseRootExcluded));
    assert_eq!(classify_root_attributes(0x20, 0), Err(StartError::NotADirectory));
    assert_eq!(classify_root_attributes(FILE_ATTRIBUTE_DIRECTORY, 0), Ok(()));
}
