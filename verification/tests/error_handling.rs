use praxis::error_handling::{
    ErrorType, PreReadError, Rejection, client_disconnect_status, handle_pre_read_io_error,
};

#[test]
fn client_disconnect_maps_connection_closed_to_499() {
    assert_eq!(
        client_disconnect_status(&ErrorType::ConnectionClosed),
        Some(499),
        "a premature client close should map to 499 Client Closed Request"
    );
}

#[test]
fn client_disconnect_maps_read_error_to_499() {
    assert_eq!(
        client_disconnect_status(&ErrorType::ReadError),
        Some(499),
        "a client connection reset should map to 499 Client Closed Request"
    );
}

#[test]
fn client_disconnect_maps_read_timeout_to_408() {
    assert_eq!(
        client_disconnect_status(&ErrorType::ReadTimedout),
        Some(408),
        "a stalled upload should map to 408 Request Timeout"
    );
}

#[test]
fn client_disconnect_leaves_server_faults_unclassified() {
    for etype in [
        ErrorType::InternalError,
        ErrorType::ConnectRefused,
        ErrorType::WriteError,
        ErrorType::H2Error,
    ] {
        assert_eq!(
            client_disconnect_status(&etype),
            None,
            "{etype:?} is not a downstream read disconnect and must surface as 500"
        );
    }
}

#[test]
fn pre_read_errors_of_the_client_are_answered() {
    assert_eq!(
        handle_pre_read_io_error(&ErrorType::ReadTimedout),
        PreReadError::ClientGone(Rejection { status: 408 })
    );
    assert_eq!(
        handle_pre_read_io_error(&ErrorType::ConnectionClosed),
        PreReadError::ClientGone(Rejection { status: 499 })
    );
}

#[test]
fn other_pre_read_errors_are_handed_on() {
    assert_eq!(handle_pre_read_io_error(&ErrorType::InternalError), PreReadError::Propagate);
    assert_eq!(handle_pre_read_io_error(&ErrorType::Other), PreReadError::Propagate);
}
