use ucx_rpc::status::{
    Error, STATUS_ERR_BUSY, STATUS_ERR_CANCELED, STATUS_ERR_CONNECTION_RESET,
    STATUS_ERR_INVALID_ADDR, STATUS_ERR_INVALID_PARAM, STATUS_ERR_IO_ERROR,
    STATUS_ERR_MESSAGE_TRUNCATED, STATUS_ERR_NO_MEMORY, STATUS_ERR_NOT_CONNECTED,
    STATUS_ERR_REJECTED, STATUS_ERR_TIMED_OUT, STATUS_ERR_UNREACHABLE, STATUS_OK,
};

#[test]
fn success_code_translates_to_ok() {
    assert_eq!(Error::from_status(STATUS_OK), Ok(()));
}

#[test]
fn each_named_failure_code_maps_to_its_kind() {
    assert_eq!(Error::from_status(STATUS_ERR_IO_ERROR), Err(Error::IoError));
    assert_eq!(Error::from_status(STATUS_ERR_NO_MEMORY), Err(Error::NoMemory));
    assert_eq!(Error::from_status(STATUS_ERR_INVALID_PARAM), Err(Error::InvalidParam));
    assert_eq!(Error::from_status(STATUS_ERR_UNREACHABLE), Err(Error::Unreachable));
    assert_eq!(Error::from_status(STATUS_ERR_INVALID_ADDR), Err(Error::InvalidAddr));
    assert_eq!(
        Error::from_status(STATUS_ERR_MESSAGE_TRUNCATED),
        Err(Error::MessageTruncated)
    );
    assert_eq!(Error::from_status(STATUS_ERR_BUSY), Err(Error::Busy));
    assert_eq!(Error::from_status(STATUS_ERR_CANCELED), Err(Error::Canceled));
    assert_eq!(Error::from_status(STATUS_ERR_TIMED_OUT), Err(Error::TimedOut));
    assert_eq!(Error::from_status(STATUS_ERR_REJECTED), Err(Error::Rejected));
    assert_eq!(Error::from_status(STATUS_ERR_NOT_CONNECTED), Err(Error::NotConnected));
    assert_eq!(
        Error::from_status(STATUS_ERR_CONNECTION_RESET),
        Err(Error::ConnectionReset)
    );
}

#[test]
fn unlisted_failure_code_keeps_its_value() {
    assert_eq!(Error::from_status(-99), Err(Error::Other(-99)));
}

#[test]
fn failure_kinds_round_trip_through_their_codes() {
    let kinds = [
        Error::IoError,
        Error::NoMemory,
        Error::InvalidParam,
        Error::Unreachable,
        Error::InvalidAddr,
        Error::MessageTruncated,
        Error::Busy,
        Error::Canceled,
        Error::TimedOut,
        Error::Rejected,
        Error::NotConnected,
        Error::ConnectionReset,
        Error::Other(-42),
    ];
    for e in kinds {
        assert_eq!(Error::from_status(e.code()), Err(e));
    }
}
