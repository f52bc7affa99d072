use skaja::{DecodeError, Field, RawResponse, Response, StatusCodes};

#[test]
pub fn new_ok_should_result_in_correct_payload() {
    let raw_response = RawResponse::new(StatusCodes::Success, Some("OK".to_string()));
    let payload = raw_response.payload();

    let header = &payload[0..4];
    let msg_header = &payload[4..8];
    let msg = &payload[8..];

    assert_eq!(payload.len(), 10);
    assert_eq!(header, [0, 0, 0, 0]);
    assert_eq!(msg_header, [2, 0, 0, 0]);
    assert_eq!(msg, [79, 75]);
}

#[test]
pub fn new_not_found_err_should_result_in_correct_payload() {
    let raw_response =
        RawResponse::new(StatusCodes::ErrNotFound, Some(r#"Server error"#.into()));
    let payload = raw_response.payload();

    let header = &payload[0..4];
    let msg_header = &payload[4..8];
    let msg = &payload[8..];

    assert_eq!(payload.len(), 20);
    assert_eq!(header, [3, 0, 0, 0]);
    assert_eq!(msg_header, [12, 0, 0, 0]);
    assert_eq!(
        msg,
        [83, 101, 114, 118, 101, 114, 32, 101, 114, 114, 111, 114]
    );
}

#[test]
pub fn ok_should_be_parsed_correctly_to_response() {
    let raw_response = RawResponse::new(StatusCodes::Success, Some("OK".into()));
    let response: Response = raw_response.into();

    assert_eq!(response.status_code(), StatusCodes::Success);
    assert_eq!(response.message(), Some("OK"));
}

#[test]
pub fn client_err_should_be_parsed_correctly_to_response() {
    let raw_response =
        RawResponse::new(StatusCodes::ErrNotFound, Some("There's an error".into()));
    let response: Response = raw_response.into();

    assert_eq!(response.status_code(), StatusCodes::ErrNotFound);
    assert_eq!(response.message(), Some("There's an error"));
}

#[test]
fn no_message_is_a_zero_length() {
    let raw = RawResponse::new(StatusCodes::ServerErr, None);
    assert_eq!(raw.payload(), &[2, 0, 0, 0, 0, 0, 0, 0]);
    let response = Response::from(raw);
    assert_eq!(response.status_code(), StatusCodes::ServerErr);
    assert_eq!(response.message(), None);
}

#[test]
fn round_trip_of_each_status() {
    for status in [StatusCodes::Success, StatusCodes::ClientErr, StatusCodes::ServerErr, StatusCodes::ErrNotFound] {
        for message in [None, Some("ünïcode".to_string()), Some("x".to_string())] {
            let raw = RawResponse::new(status, message.clone());
            let bytes = raw.into_bytes();
            let response = Response::decode(&bytes).unwrap();
            assert_eq!(response.status_code(), status);
            assert_eq!(response.message(), message.as_deref());
        }
    }
}

#[test]
fn an_empty_message_comes_back_as_none() {
    let response = Response::from(RawResponse::new(StatusCodes::Success, Some(String::new())));
    assert_eq!(response.message(), None);
}

#[test]
fn codes_on_the_wire() {
    assert_eq!(StatusCodes::Success.code(), 0);
    assert_eq!(StatusCodes::ClientErr.code(), 1);
    assert_eq!(StatusCodes::ServerErr.code(), 2);
    assert_eq!(StatusCodes::ErrNotFound.code(), 3);
    assert_eq!(StatusCodes::from_code(1), Some(StatusCodes::ClientErr));
    assert_eq!(StatusCodes::from_code(4), None);
}

#[test]
fn malformed_response_bytes_are_refused() {
    assert_eq!(RawResponse::from_bytes(vec![0, 0]).err(), Some(DecodeError::MalformedPayload(Field::Status)));
    assert_eq!(RawResponse::from_bytes(vec![9, 0, 0, 0, 0, 0, 0, 0]).err(), Some(DecodeError::UnknownStatus));
    assert_eq!(RawResponse::from_bytes(vec![0, 0, 0, 0, 0, 0]).err(), Some(DecodeError::MalformedPayload(Field::Message)));
    assert_eq!(RawResponse::from_bytes(vec![0, 0, 0, 0, 3, 0, 0, 0, 65]).err(), Some(DecodeError::MalformedPayload(Field::Message)));
    let raw = RawResponse::from_bytes(vec![1, 0, 0, 0, 2, 0, 0, 0, 104, 105]).unwrap();
    let response = Response::from(raw);
    assert_eq!(response.status_code(), StatusCodes::ClientErr);
    assert_eq!(response.message(), Some("hi"));
}

#[test]
fn status_codes_read_as_text() {
    assert_eq!(StatusCodes::Success.to_text(), "OK");
    assert_eq!(StatusCodes::ErrNotFound.to_text(), "Key not found");
    assert_eq!(StatusCodes::ClientErr.to_text(), "Client error");
    assert_eq!(StatusCodes::ServerErr.to_text(), "Server error");
}
