use skaja::{Command, DecodeError, Field, Request};

#[test]
pub fn valid_get_payload_should_deserialized_correctly() {
    // Payload for "get testing" command
    let payload = vec![
        2, 0, 0, 0, 3, 0, 0, 0, 103, 101, 116, 7, 0, 0, 0, 116, 101, 115, 116, 105, 110, 103,
    ];
    let request = Request::new_with_payload(payload);
    let command: Command = request.try_into().unwrap();
    assert_eq!(command, Command::Get("testing".to_string()));
}

#[test]
pub fn valid_set_payload_should_deserialized_correctly() {
    // Payload for "set key value" command
    let payload = vec![
        3, 0, 0, 0, 3, 0, 0, 0, 115, 101, 116, 3, 0, 0, 0, 107, 101, 121, 5, 0, 0, 0, 118, 97,
        108, 117, 101,
    ];
    let request = Request::new_with_payload(payload);
    let command: Command = request.try_into().unwrap();
    assert_eq!(
        command,
        Command::Put("key".to_string(), "value".to_string())
    );
}

#[test]
pub fn valid_del_payload_should_deserialized_correctly() {
    // Payload for "del testing" command
    let payload = vec![
        2, 0, 0, 0, 3, 0, 0, 0, 100, 101, 108, 7, 0, 0, 0, 116, 101, 115, 116, 105, 110, 103,
    ];
    let request = Request::new_with_payload(payload);
    let command: Command = request.try_into().unwrap();
    assert_eq!(command, Command::Delete("testing".to_string()));
}

#[test]
#[should_panic]
pub fn invalid_payload_should_result_in_error() {
    let request = Request::new_with_payload(vec![0, 0, 0, 0]);
    let _: Command = request.try_into().unwrap();
}

fn decode(bytes: Vec<u8>) -> Result<Command, DecodeError> {
    Command::try_from(Request::new_with_payload(bytes))
}

#[test]
fn count_of_two_with_one_field_names_the_missing_key() {
    let bytes = vec![2, 0, 0, 0, 3, 0, 0, 0, 103, 101, 116];
    assert_eq!(decode(bytes), Err(DecodeError::MalformedPayload(Field::Key)));
}

#[test]
fn each_decode_error_has_an_input() {
    assert_eq!(decode(vec![1, 0, 0, 0]), Err(DecodeError::MalformedPayload(Field::Name)));
    assert_eq!(decode(vec![1, 0, 0, 0, 9, 0, 0, 0, 1]), Err(DecodeError::MalformedPayload(Field::Name)));
    assert_eq!(decode(vec![1, 0, 0, 0, 3, 0, 0, 0, 71, 69, 84]), Err(DecodeError::UnknownCommand));
    assert_eq!(
        decode(vec![2, 0, 0, 0, 3, 0, 0, 0, 115, 101, 116, 1, 0, 0, 0, 107]),
        Err(DecodeError::MalformedPayload(Field::Value))
    );
    assert_eq!(
        decode(vec![2, 0, 0, 0, 3, 0, 0, 0, 100, 101, 108, 5, 0, 0, 0, 107]),
        Err(DecodeError::MalformedPayload(Field::Key))
    );
    assert_eq!(DecodeError::MalformedPayload(Field::Key).message(), "Missing key argument.");
    assert_eq!(DecodeError::UnknownCommand.message(), "Invalid command.");
}

#[test]
fn round_trip_of_each_command() {
    let commands = vec![
        Command::Get("hello".to_owned()),
        Command::Put("clé".to_owned(), "värde ✓".to_owned()),
        Command::Delete("".to_owned()),
        Command::Put("".to_owned(), "".to_owned()),
    ];
    for c in commands {
        let request = c.to_request().unwrap();
        let back = Command::try_from(request).unwrap();
        assert_eq!(back, c);
    }
}

#[test]
fn encoded_length_follows_the_layout() {
    let request = Command::Put("ab".to_owned(), "cde".to_owned()).to_request().unwrap();
    assert_eq!(request.payload().len(), 8 + 3 + (4 + 2) + (4 + 3));
    let mut request = request;
    assert_eq!(request.header(), 3);
}

#[test]
fn next_msg_walks_the_fields() {
    let mut request = Command::Put("k".to_owned(), "v".to_owned()).to_request().unwrap();
    assert_eq!(request.next_msg(), Some("set".to_string()));
    assert_eq!(request.next_msg(), Some("k".to_string()));
    assert_eq!(request.next_msg(), Some("v".to_string()));
    assert_eq!(request.next_msg(), None);
    assert_eq!(Request::new().payload(), &[] as &[u8]);
}

#[test]
fn invalid_utf8_is_decoded_lossily() {
    let bytes = vec![2, 0, 0, 0, 3, 0, 0, 0, 103, 101, 116, 2, 0, 0, 0, 0x61, 0xff];
    assert_eq!(decode(bytes), Ok(Command::Get("a\u{FFFD}".to_owned())));
}

#[test]
fn trailing_fields_are_ignored() {
    let bytes = vec![3, 0, 0, 0, 3, 0, 0, 0, 103, 101, 116, 1, 0, 0, 0, 107, 1, 0, 0, 0, 120];
    assert_eq!(decode(bytes), Ok(Command::Get("k".to_owned())));
}

#[test]
fn default_request_is_empty() {
    let request = Request::default();
    assert_eq!(request, Request::new());
    assert!(request.payload().is_empty());
}

#[test]
fn next_msg_stops_at_a_short_field() {
    let mut request = Request::new_with_payload(vec![1, 0, 0, 0, 9, 0, 0, 0, 1]);
    assert_eq!(request.next_msg(), None);
    assert_eq!(request.next_msg(), None);
}
