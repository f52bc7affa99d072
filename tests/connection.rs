use skaja::{Command, Connection, Interest, Phase, RawResponse, Response, StatusCodes, Store};

#[test]
fn one_request_through_a_connection() {
    let mut store = Store::new();
    let mut conn = Connection::new();
    assert_eq!(conn.interest(), Interest::Readable);
    let bytes = Command::Put("a".to_string(), "b".to_string()).to_request().unwrap().into_payload();
    let (first, rest) = bytes.split_at(5);
    assert_eq!(conn.on_read(first), 5);
    assert_eq!(conn.phase_now(), Phase::AwaitingRequest);
    assert_eq!(conn.read_budget(), 3);
    let mut fed = 0;
    while conn.phase_now() == Phase::AwaitingRequest {
        let n = conn.read_budget().min(rest.len() - fed);
        fed += conn.on_read(&rest[fed..fed + n]);
    }
    assert_eq!(fed, rest.len());
    assert_eq!(conn.interest(), Interest::Writable);
    conn.on_writable(&mut store);
    let out = conn.unsent().to_vec();
    let expected = RawResponse::new(StatusCodes::Success, Some(r#"Key "a" set to "b"."#.to_string()));
    assert_eq!(out, expected.payload());
    conn.on_sent(3);
    assert_eq!(conn.unsent(), &out[3..]);
    assert_eq!(conn.phase_now(), Phase::AwaitingWritable);
    conn.on_sent(out.len() - 3);
    assert_eq!(conn.phase_now(), Phase::AwaitingRequest);
    assert_eq!(conn.interest(), Interest::Readable);
}

#[test]
fn responses_read_as_text() {
    let with = Response::new(StatusCodes::Success, Some("world".to_string()));
    assert_eq!(with.to_text(), "world");
    assert_eq!(Response::new(StatusCodes::Success, None).to_text(), "<Ok>");
    assert_eq!(Response::new(StatusCodes::ErrNotFound, None).to_text(), "<nil>");
}
