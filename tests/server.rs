use skaja::{Command, Exchange, Interest, IoErrorKind, IoOutcome, Phase, Response, Server, StatusCodes, SERVER_TOKEN};

/// Accepts a connection, as the event loop does for the listening socket.
fn new_client(server: &mut Server) -> usize {
    let token = server.accept().unwrap();
    assert_ne!(token, SERVER_TOKEN);
    token
}

/// Carries one command from a client connection to the server and back,
/// moving the bytes `step` at a time in each direction.
fn send_in_steps(server: &mut Server, token: usize, command: Command, step: usize) -> Response {
    let mut exchange = Exchange::new(&command).unwrap();
    while !exchange.unsent().is_empty() {
        assert_eq!(server.interest(token), Some(Interest::Readable));
        let out = exchange.unsent();
        let n = step.min(out.len()).min(server.read_budget(token));
        let chunk = out[..n].to_vec();
        let taken = server.on_read(token, &chunk);
        assert_eq!(taken, n);
        exchange.on_sent(n);
    }
    assert_eq!(server.interest(token), Some(Interest::Writable));
    server.on_writable(token);
    loop {
        if let Some(response) = exchange.response() {
            assert_eq!(server.phase(token), Some(Phase::AwaitingRequest));
            return response.unwrap();
        }
        let pending = server.unsent(token).to_vec();
        let n = step.min(pending.len()).min(exchange.read_budget());
        let taken = exchange.on_read(&pending[..n]);
        assert_eq!(taken, n);
        server.on_sent(token, n);
    }
}

fn send(server: &mut Server, token: usize, command: Command) -> Response {
    send_in_steps(server, token, command, usize::MAX)
}

#[test]
pub fn get_non_existent_key_should_return_err() {
    let mut server = Server::new();
    let client = new_client(&mut server);
    let response = send(&mut server, client, Command::Get("hello".to_string()));
    assert_eq!(response.status_code(), StatusCodes::ClientErr);
    assert_eq!(response.message(), Some(r#"Key "hello" not found."#));
}

#[test]
pub fn client1_set_command_result_should_be_visible_to_client2() {
    let mut server = Server::new();
    let client1 = new_client(&mut server);
    let client2 = new_client(&mut server);

    send(&mut server, client1, Command::Put("hello".to_string(), "world".to_string()));

    let response = send(&mut server, client2, Command::Get("hello".to_string()));
    assert_eq!(response.status_code(), StatusCodes::Success);
    assert_eq!(response.message(), Some("world"));
}

#[test]
pub fn client1_del_command_result_should_be_visible_to_client2() {
    let mut server = Server::new();
    let client1 = new_client(&mut server);
    let client2 = new_client(&mut server);

    send(&mut server, client1, Command::Put("hello".to_string(), "world".to_string()));

    let response = send(&mut server, client2, Command::Get("hello".to_string()));
    assert_eq!(response.status_code(), StatusCodes::Success);
    assert_eq!(response.message(), Some("world"));

    send(&mut server, client1, Command::Delete("hello".to_string()));

    let response = send(&mut server, client2, Command::Get("hello".to_string()));
    // A missing key is answered with `ClientErr` throughout.
    assert_eq!(response.status_code(), StatusCodes::ClientErr);
}

#[test]
pub fn setting_a_key_should_result_in_ok() {
    let mut server = Server::new();
    let client = new_client(&mut server);
    let response = send(&mut server, client, Command::Put("hello".to_string(), "world".to_string()));
    assert_eq!(response.status_code(), StatusCodes::Success);
    assert_eq!(response.message(), Some(r#"Key "hello" set to "world"."#));
}

#[test]
pub fn getting_existing_key_should_result_in_ok() {
    let mut server = Server::new();
    let client = new_client(&mut server);
    send(&mut server, client, Command::Put("hello".to_string(), "world".to_string()));
    let response = send(&mut server, client, Command::Get("hello".to_string()));
    assert_eq!(response.status_code(), StatusCodes::Success);
    assert_eq!(response.message(), Some("world"));
}

#[test]
pub fn getting_non_existing_key_should_result_in_client_error() {
    let mut server = Server::new();
    let client = new_client(&mut server);
    let response = send(&mut server, client, Command::Get("hello".to_string()));
    assert_eq!(response.status_code(), StatusCodes::ClientErr);
    assert_eq!(response.message(), Some(r#"Key "hello" not found."#));
}

#[test]
pub fn deleting_existing_key_should_result_in_ok() {
    let mut server = Server::new();
    let client = new_client(&mut server);
    send(&mut server, client, Command::Put("hello".to_string(), "world".to_string()));
    let response = send(&mut server, client, Command::Delete("hello".to_string()));
    assert_eq!(response.status_code(), StatusCodes::Success);
    assert_eq!(response.message(), Some(r#"Key "hello" deleted."#));
}

#[test]
pub fn deleting_non_existent_key_should_result_in_client_error() {
    let mut server = Server::new();
    let client = new_client(&mut server);
    let response = send(&mut server, client, Command::Delete("hello".to_string()));
    assert_eq!(response.status_code(), StatusCodes::ClientErr);
    assert_eq!(response.message(), Some(r#"Key "hello" not found."#));
}

#[test]
fn missing_key_scenarios_name_the_key() {
    let mut server = Server::new();
    let client = new_client(&mut server);
    let get = send(&mut server, client, Command::Get("missing".to_string()));
    let del = send(&mut server, client, Command::Delete("missing".to_string()));
    assert_eq!(get.status_code(), StatusCodes::ClientErr);
    assert_eq!(del.status_code(), StatusCodes::ClientErr);
    assert_eq!(get.message(), Some(r#"Key "missing" not found."#));
    assert_eq!(get.message(), del.message());
}

#[test]
fn byte_at_a_time_gives_the_same_answers() {
    let mut server = Server::new();
    let client = new_client(&mut server);
    let r = send_in_steps(&mut server, client, Command::Put("k".to_string(), "v".to_string()), 1);
    assert_eq!(r.message(), Some(r#"Key "k" set to "v"."#));
    for step in 1..12 {
        let r = send_in_steps(&mut server, client, Command::Get("k".to_string()), step);
        assert_eq!(r.status_code(), StatusCodes::Success);
        assert_eq!(r.message(), Some("v"));
    }
}

#[test]
fn repeated_get_and_overwrite() {
    let mut server = Server::new();
    let client = new_client(&mut server);
    send(&mut server, client, Command::Put("k".to_string(), "v1".to_string()));
    send(&mut server, client, Command::Put("k".to_string(), "v2".to_string()));
    let a = send(&mut server, client, Command::Get("k".to_string()));
    let b = send(&mut server, client, Command::Get("k".to_string()));
    assert_eq!(a.message(), Some("v2"));
    assert_eq!(a.message(), b.message());
    assert_eq!(a.status_code(), b.status_code());
}

#[test]
fn malformed_request_gets_a_server_error_and_the_connection_stays() {
    let mut server = Server::new();
    let client = new_client(&mut server);
    // One field announced, and it is the name: the key is missing.
    let bytes = vec![1, 0, 0, 0, 3, 0, 0, 0, 103, 101, 116];
    let mut fed = 0;
    while fed < bytes.len() {
        let n = server.read_budget(client).min(bytes.len() - fed);
        fed += server.on_read(client, &bytes[fed..fed + n]);
    }
    server.on_writable(client);
    let out = server.unsent(client).to_vec();
    let response = Response::decode(&out).unwrap();
    assert_eq!(response.status_code(), StatusCodes::ServerErr);
    assert_eq!(response.message(), Some("Missing key argument."));
    server.on_sent(client, out.len());
    let r = send(&mut server, client, Command::Get("k".to_string()));
    assert_eq!(r.status_code(), StatusCodes::ClientErr);
}

#[test]
fn tokens_are_fresh_and_removal_happens_once() {
    let mut server = Server::new();
    let a = new_client(&mut server);
    let b = new_client(&mut server);
    assert_ne!(a, b);
    assert!(server.remove(a));
    assert!(!server.remove(a));
    let c = new_client(&mut server);
    assert_ne!(c, a);
    assert_ne!(c, b);
    assert_eq!(server.interest(a), None);
    assert_eq!(server.interest(b), Some(Interest::Readable));
}

#[test]
fn io_errors_are_classified() {
    let mut server = Server::new();
    let a = new_client(&mut server);
    assert_eq!(server.on_io_error(a, IoErrorKind::WouldBlock), IoOutcome::Suspend);
    assert_eq!(server.on_io_error(a, IoErrorKind::Interrupted), IoOutcome::Retry);
    assert_eq!(server.phase(a), Some(Phase::AwaitingRequest));
    assert_eq!(server.on_io_error(a, IoErrorKind::ConnectionReset), IoOutcome::Close);
    assert_eq!(server.phase(a), Some(Phase::Closed));
    assert_eq!(server.interest(a), None);
    let b = new_client(&mut server);
    for kind in [IoErrorKind::UnexpectedEof, IoErrorKind::ConnectionAborted, IoErrorKind::BrokenPipe, IoErrorKind::Other] {
        assert_eq!(skaja::classify(kind), IoOutcome::Close);
    }
    server.close(b);
    assert_eq!(server.phase(b), Some(Phase::Closed));
}
