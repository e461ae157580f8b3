use word_of_wisdom::client::{read_verdict, respond_to_puzzle, Client, ClientError};
use word_of_wisdom::proto::{encode_puzzle, Puzzle, SolutionState};
use word_of_wisdom::server::{ConfigError, Server};
use word_of_wisdom::transport::{Transport, TransportError};

#[test]
fn test_server_new_from_file() {
    let text = "response 1 \n\n\n \rresponse 2 \n\n\nresponse 3\n";
    let server = Server::new_from_bytes(text.as_bytes()).unwrap();
    assert_eq!(
        *server.responses(),
        vec![
            String::from("response 1"),
            String::from("response 2"),
            String::from("response 3"),
        ]
    );
}

#[test]
fn test_client_and_server() {
    let mut server = Server::new_with_responses(vec![
        String::from("response 1"),
        String::from("response 2"),
    ])
    .unwrap();
    server.set_puzzle_complexity(3);
    let puzzle = Puzzle::new(server.puzzle_complexity());

    // client, first turn: read the puzzle, solve it, send the solution
    let mut client_side = Transport::new();
    client_side.push_bytes_to_read(&encode_puzzle(&puzzle));
    let solved = respond_to_puzzle(&mut client_side).unwrap();
    assert!(solved.hashes_tried > 0);
    let solution_bytes = client_side.pop_bytes_written();

    // server: one whole connection against that solution
    let mut server_side = Transport::new();
    server_side.push_bytes_to_read(&solution_bytes);
    let verdict = server.handle_connection(&mut server_side, &puzzle).unwrap();
    assert_eq!(verdict, SolutionState::ACCEPTED);

    // client, second turn: read back the server's stream
    let server_bytes = server_side.pop_bytes_written();
    let mut client_again = Transport::new();
    client_again.push_bytes_to_read(&server_bytes);
    let echoed = client_again.receive_puzzle().unwrap();
    assert_eq!(echoed, puzzle);
    let response = read_verdict(&mut client_again).unwrap();
    assert!(response.as_str() == "response 1" || response.as_str() == "response 2");
}

#[test]
fn test_server_invalid_solution() {
    let mut server = Server::new_with_responses(vec![String::from("response 1")]).unwrap();
    server.set_puzzle_complexity(30);
    let puzzle = Puzzle::new(server.puzzle_complexity());

    let mut server_side = Transport::new();
    server_side.push_bytes_to_read(&[0u8; 16]);
    let verdict = server.handle_connection(&mut server_side, &puzzle).unwrap();
    assert_eq!(verdict, SolutionState::REJECTED);

    // the verdict message follows the puzzle, and nothing after it
    let server_bytes = server_side.pop_bytes_written();
    assert_eq!(server_bytes.len(), 17 + 4);
    assert_eq!(server_bytes[17..].to_vec(), vec![1, 0, 0, 0]);

    let mut client_side = Transport::new();
    client_side.push_bytes_to_read(&server_bytes);
    client_side.receive_puzzle().unwrap();
    match read_verdict(&mut client_side) {
        Err(ClientError::SolutionRejected) => {}
        other => panic!("expected the rejection error, got {:?}", other),
    }
}

#[test]
fn test_empty_response_pool_rejected() {
    match Server::new_with_responses(Vec::new()) {
        Err(ConfigError::EmptyResponses) => {}
        Err(other) => panic!("expected the empty-pool error, got {:?}", other),
        Ok(_) => panic!("an empty pool must be refused"),
    }
}

#[test]
fn test_new_from_bytes_invalid_utf8() {
    match Server::new_from_bytes(&[0xff, 0xfe]) {
        Err(ConfigError::InvalidUtf8) => {}
        Err(other) => panic!("expected the encoding error, got {:?}", other),
        Ok(_) => panic!("bytes that are not text must be refused"),
    }
}

#[test]
fn test_new_from_bytes_empty_text() {
    let server = Server::new_from_bytes(b"").unwrap();
    assert_eq!(*server.responses(), vec![String::new()]);
}

#[test]
fn test_client_holds_address() {
    let client = Client::new("127.0.0.1:4444");
    assert_eq!(client.addr(), "127.0.0.1:4444");
}

#[test]
fn test_client_eof_before_puzzle() {
    let mut t = Transport::new();
    match respond_to_puzzle(&mut t) {
        Err(ClientError::Transport(TransportError::UnexpectedEof)) => {}
        Err(other) => panic!("expected an eof error, got {:?}", other),
        Ok(_) => panic!("an empty stream must not yield a puzzle"),
    }
}
