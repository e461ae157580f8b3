use word_of_wisdom::proto::{
    decode_puzzle, decode_quote, decode_quote_payload, decode_quote_size, decode_solution,
    decode_state, encode_puzzle, encode_quote, encode_quote_payload, encode_quote_size,
    encode_solution, encode_state, Puzzle, PuzzleSolution, QuoteSize, SolutionState,
    WordOfWisdomQuote, PUZZLE_MSG_SIZE, QUOTE_SIZE_MSG_SIZE, SOLUTION_STATE_SIZE,
};
use word_of_wisdom::transport::{Message, Transport, TransportError};

#[test]
fn test_transport_send() {
    let mut transport = Transport::new();

    transport.send(&Message::State(SolutionState::ACCEPTED)).unwrap();
    let received = transport.pop_bytes_written();
    assert_eq!(received.len(), SOLUTION_STATE_SIZE);
    // bincode encodes a unit enum variant as its 32-bit index, little endian
    assert_eq!(received, bincode::serialize(&0u32).unwrap());

    let puzzle = Puzzle::default();
    transport.send(&Message::Puzzle(puzzle)).unwrap();
    let received = transport.pop_bytes_written();
    assert_eq!(received.len(), PUZZLE_MSG_SIZE);
    // bincode encodes the struct as its fields in order, with no framing
    assert_eq!(
        received,
        bincode::serialize(&(puzzle.complexity, puzzle.value)).unwrap()
    );
}

#[test]
fn test_transport_send_with_varsize() {
    let mut transport = Transport::new();
    let sent_message = String::from("hello, world");

    transport
        .send_with_varsize(&WordOfWisdomQuote::new(&sent_message))
        .unwrap();
    let received_data = transport.pop_bytes_written();
    let size: usize = bincode::deserialize(&received_data[..QUOTE_SIZE_MSG_SIZE]).unwrap();
    assert_eq!(size, bincode::serialize(&sent_message).unwrap().len());

    let received_message: String =
        bincode::deserialize(&received_data[QUOTE_SIZE_MSG_SIZE..]).unwrap();
    assert_eq!(sent_message, received_message);
}

#[test]
fn test_transport_receive() {
    let mut transport = Transport::new();

    let sent_puzzle = Puzzle::default();
    let bin_data = bincode::serialize(&(sent_puzzle.complexity, sent_puzzle.value)).unwrap();
    transport.push_bytes_to_read(&bin_data);

    let received_puzzle = transport.receive_puzzle().unwrap();
    assert_eq!(sent_puzzle, received_puzzle);
}

#[test]
fn test_transport_receive_eof() {
    let mut transport = Transport::new();
    transport.push_bytes_to_read(&[0u8; 3]);
    match transport.receive_state() {
        Err(TransportError::UnexpectedEof) => {}
        other => panic!("expected an eof error, got {:?}", other),
    }
}

#[test]
fn test_transport_receive_malformed_state() {
    let mut transport = Transport::new();
    transport.push_bytes_to_read(&[9, 9, 9, 9]);
    match transport.receive_state() {
        Err(TransportError::MalformedMessage) => {}
        other => panic!("expected a malformed-message error, got {:?}", other),
    }
}

#[test]
fn test_state_codec() {
    assert_eq!(encode_state(&SolutionState::ACCEPTED), vec![0, 0, 0, 0]);
    assert_eq!(encode_state(&SolutionState::REJECTED), vec![1, 0, 0, 0]);
    assert_eq!(decode_state(&[0, 0, 0, 0]), Some(SolutionState::ACCEPTED));
    assert_eq!(decode_state(&[1, 0, 0, 0]), Some(SolutionState::REJECTED));
    assert_eq!(decode_state(&[2, 0, 0, 0]), None);
    assert_eq!(decode_state(&[0, 0, 0, 1]), None);
    assert_eq!(decode_state(&[0, 0, 0]), None);
}

#[test]
fn test_puzzle_codec_round_trip() {
    let p = Puzzle::new(9);
    let bytes = encode_puzzle(&p);
    assert_eq!(bytes.len(), PUZZLE_MSG_SIZE);
    assert_eq!(bytes[0], 9);
    assert_eq!(decode_puzzle(&bytes), Some(p));
    assert_eq!(decode_puzzle(&bytes[..PUZZLE_MSG_SIZE - 1]), None);
}

#[test]
fn test_solution_codec_round_trip() {
    let s = PuzzleSolution::new([3u8; 16]);
    let bytes = encode_solution(&s);
    assert_eq!(bytes, vec![3u8; 16]);
    assert_eq!(decode_solution(&bytes), Some(s));
    assert_eq!(decode_solution(&bytes[..15]), None);
}

#[test]
fn test_quote_size_codec() {
    let qs = QuoteSize::new(258);
    let bytes = encode_quote_size(&qs);
    assert_eq!(bytes, vec![2, 1, 0, 0, 0, 0, 0, 0]);
    assert_eq!(decode_quote_size(&bytes).unwrap().size(), 258);
    assert_eq!(decode_quote_size(&bytes[..7]).map(|q| q.size()), None);
}

#[test]
fn test_quote_codec() {
    let q = WordOfWisdomQuote::new("caf\u{e9}");
    let bytes = encode_quote(&q);
    assert_eq!(bytes, "caf\u{e9}".as_bytes().to_vec());
    assert_eq!(decode_quote(&bytes).unwrap().as_str(), "caf\u{e9}");
    assert!(decode_quote(&[0xff, 0xfe]).is_none());
}

#[test]
fn test_quote_payload_round_trip() {
    let q = WordOfWisdomQuote::new("hello, world");
    let mut payload = encode_quote_payload(&q);
    assert_eq!(payload.len(), QUOTE_SIZE_MSG_SIZE + 12);
    assert_eq!(
        decode_quote_payload(payload.clone()).unwrap().as_str(),
        "hello, world"
    );

    // trailing bytes after the counted ones are ignored
    payload.push(0xff);
    assert_eq!(
        decode_quote_payload(payload).unwrap().as_str(),
        "hello, world"
    );

    // an inner count larger than what follows is refused
    let mut short = encode_quote_payload(&q);
    short[0] = 200;
    assert!(decode_quote_payload(short).is_none());
}

#[test]
fn test_empty_quote_round_trip() {
    let q = WordOfWisdomQuote::new("");
    let payload = encode_quote_payload(&q);
    assert_eq!(payload, vec![0u8; QUOTE_SIZE_MSG_SIZE]);
    assert_eq!(decode_quote_payload(payload).unwrap().as_str(), "");
}

#[test]
fn test_transport_loopback() {
    let mut sender = Transport::new();
    let puzzle = Puzzle::new(7);
    let solution = PuzzleSolution::new([5u8; 16]);
    sender.send(&Message::Puzzle(puzzle)).unwrap();
    sender.send(&Message::Solution(solution)).unwrap();
    sender.send(&Message::State(SolutionState::REJECTED)).unwrap();
    sender
        .send_with_varsize(&WordOfWisdomQuote::new("forty-two"))
        .unwrap();

    let mut receiver = Transport::new();
    receiver.push_bytes_to_read(&sender.pop_bytes_written());
    assert_eq!(receiver.receive_puzzle().unwrap(), puzzle);
    assert_eq!(receiver.receive_solution().unwrap(), solution);
    assert_eq!(receiver.receive_state().unwrap(), SolutionState::REJECTED);
    let size = receiver.receive_quote_size().unwrap();
    let quote = receiver.receive_quote(size.size()).unwrap();
    assert_eq!(quote.as_str(), "forty-two");
}
