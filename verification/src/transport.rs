//! Framing endpoint for the protocol's typed messages.
//!
//! A `Transport` is pure data: the bytes queued for reading and the bytes
//! written so far. Code that owns a real stream moves whole byte chunks in
//! and out; everything both peers must agree on — widths, encodings, the
//! order of fields — lives here and in `proto`.

use vstd::prelude::*;
use vstd::bytes::spec_u64_from_le_bytes;

use crate::proto::{Puzzle, PuzzleSolution, SolutionState, QuoteSize, WordOfWisdomQuote};
use crate::proto::{
    spec_puzzle_bytes, puzzle_parses_to, spec_state_bytes, spec_parse_state,
    spec_quote_msg_bytes, spec_parse_quote_payload,
};
use crate::proto::{
    encode_puzzle, decode_puzzle, encode_solution, decode_solution, encode_state, decode_state,
    encode_quote_size, decode_quote_size, encode_quote_payload, decode_quote_payload,
};
use crate::proto::{PUZZLE_MSG_SIZE, SOLUTION_SIZE, SOLUTION_STATE_SIZE, QUOTE_SIZE_MSG_SIZE};

verus! {

/// The fixed-size messages of the protocol.
#[derive(Clone, Copy, PartialEq, Eq, Debug)]
pub enum Message {
    Puzzle(Puzzle),
    Solution(PuzzleSolution),
    State(SolutionState),
}

/// The wire form of a fixed-size message.
pub open spec fn spec_message_bytes(m: Message) -> Seq<u8> {
    match m {
        Message::Puzzle(p) => spec_puzzle_bytes(p),
        Message::Solution(s) => s@,
        Message::State(st) => spec_state_bytes(st),
    }
}

/// Why an exchange over a transport failed.
#[derive(Clone, Copy, PartialEq, Eq, Debug)]
pub enum TransportError {
    /// The stream ended before the expected byte count arrived.
    UnexpectedEof,
    /// The expected bytes arrived but do not encode a value of the
    /// expected type.
    MalformedMessage,
}

/// One endpoint's view of a duplex byte stream: bytes available to read,
/// and bytes written so far.
pub struct Transport {
    incoming: Vec<u8>,
    outgoing: Vec<u8>,
}

impl Transport {
    /// Bytes queued for reading, oldest first.
    pub closed spec fn spec_incoming(&self) -> Seq<u8> {
        self.incoming@
    }

    /// Bytes written and not yet handed to the stream.
    pub closed spec fn spec_written(&self) -> Seq<u8> {
        self.outgoing@
    }

    /// An endpoint with nothing to read and nothing written.
    pub fn new() -> (r: Self)
        ensures
            r.spec_incoming() == Seq::<u8>::empty(),
            r.spec_written() == Seq::<u8>::empty(),
    {
        Transport { incoming: Vec::new(), outgoing: Vec::new() }
    }

    /// Queues bytes read from the stream behind whatever is already queued.
    pub fn push_bytes_to_read(&mut self, bytes: &[u8])
        ensures
            final(self).spec_incoming() == old(self).spec_incoming() + bytes@,
            final(self).spec_written() == old(self).spec_written(),
    {
        let mut i: usize = 0;
        let n = bytes.len();
        while i < n
            invariant
                i <= n,
                n == bytes@.len(),
                self.incoming@ == old(self).incoming@ + bytes@.take(i as int),
                self.outgoing@ == old(self).outgoing@,
            decreases n - i,
        {
            self.incoming.push(bytes[i]);
            proof {
                assert(self.incoming@ =~= old(self).incoming@ + bytes@.take(i + 1));
            }
            i += 1;
        }
        proof {
            assert(self.incoming@ =~= old(self).incoming@ + bytes@);
        }
    }

    /// Hands over everything written so far, leaving the write side empty.
    pub fn pop_bytes_written(&mut self) -> (r: Vec<u8>)
        ensures
            r@ == old(self).spec_written(),
            final(self).spec_written() == Seq::<u8>::empty(),
            final(self).spec_incoming() == old(self).spec_incoming(),
    {
        let mut taken: Vec<u8> = Vec::new();
        core::mem::swap(&mut self.outgoing, &mut taken);
        taken
    }

    /// Writes a fixed-size message: exactly its wire form, nothing more.
    pub fn send(&mut self, value: &Message) -> (r: Result<(), TransportError>)
        ensures
            r is Ok,
            final(self).spec_written() == old(self).spec_written() + spec_message_bytes(*value),
            final(self).spec_incoming() == old(self).spec_incoming(),
    {
        let mut bytes = match value {
            Message::Puzzle(p) => encode_puzzle(p),
            Message::Solution(s) => encode_solution(s),
            Message::State(st) => encode_state(st),
        };
        self.outgoing.append(&mut bytes);
        Ok(())
    }

    /// Writes a quote as a variable-size message: the payload's byte count,
    /// then the payload.
    pub fn send_with_varsize(&mut self, value: &WordOfWisdomQuote) -> (r: Result<
        (),
        TransportError,
    >)
        ensures
            r is Ok,
            final(self).spec_written() == old(self).spec_written() + spec_quote_msg_bytes(value@),
            final(self).spec_incoming() == old(self).spec_incoming(),
    {
        let mut payload = encode_quote_payload(value);
        let mut outer = encode_quote_size(&QuoteSize::new(payload.len()));
        self.outgoing.append(&mut outer);
        self.outgoing.append(&mut payload);
        proof {
            assert(final(self).outgoing@ =~= old(self).outgoing@ + spec_quote_msg_bytes(value@));
        }
        Ok(())
    }

    /// Reads exactly `size` bytes, or fails without consuming anything when
    /// fewer are queued.
    pub fn receive(&mut self, size: usize) -> (r: Result<Vec<u8>, TransportError>)
        ensures
            final(self).spec_written() == old(self).spec_written(),
            old(self).spec_incoming().len() >= size ==> (r matches Ok(b) && b@ == old(
                self,
            ).spec_incoming().take(size as int)) && final(self).spec_incoming() == old(
                self,
            ).spec_incoming().skip(size as int),
            old(self).spec_incoming().len() < size ==> r == Err::<Vec<u8>, TransportError>(
                TransportError::UnexpectedEof,
            ) && final(self).spec_incoming() == old(self).spec_incoming(),
    {
        if self.incoming.len() < size {
            return Err(TransportError::UnexpectedEof);
        }
        let mut head = self.incoming.split_off(size);
        core::mem::swap(&mut self.incoming, &mut head);
        Ok(head)
    }

    /// Reads and parses one puzzle message.
    pub fn receive_puzzle(&mut self) -> (r: Result<Puzzle, TransportError>)
        ensures
            final(self).spec_written() == old(self).spec_written(),
            old(self).spec_incoming().len() >= PUZZLE_MSG_SIZE ==> (r matches Ok(p)
                && puzzle_parses_to(old(self).spec_incoming().take(PUZZLE_MSG_SIZE as int), p))
                && final(self).spec_incoming() == old(self).spec_incoming().skip(
                PUZZLE_MSG_SIZE as int,
            ),
            old(self).spec_incoming().len() < PUZZLE_MSG_SIZE ==> r == Err::<
                Puzzle,
                TransportError,
            >(TransportError::UnexpectedEof) && final(self).spec_incoming() == old(
                self,
            ).spec_incoming(),
    {
        let buf = self.receive(PUZZLE_MSG_SIZE)?;
        match decode_puzzle(buf.as_slice()) {
            Some(p) => Ok(p),
            None => Err(TransportError::MalformedMessage),
        }
    }

    /// Reads and parses one solution message.
    pub fn receive_solution(&mut self) -> (r: Result<PuzzleSolution, TransportError>)
        ensures
            final(self).spec_written() == old(self).spec_written(),
            old(self).spec_incoming().len() >= SOLUTION_SIZE ==> (r matches Ok(s) && s@ == old(
                self,
            ).spec_incoming().take(SOLUTION_SIZE as int)) && final(self).spec_incoming() == old(
                self,
            ).spec_incoming().skip(SOLUTION_SIZE as int),
            old(self).spec_incoming().len() < SOLUTION_SIZE ==> r == Err::<
                PuzzleSolution,
                TransportError,
            >(TransportError::UnexpectedEof) && final(self).spec_incoming() == old(
                self,
            ).spec_incoming(),
    {
        let buf = self.receive(SOLUTION_SIZE)?;
        match decode_solution(buf.as_slice()) {
            Some(s) => Ok(s),
            None => Err(TransportError::MalformedMessage),
        }
    }

    /// Reads and parses one verdict message. The bytes are consumed even
    /// when they are not a known verdict; that case fails as malformed.
    pub fn receive_state(&mut self) -> (r: Result<SolutionState, TransportError>)
        ensures
            final(self).spec_written() == old(self).spec_written(),
            old(self).spec_incoming().len() >= SOLUTION_STATE_SIZE ==> final(self).spec_incoming()
                == old(self).spec_incoming().skip(SOLUTION_STATE_SIZE as int) && (match spec_parse_state(
                old(self).spec_incoming().take(SOLUTION_STATE_SIZE as int),
            ) {
                Some(st) => r == Ok::<SolutionState, TransportError>(st),
                None => r == Err::<SolutionState, TransportError>(
                    TransportError::MalformedMessage,
                ),
            }),
            old(self).spec_incoming().len() < SOLUTION_STATE_SIZE ==> r == Err::<
                SolutionState,
                TransportError,
            >(TransportError::UnexpectedEof) && final(self).spec_incoming() == old(
                self,
            ).spec_incoming(),
    {
        let buf = self.receive(SOLUTION_STATE_SIZE)?;
        match decode_state(buf.as_slice()) {
            Some(st) => Ok(st),
            None => Err(TransportError::MalformedMessage),
        }
    }

    /// Reads and parses one payload-length message. A count too large for
    /// this machine's `usize` fails as malformed.
    pub fn receive_quote_size(&mut self) -> (r: Result<QuoteSize, TransportError>)
        ensures
            final(self).spec_written() == old(self).spec_written(),
            old(self).spec_incoming().len() >= QUOTE_SIZE_MSG_SIZE ==> final(self).spec_incoming()
                == old(self).spec_incoming().skip(QUOTE_SIZE_MSG_SIZE as int) && ({
                let announced = spec_u64_from_le_bytes(
                    old(self).spec_incoming().take(QUOTE_SIZE_MSG_SIZE as int),
                );
                &&& announced <= usize::MAX ==> (r matches Ok(qs) && qs.spec_size() == announced)
                &&& announced > usize::MAX ==> r == Err::<QuoteSize, TransportError>(
                    TransportError::MalformedMessage,
                )
            }),
            old(self).spec_incoming().len() < QUOTE_SIZE_MSG_SIZE ==> r == Err::<
                QuoteSize,
                TransportError,
            >(TransportError::UnexpectedEof) && final(self).spec_incoming() == old(
                self,
            ).spec_incoming(),
    {
        let buf = self.receive(QUOTE_SIZE_MSG_SIZE)?;
        match decode_quote_size(buf.as_slice()) {
            Some(qs) => Ok(qs),
            None => Err(TransportError::MalformedMessage),
        }
    }

    /// Reads `size` bytes and parses them as a quote payload.
    pub fn receive_quote(&mut self, size: usize) -> (r: Result<WordOfWisdomQuote, TransportError>)
        ensures
            final(self).spec_written() == old(self).spec_written(),
            old(self).spec_incoming().len() >= size ==> final(self).spec_incoming() == old(
                self,
            ).spec_incoming().skip(size as int) && (match spec_parse_quote_payload(
                old(self).spec_incoming().take(size as int),
            ) {
                Some(qv) => r matches Ok(q) && q@ == qv,
                None => r == Err::<WordOfWisdomQuote, TransportError>(
                    TransportError::MalformedMessage,
                ),
            }),
            old(self).spec_incoming().len() < size ==> r == Err::<
                WordOfWisdomQuote,
                TransportError,
            >(TransportError::UnexpectedEof) && final(self).spec_incoming() == old(
                self,
            ).spec_incoming(),
    {
        let buf = self.receive(size)?;
        match decode_quote_payload(buf) {
            Some(q) => Ok(q),
            None => Err(TransportError::MalformedMessage),
        }
    }
}

} // verus!
