//! Wire-level data types of the puzzle protocol and their fixed binary
//! encodings.
//!
//! Every message has a statically known size except the quote payload, which
//! travels behind an explicit 8-byte length prefix. Both peers must agree on
//! these widths byte for byte; the spec functions here are that agreement.

use vstd::prelude::*;
use vstd::bytes::{spec_u64_to_le_bytes, spec_u64_from_le_bytes, u64_to_le_bytes, u64_from_le_bytes};
use vstd::bytes::lemma_auto_spec_u64_to_from_le_bytes;
use vstd::string::{StrSliceExecFns, StringExecFns};
use vstd::utf8::{valid_utf8, decode_utf8, encode_utf8};
use vstd::utf8::{encode_utf8_valid_utf8, encode_utf8_decode_utf8, decode_utf8_encode_utf8};

verus! {

/// Number of random bytes in a puzzle.
pub const PUZZLE_SIZE: usize = 16;

/// Number of bytes in a candidate solution.
pub const SOLUTION_SIZE: usize = 16;

/// Encoded size of a `SolutionState` verdict.
pub const SOLUTION_STATE_SIZE: usize = 4;

/// Encoded size of a whole puzzle message: complexity byte plus value bytes.
pub const PUZZLE_MSG_SIZE: usize = 17;

/// Encoded size of the length prefix that precedes a quote payload.
pub const QUOTE_SIZE_MSG_SIZE: usize = 8;

/// A challenge issued by the server: a difficulty plus fresh random bytes.
#[derive(Clone, Copy, PartialEq, Eq, Debug)]
pub struct Puzzle {
    /// Required number of leading zero nibbles in the digest.
    pub complexity: u8,
    /// Random bytes, drawn fresh for every connection.
    pub value: [u8; 16],
}

impl Puzzle {
    /// Creates a fresh challenge of the given difficulty, its value drawn
    /// from the process-wide random source. Always succeeds; the value is
    /// never reused across puzzles except by chance.
    pub fn new(complexity: u8) -> (r: Self)
        ensures
            r.complexity == complexity,
    {
        let value = crate::rng::random_bytes_16();
        Puzzle { complexity, value }
    }
}

impl Default for Puzzle {
    /// A fresh challenge at the default difficulty.
    fn default() -> (r: Self)
        ensures
            r.complexity == crate::DEFAULT_COMPLEXITY,
    {
        Self::new(crate::DEFAULT_COMPLEXITY)
    }
}

/// The encoding of a puzzle: the complexity byte followed by the 16 value
/// bytes.
pub open spec fn spec_puzzle_bytes(p: Puzzle) -> Seq<u8> {
    seq![p.complexity] + p.value@
}

/// True when `b` is exactly the encoding of the puzzle `p`.
pub open spec fn puzzle_parses_to(b: Seq<u8>, p: Puzzle) -> bool {
    &&& b.len() == PUZZLE_MSG_SIZE
    &&& p.complexity == b[0]
    &&& p.value@ == b.skip(1)
}

/// Serializes a puzzle to its fixed 17-byte wire form.
pub fn encode_puzzle(p: &Puzzle) -> (r: Vec<u8>)
    ensures
        r@ == spec_puzzle_bytes(*p),
{
    let mut out: Vec<u8> = Vec::new();
    out.push(p.complexity);
    let mut i: usize = 0;
    while i < PUZZLE_SIZE
        invariant
            i <= PUZZLE_SIZE,
            out@.len() == 1 + i,
            out@[0] == p.complexity,
            forall|j: int| 0 <= j < i ==> out@[j + 1] == p.value@[j],
        decreases PUZZLE_SIZE - i,
    {
        out.push(p.value[i]);
        i += 1;
    }
    proof {
        assert(out@ =~= spec_puzzle_bytes(*p));
    }
    out
}

/// Parses a 17-byte wire form back into a puzzle; any 17 bytes are a valid
/// encoding, anything else is rejected.
pub fn decode_puzzle(bytes: &[u8]) -> (r: Option<Puzzle>)
    ensures
        r is Some <==> bytes@.len() == PUZZLE_MSG_SIZE,
        r matches Some(p) ==> puzzle_parses_to(bytes@, p),
{
    if bytes.len() != PUZZLE_MSG_SIZE {
        return None;
    }
    let mut value: [u8; 16] = [0u8; 16];
    let mut i: usize = 0;
    while i < PUZZLE_SIZE
        invariant
            i <= PUZZLE_SIZE,
            bytes@.len() == PUZZLE_MSG_SIZE,
            forall|j: int| 0 <= j < i ==> value@[j] == bytes@[j + 1],
        decreases PUZZLE_SIZE - i,
    {
        value[i] = bytes[i + 1];
        i += 1;
    }
    let p = Puzzle { complexity: bytes[0], value };
    proof {
        assert(p.value@ =~= bytes@.skip(1));
    }
    Some(p)
}

/// A candidate solution: 16 bytes chosen by the client.
#[derive(Clone, Copy, PartialEq, Eq, Debug)]
pub struct PuzzleSolution([u8; 16]);

impl View for PuzzleSolution {
    type V = Seq<u8>;

    closed spec fn view(&self) -> Seq<u8> {
        self.0@
    }
}

impl PuzzleSolution {
    /// Wraps 16 raw bytes as a solution.
    pub fn new(s: [u8; 16]) -> (r: Self)
        ensures
            r@ == s@,
    {
        Self(s)
    }

    /// The 16 raw bytes of the solution.
    pub fn as_bytes(&self) -> (r: [u8; 16])
        ensures
            r@ == self@,
    {
        self.0
    }
}

/// Serializes a solution to its fixed 16-byte wire form.
pub fn encode_solution(s: &PuzzleSolution) -> (r: Vec<u8>)
    ensures
        r@ == s@,
{
    let bytes = s.as_bytes();
    let mut out: Vec<u8> = Vec::new();
    let mut i: usize = 0;
    while i < SOLUTION_SIZE
        invariant
            i <= SOLUTION_SIZE,
            out@.len() == i,
            forall|j: int| 0 <= j < i ==> out@[j] == bytes@[j],
            bytes@ == s@,
        decreases SOLUTION_SIZE - i,
    {
        out.push(bytes[i]);
        i += 1;
    }
    proof {
        assert(out@ =~= s@);
    }
    out
}

/// Parses a 16-byte wire form into a solution; any 16 bytes are valid.
pub fn decode_solution(bytes: &[u8]) -> (r: Option<PuzzleSolution>)
    ensures
        r is Some <==> bytes@.len() == SOLUTION_SIZE,
        r matches Some(s) ==> s@ == bytes@,
{
    if bytes.len() != SOLUTION_SIZE {
        return None;
    }
    let mut value: [u8; 16] = [0u8; 16];
    let mut i: usize = 0;
    while i < SOLUTION_SIZE
        invariant
            i <= SOLUTION_SIZE,
            bytes@.len() == SOLUTION_SIZE,
            forall|j: int| 0 <= j < i ==> value@[j] == bytes@[j],
        decreases SOLUTION_SIZE - i,
    {
        value[i] = bytes[i];
        i += 1;
    }
    let s = PuzzleSolution::new(value);
    proof {
        assert(s@ =~= bytes@);
    }
    Some(s)
}

/// The server's verdict on a received solution.
#[allow(non_camel_case_types)]
#[derive(Clone, Copy, PartialEq, Eq, Debug)]
pub enum SolutionState {
    ACCEPTED,
    REJECTED,
}

/// How a verdict travels on the wire: a tag byte, 0 when accepted and 1
/// when rejected, then three zero bytes.
pub open spec fn spec_state_bytes(s: SolutionState) -> Seq<u8> {
    match s {
        SolutionState::ACCEPTED => seq![0u8, 0u8, 0u8, 0u8],
        SolutionState::REJECTED => seq![1u8, 0u8, 0u8, 0u8],
    }
}

/// The verdict a 4-byte sequence stands for, if any.
pub open spec fn spec_parse_state(b: Seq<u8>) -> Option<SolutionState> {
    if b == spec_state_bytes(SolutionState::ACCEPTED) {
        Some(SolutionState::ACCEPTED)
    } else if b == spec_state_bytes(SolutionState::REJECTED) {
        Some(SolutionState::REJECTED)
    } else {
        None
    }
}

/// Serializes a verdict to its fixed 4-byte wire form.
pub fn encode_state(s: &SolutionState) -> (r: Vec<u8>)
    ensures
        r@ == spec_state_bytes(*s),
{
    let tag: u8 = match s {
        SolutionState::ACCEPTED => 0,
        SolutionState::REJECTED => 1,
    };
    let mut out: Vec<u8> = Vec::new();
    out.push(tag);
    out.push(0);
    out.push(0);
    out.push(0);
    proof {
        assert(out@ =~= spec_state_bytes(*s));
    }
    out
}

/// Parses a 4-byte wire form into a verdict; only the two known tags are
/// accepted.
pub fn decode_state(bytes: &[u8]) -> (r: Option<SolutionState>)
    ensures
        bytes@.len() == SOLUTION_STATE_SIZE ==> r == spec_parse_state(bytes@),
        bytes@.len() != SOLUTION_STATE_SIZE ==> r is None,
{
    if bytes.len() != SOLUTION_STATE_SIZE {
        proof {
            assert(bytes@ != spec_state_bytes(SolutionState::ACCEPTED));
            assert(bytes@ != spec_state_bytes(SolutionState::REJECTED));
        }
        return None;
    }
    let r = if bytes[0] == 0 && bytes[1] == 0 && bytes[2] == 0 && bytes[3] == 0 {
        proof {
            assert(bytes@ =~= spec_state_bytes(SolutionState::ACCEPTED));
        }
        Some(SolutionState::ACCEPTED)
    } else if bytes[0] == 1 && bytes[1] == 0 && bytes[2] == 0 && bytes[3] == 0 {
        proof {
            assert(bytes@ =~= spec_state_bytes(SolutionState::REJECTED));
        }
        Some(SolutionState::REJECTED)
    } else {
        proof {
            if bytes@ == spec_state_bytes(SolutionState::ACCEPTED) {
                assert(bytes@[0] == 0 && bytes@[1] == 0 && bytes@[2] == 0 && bytes@[3] == 0);
            }
            if bytes@ == spec_state_bytes(SolutionState::REJECTED) {
                assert(bytes@[0] == 1 && bytes@[1] == 0 && bytes@[2] == 0 && bytes@[3] == 0);
            }
        }
        None
    };
    r
}

/// Round trip: a verdict's encoding parses back to exactly that verdict.
pub proof fn lemma_state_round_trip(s: SolutionState)
    ensures
        spec_parse_state(spec_state_bytes(s)) == Some(s),
{
    assert(spec_state_bytes(SolutionState::ACCEPTED) != spec_state_bytes(
        SolutionState::REJECTED,
    )) by {
        assert(spec_state_bytes(SolutionState::ACCEPTED)[0] == 0);
        assert(spec_state_bytes(SolutionState::REJECTED)[0] == 1);
    }
}

/// The byte length of a quote payload, announced ahead of the payload
/// itself.
#[derive(Clone, Copy, PartialEq, Eq, Debug)]
pub struct QuoteSize(usize);

impl QuoteSize {
    /// The announced byte count.
    pub closed spec fn spec_size(&self) -> usize {
        self.0
    }

    /// Wraps a byte count.
    pub fn new(s: usize) -> (r: Self)
        ensures
            r.spec_size() == s,
    {
        Self(s)
    }

    /// The announced byte count.
    pub fn size(&self) -> (r: usize)
        ensures
            r == self.spec_size(),
    {
        self.0
    }
}

/// The encoding of a payload length: 8 bytes, little endian.
pub open spec fn spec_quote_size_bytes(n: u64) -> Seq<u8> {
    spec_u64_to_le_bytes(n)
}

/// Serializes a payload length to its fixed 8-byte wire form.
pub fn encode_quote_size(q: &QuoteSize) -> (r: Vec<u8>)
    ensures
        r@ == spec_quote_size_bytes(q.spec_size() as u64),
{
    u64_to_le_bytes(q.size() as u64)
}

/// Parses an 8-byte wire form into a payload length. Fails when the input is
/// not 8 bytes long or the announced count does not fit this machine's
/// `usize`.
pub fn decode_quote_size(bytes: &[u8]) -> (r: Option<QuoteSize>)
    ensures
        r matches Some(q)
            ==> bytes@.len() == QUOTE_SIZE_MSG_SIZE
                && q.spec_size() as u64 == spec_u64_from_le_bytes(bytes@),
        bytes@.len() == QUOTE_SIZE_MSG_SIZE && spec_u64_from_le_bytes(bytes@) <= usize::MAX
            ==> r is Some,
        r is None
            ==> bytes@.len() != QUOTE_SIZE_MSG_SIZE || spec_u64_from_le_bytes(bytes@) > usize::MAX,
{
    if bytes.len() != QUOTE_SIZE_MSG_SIZE {
        return None;
    }
    let v = u64_from_le_bytes(bytes);
    if v > usize::MAX as u64 {
        None
    } else {
        Some(QuoteSize::new(v as usize))
    }
}

/// Round trip: a payload length's encoding parses back to the same count.
pub proof fn lemma_quote_size_round_trip(n: u64)
    ensures
        spec_quote_size_bytes(n).len() == QUOTE_SIZE_MSG_SIZE,
        spec_u64_from_le_bytes(spec_quote_size_bytes(n)) == n,
{
    lemma_auto_spec_u64_to_from_le_bytes();
}

/// The text a successful exchange delivers.
#[derive(PartialEq, Eq, Debug)]
pub struct WordOfWisdomQuote(String);

impl View for WordOfWisdomQuote {
    type V = Seq<char>;

    closed spec fn view(&self) -> Seq<char> {
        self.0@
    }
}

impl WordOfWisdomQuote {
    /// Wraps a phrase as a quote.
    pub fn new(s: &str) -> (r: Self)
        ensures
            r@ == s@,
    {
        Self(String::from_str(s))
    }

    /// The phrase itself.
    pub fn as_str(&self) -> (r: &str)
        ensures
            r@ == self@,
    {
        self.0.as_str()
    }
}

/// The payload bytes of a quote: its UTF-8 encoding, with no framing of its
/// own.
pub open spec fn spec_quote_bytes(q: Seq<char>) -> Seq<u8> {
    encode_utf8(q)
}

/// The serialized form of a quote: its UTF-8 byte count, then its UTF-8
/// bytes.
pub open spec fn spec_quote_payload_bytes(q: Seq<char>) -> Seq<u8> {
    spec_quote_size_bytes(encode_utf8(q).len() as u64) + encode_utf8(q)
}

/// A full variable-size quote message: the payload's byte count, then the
/// payload itself (which carries its own inner count).
pub open spec fn spec_quote_msg_bytes(q: Seq<char>) -> Seq<u8> {
    spec_quote_size_bytes(spec_quote_payload_bytes(q).len() as u64) + spec_quote_payload_bytes(q)
}

/// The quote a serialized payload stands for, if any: the inner count must
/// fit the remaining bytes, and the counted bytes must be valid UTF-8.
/// Bytes after the counted ones are ignored.
pub open spec fn spec_parse_quote_payload(b: Seq<u8>) -> Option<Seq<char>> {
    if b.len() < QUOTE_SIZE_MSG_SIZE {
        None
    } else {
        let m = spec_u64_from_le_bytes(b.take(QUOTE_SIZE_MSG_SIZE as int)) as int;
        if m > b.len() - QUOTE_SIZE_MSG_SIZE {
            None
        } else if !valid_utf8(b.subrange(QUOTE_SIZE_MSG_SIZE as int, QUOTE_SIZE_MSG_SIZE + m)) {
            None
        } else {
            Some(decode_utf8(b.subrange(QUOTE_SIZE_MSG_SIZE as int, QUOTE_SIZE_MSG_SIZE + m)))
        }
    }
}

/// Relies on `String::from_utf8`: it succeeds exactly on valid UTF-8 input
/// and returns the string whose characters those bytes encode.
#[verifier::external_body]
pub(crate) fn string_from_utf8(bytes: &[u8]) -> (r: Option<String>)
    ensures
        r is Some <==> valid_utf8(bytes@),
        r matches Some(s) ==> s@ == decode_utf8(bytes@),
{
    String::from_utf8(bytes.to_vec()).ok()
}

/// Serializes a quote to its payload bytes.
pub fn encode_quote(q: &WordOfWisdomQuote) -> (r: Vec<u8>)
    ensures
        r@ == spec_quote_bytes(q@),
{
    q.as_str().as_bytes_vec()
}

/// Parses payload bytes back into a quote; exactly the valid UTF-8 inputs
/// are accepted, and an accepted input is reproduced by `encode_quote`.
pub fn decode_quote(bytes: &[u8]) -> (r: Option<WordOfWisdomQuote>)
    ensures
        r is Some <==> valid_utf8(bytes@),
        r matches Some(q) ==> q@ == decode_utf8(bytes@) && spec_quote_bytes(q@) == bytes@,
{
    let ghost bytes_view = bytes@;
    match string_from_utf8(bytes) {
        Some(s) => {
            proof {
                decode_utf8_encode_utf8(bytes_view);
            }
            Some(WordOfWisdomQuote(s))
        },
        None => None,
    }
}

/// Round trip: a quote's UTF-8 bytes are valid UTF-8 and decode back to the
/// same characters.
pub proof fn lemma_quote_round_trip(q: Seq<char>)
    ensures
        valid_utf8(spec_quote_bytes(q)),
        decode_utf8(spec_quote_bytes(q)) == q,
{
    encode_utf8_valid_utf8(q);
    encode_utf8_decode_utf8(q);
}

/// Serializes a quote to its payload form: inner byte count, then UTF-8
/// bytes.
pub fn encode_quote_payload(q: &WordOfWisdomQuote) -> (r: Vec<u8>)
    ensures
        r@ == spec_quote_payload_bytes(q@),
{
    let mut bytes = encode_quote(q);
    let mut out = encode_quote_size(&QuoteSize::new(bytes.len()));
    out.append(&mut bytes);
    out
}

/// Parses a serialized payload back into a quote, accepting exactly what
/// `spec_parse_quote_payload` accepts.
pub fn decode_quote_payload(bytes: Vec<u8>) -> (r: Option<WordOfWisdomQuote>)
    ensures
        r is Some <==> spec_parse_quote_payload(bytes@) is Some,
        r matches Some(q) ==> spec_parse_quote_payload(bytes@) == Some(q@),
{
    let ghost b = bytes@;
    let mut head = bytes;
    if head.len() < QUOTE_SIZE_MSG_SIZE {
        return None;
    }
    let mut rest = head.split_off(QUOTE_SIZE_MSG_SIZE);
    proof {
        assert(head@ =~= b.take(QUOTE_SIZE_MSG_SIZE as int));
        assert(rest@ =~= b.skip(QUOTE_SIZE_MSG_SIZE as int));
    }
    let qs = match decode_quote_size(head.as_slice()) {
        Some(qs) => qs,
        None => {
            // The announced count exceeds this machine's `usize`, so it
            // certainly exceeds the bytes that follow.
            return None;
        },
    };
    let m = qs.size();
    if m > rest.len() {
        return None;
    }
    let _tail = rest.split_off(m);
    proof {
        assert(rest@ =~= b.subrange(
            QUOTE_SIZE_MSG_SIZE as int,
            QUOTE_SIZE_MSG_SIZE + spec_u64_from_le_bytes(b.take(QUOTE_SIZE_MSG_SIZE as int)) as int,
        ));
    }
    decode_quote(rest.as_slice())
}

/// Round trip: a quote's serialized payload parses back to the same
/// characters.
pub proof fn lemma_quote_payload_round_trip(q: Seq<char>)
    requires
        encode_utf8(q).len() <= u64::MAX,
    ensures
        spec_quote_payload_bytes(q).len() == QUOTE_SIZE_MSG_SIZE + encode_utf8(q).len(),
        spec_parse_quote_payload(spec_quote_payload_bytes(q)) == Some(q),
{
    lemma_auto_spec_u64_to_from_le_bytes();
    let n = encode_utf8(q).len() as int;
    let b = spec_quote_payload_bytes(q);
    assert(b.take(QUOTE_SIZE_MSG_SIZE as int) =~= spec_u64_to_le_bytes(encode_utf8(q).len() as u64));
    assert(b.subrange(QUOTE_SIZE_MSG_SIZE as int, QUOTE_SIZE_MSG_SIZE + n) =~= encode_utf8(q));
    encode_utf8_valid_utf8(q);
    encode_utf8_decode_utf8(q);
}

/// Shape of a full variable-size quote message: an outer count announcing
/// the payload's length, then a payload that parses back to the quote.
pub proof fn lemma_quote_msg_structure(q: Seq<char>)
    requires
        QUOTE_SIZE_MSG_SIZE + encode_utf8(q).len() <= u64::MAX,
    ensures
        ({
            let msg = spec_quote_msg_bytes(q);
            let payload = spec_quote_payload_bytes(q);
            &&& msg.len() == QUOTE_SIZE_MSG_SIZE + payload.len()
            &&& spec_u64_from_le_bytes(msg.take(QUOTE_SIZE_MSG_SIZE as int)) == payload.len()
            &&& msg.skip(QUOTE_SIZE_MSG_SIZE as int) == payload
            &&& spec_parse_quote_payload(payload) == Some(q)
        }),
{
    lemma_auto_spec_u64_to_from_le_bytes();
    lemma_quote_payload_round_trip(q);
    let msg = spec_quote_msg_bytes(q);
    let payload = spec_quote_payload_bytes(q);
    assert(msg.take(QUOTE_SIZE_MSG_SIZE as int) =~= spec_u64_to_le_bytes(payload.len() as u64));
    assert(msg.skip(QUOTE_SIZE_MSG_SIZE as int) =~= payload);
}

/// Round trip: a puzzle's encoding parses back to exactly that puzzle, and
/// no two distinct puzzles share an encoding.
pub proof fn lemma_puzzle_round_trip(p: Puzzle, q: Puzzle)
    ensures
        puzzle_parses_to(spec_puzzle_bytes(p), p),
        puzzle_parses_to(spec_puzzle_bytes(p), q) ==> q == p,
{
    assert(spec_puzzle_bytes(p).skip(1) =~= p.value@);
    if puzzle_parses_to(spec_puzzle_bytes(p), q) {
        assert(q.value@ =~= p.value@);
        assert(q.value =~= p.value);
    }
}

} // verus!
