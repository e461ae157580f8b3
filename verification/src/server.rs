//! The server: a pool of response phrases, a configured difficulty, and the
//! one-exchange-per-connection sequence over a transport.
//!
//! Each connection gets exactly one puzzle and one judged solution; after
//! the verdict (and, on acceptance, one randomly chosen response) the stream
//! is closed by the code that owns it.

use vstd::prelude::*;

use vstd::bytes::{spec_u64_to_le_bytes, spec_u64_from_le_bytes};
use vstd::utf8::{valid_utf8, decode_utf8};

use crate::proto::{Puzzle, SolutionState, WordOfWisdomQuote};
use crate::proto::{spec_puzzle_bytes, spec_state_bytes, spec_quote_msg_bytes};
use crate::proto::{spec_quote_payload_bytes, spec_parse_quote_payload, spec_parse_state};
use crate::proto::{puzzle_parses_to, lemma_puzzle_round_trip, lemma_state_round_trip};
use crate::proto::lemma_quote_msg_structure;
use crate::proto::{PUZZLE_MSG_SIZE, SOLUTION_STATE_SIZE, QUOTE_SIZE_MSG_SIZE};
use crate::pow::{PuzzleSolver, spec_valid_solution};
use crate::transport::{Transport, TransportError, Message};

verus! {

broadcast use vstd::seq_lib::lemma_seq_skip_index, vstd::seq_lib::lemma_seq_skip_len;

/// Why a server could not be constructed.
#[derive(Clone, Copy, PartialEq, Eq, Debug)]
pub enum ConfigError {
    /// The response pool was empty.
    EmptyResponses,
    /// A response phrase was not valid UTF-8.
    InvalidUtf8,
}

/// A byte the response loader strips from both ends of a phrase: space,
/// carriage return, line feed.
pub open spec fn is_trim_byte(b: u8) -> bool {
    b == 32 || b == 13 || b == 10
}

/// `s` with every leading and trailing space, carriage return and line feed
/// removed.
pub open spec fn spec_trim(s: Seq<u8>) -> Seq<u8>
    decreases s.len(),
{
    if s.len() == 0 {
        s
    } else if is_trim_byte(s[0]) {
        spec_trim(s.drop_first())
    } else if is_trim_byte(s.last()) {
        spec_trim(s.drop_last())
    } else {
        s
    }
}

/// The pieces of `s[start..]` delimited by blank lines (two consecutive
/// line feeds), scanning from position `cur`: the leftmost separator ends
/// the first piece.
pub open spec fn spec_split_from(s: Seq<u8>, start: int, cur: int) -> Seq<Seq<u8>>
    recommends
        0 <= start <= cur <= s.len(),
    decreases s.len() - cur,
{
    if cur < 0 || cur + 2 > s.len() {
        seq![s.subrange(start, s.len() as int)]
    } else if s[cur] == 10 && s[cur + 1] == 10 {
        seq![s.subrange(start, cur)] + spec_split_from(s, cur + 2, cur + 2)
    } else {
        spec_split_from(s, start, cur + 1)
    }
}

/// The pieces of `s` between blank lines; one piece (possibly empty) always
/// exists.
pub open spec fn spec_split_paragraphs(s: Seq<u8>) -> Seq<Seq<u8>> {
    spec_split_from(s, 0, 0)
}

/// A split always yields at least one piece.
proof fn lemma_split_from_nonempty(s: Seq<u8>, start: int, cur: int)
    ensures
        spec_split_from(s, start, cur).len() >= 1,
    decreases s.len() - cur,
{
    if cur < 0 || cur + 2 > s.len() {
    } else if s[cur] == 10 && s[cur + 1] == 10 {
        lemma_split_from_nonempty(s, cur + 2, cur + 2);
    } else {
        lemma_split_from_nonempty(s, start, cur + 1);
    }
}

/// Copies `text[from..to]` into an owned vector.
fn copy_range(text: &[u8], from: usize, to: usize) -> (r: Vec<u8>)
    requires
        from <= to <= text@.len(),
    ensures
        r@ == text@.subrange(from as int, to as int),
{
    let mut out: Vec<u8> = Vec::new();
    let mut i: usize = from;
    while i < to
        invariant
            from <= i <= to <= text@.len(),
            out@ == text@.subrange(from as int, i as int),
        decreases to - i,
    {
        out.push(text[i]);
        proof {
            assert(out@ =~= text@.subrange(from as int, i + 1));
        }
        i += 1;
    }
    out
}

/// Whether the loader strips this byte from the ends of a phrase.
fn is_trim_byte_exec(b: u8) -> (r: bool)
    ensures
        r == is_trim_byte(b),
{
    b == 32 || b == 13 || b == 10
}

/// Copies `text[from..to]` with its surrounding space, carriage returns and
/// line feeds removed.
fn trimmed_range(text: &[u8], from: usize, to: usize) -> (r: Vec<u8>)
    requires
        from <= to <= text@.len(),
    ensures
        r@ == spec_trim(text@.subrange(from as int, to as int)),
{
    let mut lo = from;
    let mut hi = to;
    while lo < hi && is_trim_byte_exec(text[lo])
        invariant
            from <= lo <= hi <= to <= text@.len(),
            hi == to,
            spec_trim(text@.subrange(from as int, to as int)) == spec_trim(
                text@.subrange(lo as int, hi as int),
            ),
        decreases hi - lo,
    {
        proof {
            assert(text@.subrange(lo as int, hi as int).drop_first() =~= text@.subrange(
                lo + 1,
                hi as int,
            ));
        }
        lo += 1;
    }
    while hi > lo && is_trim_byte_exec(text[hi - 1])
        invariant
            from <= lo <= hi <= to <= text@.len(),
            lo < hi ==> !is_trim_byte(text@[lo as int]),
            spec_trim(text@.subrange(from as int, to as int)) == spec_trim(
                text@.subrange(lo as int, hi as int),
            ),
        decreases hi - lo,
    {
        proof {
            assert(text@.subrange(lo as int, hi as int).drop_last() =~= text@.subrange(
                lo as int,
                hi - 1,
            ));
        }
        hi -= 1;
    }
    proof {
        assert(spec_trim(text@.subrange(lo as int, hi as int)) == text@.subrange(
            lo as int,
            hi as int,
        ));
    }
    copy_range(text, lo, hi)
}

/// Splits `text` on blank lines and trims each piece.
fn split_and_trim(text: &[u8]) -> (r: Vec<Vec<u8>>)
    ensures
        r@.len() == spec_split_paragraphs(text@).len(),
        forall|i: int|
            0 <= i < r@.len() ==> r@[i]@ == spec_trim(#[trigger] spec_split_paragraphs(text@)[i]),
{
    let n = text.len();
    let mut out: Vec<Vec<u8>> = Vec::new();
    let mut start: usize = 0;
    let mut cur: usize = 0;
    while n >= 2 && cur <= n - 2
        invariant
            0 <= start <= cur <= n,
            n == text@.len(),
            out@.len() <= spec_split_paragraphs(text@).len(),
            spec_split_paragraphs(text@).skip(out@.len() as int) == spec_split_from(
                text@,
                start as int,
                cur as int,
            ),
            forall|i: int|
                0 <= i < out@.len() ==> out@[i]@ == spec_trim(
                    #[trigger] spec_split_paragraphs(text@)[i],
                ),
        decreases n - cur,
    {
        if text[cur] == 10 && text[cur + 1] == 10 {
            let ghost prev = out@.len() as int;
            let ghost split = spec_split_paragraphs(text@);
            let ghost head = text@.subrange(start as int, cur as int);
            let ghost rest = spec_split_from(text@, cur + 2, cur + 2);
            proof {
                lemma_split_from_nonempty(text@, cur + 2, cur + 2);
                assert(spec_split_from(text@, start as int, cur as int) == seq![head] + rest);
                assert((seq![head] + rest)[0] == head);
                assert(split.skip(prev).len() == split.len() - prev);
                assert(prev < split.len());
                assert(split[prev] == split.skip(prev)[0]);
                assert(split.skip(prev + 1).len() == rest.len());
                assert forall|i: int| 0 <= i < rest.len() implies split.skip(prev + 1)[i]
                    == rest[i] by {
                    vstd::seq_lib::lemma_seq_skip_index(split, prev, i + 1);
                    assert(split.skip(prev)[i + 1] == rest[i]);
                }
                assert(split.skip(prev + 1) =~= rest);
            }
            let piece = trimmed_range(text, start, cur);
            out.push(piece);
            cur += 2;
            start = cur;
        } else {
            proof {
                assert(spec_split_from(text@, start as int, cur as int) == spec_split_from(
                    text@,
                    start as int,
                    cur + 1,
                ));
            }
            cur += 1;
        }
    }
    let ghost prev = out@.len() as int;
    let ghost split = spec_split_paragraphs(text@);
    let ghost tail = text@.subrange(start as int, n as int);
    proof {
        assert(spec_split_from(text@, start as int, cur as int) == seq![tail]);
        assert(split.skip(prev).len() == split.len() - prev);
        assert(prev < split.len());
        assert(split[prev] == split.skip(prev)[0]);
        assert(split.len() == prev + 1);
    }
    let piece = trimmed_range(text, start, n);
    out.push(piece);
    out
}

/// The byte sequences a server may write for one connection, given the
/// puzzle it posed and the solution bytes it received.
pub open spec fn spec_exchange_written(
    puzzle: Puzzle,
    solution: Seq<u8>,
    response: Seq<char>,
) -> Seq<u8> {
    if spec_valid_solution(puzzle.complexity, puzzle.value@, solution) {
        spec_puzzle_bytes(puzzle) + spec_state_bytes(SolutionState::ACCEPTED)
            + spec_quote_msg_bytes(response)
    } else {
        spec_puzzle_bytes(puzzle) + spec_state_bytes(SolutionState::REJECTED)
    }
}

/// Both peers agree on the wire: whatever a server writes for one exchange
/// parses back to the same puzzle, then the right verdict, and on
/// acceptance a length-announced payload that parses back to the very
/// response that was sent.
pub proof fn lemma_exchange_bytes_parse(p: Puzzle, solution: Seq<u8>, response: Seq<char>)
    requires
        vstd::utf8::encode_utf8(response).len() + QUOTE_SIZE_MSG_SIZE <= u64::MAX,
    ensures
        ({
            let w = spec_exchange_written(p, solution, response);
            let accepted = spec_valid_solution(p.complexity, p.value@, solution);
            &&& w.len() >= PUZZLE_MSG_SIZE + SOLUTION_STATE_SIZE
            &&& puzzle_parses_to(w.take(PUZZLE_MSG_SIZE as int), p)
            &&& spec_parse_state(
                w.subrange(
                    PUZZLE_MSG_SIZE as int,
                    PUZZLE_MSG_SIZE + SOLUTION_STATE_SIZE,
                ),
            ) == Some(
                if accepted {
                    SolutionState::ACCEPTED
                } else {
                    SolutionState::REJECTED
                },
            )
            &&& !accepted ==> w.len() == PUZZLE_MSG_SIZE + SOLUTION_STATE_SIZE
            &&& accepted ==> ({
                let after_verdict = w.skip(PUZZLE_MSG_SIZE + SOLUTION_STATE_SIZE);
                &&& after_verdict.len() >= QUOTE_SIZE_MSG_SIZE
                &&& spec_u64_from_le_bytes(after_verdict.take(QUOTE_SIZE_MSG_SIZE as int))
                    == after_verdict.len() - QUOTE_SIZE_MSG_SIZE
                &&& spec_parse_quote_payload(after_verdict.skip(QUOTE_SIZE_MSG_SIZE as int))
                    == Some(response)
            })
        }),
{
    let w = spec_exchange_written(p, solution, response);
    let accepted = spec_valid_solution(p.complexity, p.value@, solution);
    let verdict = if accepted {
        SolutionState::ACCEPTED
    } else {
        SolutionState::REJECTED
    };
    lemma_puzzle_round_trip(p, p);
    lemma_state_round_trip(verdict);
    assert(w.take(PUZZLE_MSG_SIZE as int) =~= spec_puzzle_bytes(p));
    assert(w.subrange(PUZZLE_MSG_SIZE as int, PUZZLE_MSG_SIZE + SOLUTION_STATE_SIZE)
        =~= spec_state_bytes(verdict));
    if accepted {
        lemma_quote_msg_structure(response);
        let msg = spec_quote_msg_bytes(response);
        let payload = spec_quote_payload_bytes(response);
        assert(w.skip(PUZZLE_MSG_SIZE + SOLUTION_STATE_SIZE) =~= msg);
        assert(msg.take(QUOTE_SIZE_MSG_SIZE as int) =~= spec_u64_to_le_bytes(
            payload.len() as u64,
        ));
        assert(msg.skip(QUOTE_SIZE_MSG_SIZE as int) =~= payload);
    }
}

/// A proof-of-work gated response server.
pub struct Server {
    responses: Vec<String>,
    puzzle_complexity: u8,
}

impl Server {
    /// The response pool, as character sequences.
    pub closed spec fn spec_responses(&self) -> Seq<Seq<char>> {
        self.responses.deep_view()
    }

    /// The difficulty posed to each connection.
    pub closed spec fn spec_complexity(&self) -> u8 {
        self.puzzle_complexity
    }

    /// Builds a server over a response pool at the default difficulty;
    /// fails exactly when the pool is empty.
    pub fn new_with_responses(responses: Vec<String>) -> (r: Result<Server, ConfigError>)
        ensures
            r is Err <==> responses@.len() == 0,
            r matches Err(e) ==> e == ConfigError::EmptyResponses,
            r matches Ok(s) ==> s.spec_responses() == responses.deep_view()
                && s.spec_complexity() == crate::DEFAULT_COMPLEXITY,
    {
        if responses.is_empty() {
            return Err(ConfigError::EmptyResponses);
        }
        Ok(Server { responses, puzzle_complexity: crate::DEFAULT_COMPLEXITY })
    }

    /// Builds a server from the raw bytes of a response file: the text is
    /// split on blank lines, each piece is trimmed of surrounding spaces,
    /// carriage returns and line feeds, and every trimmed piece must be
    /// valid UTF-8. Even empty text yields one (empty) phrase, so the pool
    /// is never empty.
    pub fn new_from_bytes(text: &[u8]) -> (r: Result<Server, ConfigError>)
        ensures
            r matches Ok(s) ==> ({
                let pieces = spec_split_paragraphs(text@);
                &&& s.spec_responses().len() == pieces.len()
                &&& forall|i: int|
                    0 <= i < pieces.len() ==> valid_utf8(spec_trim(#[trigger] pieces[i]))
                        && s.spec_responses()[i] == decode_utf8(spec_trim(pieces[i]))
                &&& s.spec_complexity() == crate::DEFAULT_COMPLEXITY
            }),
            r matches Err(e) ==> e == ConfigError::InvalidUtf8 && exists|i: int|
                0 <= i < spec_split_paragraphs(text@).len() && !valid_utf8(
                    spec_trim(#[trigger] spec_split_paragraphs(text@)[i]),
                ),
    {
        let pieces = split_and_trim(text);
        let mut responses: Vec<String> = Vec::new();
        let mut i: usize = 0;
        let n = pieces.len();
        while i < n
            invariant
                i <= n,
                n == pieces@.len(),
                pieces@.len() == spec_split_paragraphs(text@).len(),
                forall|j: int|
                    0 <= j < pieces@.len() ==> pieces@[j]@ == spec_trim(
                        #[trigger] spec_split_paragraphs(text@)[j],
                    ),
                responses@.len() == i,
                forall|j: int|
                    0 <= j < i ==> valid_utf8((#[trigger] pieces@[j])@) && responses@[j]@
                        == decode_utf8(pieces@[j]@),
            decreases n - i,
        {
            let piece = &pieces[i];
            match crate::proto::string_from_utf8(piece.as_slice()) {
                Some(s) => {
                    responses.push(s);
                },
                None => {
                    proof {
                        assert(!valid_utf8(
                            spec_trim(spec_split_paragraphs(text@)[i as int]),
                        ));
                    }
                    return Err(ConfigError::InvalidUtf8);
                },
            }
            i += 1;
        }
        proof {
            lemma_split_from_nonempty(text@, 0, 0);
        }
        match Self::new_with_responses(responses) {
            Ok(server) => {
                proof {
                    assert forall|j: int| 0 <= j < server.spec_responses().len() implies
                        server.spec_responses()[j] == decode_utf8(
                        spec_trim(#[trigger] spec_split_paragraphs(text@)[j]),
                    ) by {
                        assert(server.spec_responses()[j] == responses@[j]@);
                    }
                }
                Ok(server)
            },
            Err(_) => Err(ConfigError::EmptyResponses),
        }
    }

    /// Reconfigures the difficulty posed to future connections.
    pub fn set_puzzle_complexity(&mut self, complexity: u8)
        ensures
            final(self).spec_complexity() == complexity,
            final(self).spec_responses() == old(self).spec_responses(),
    {
        self.puzzle_complexity = complexity;
    }

    /// Picks one response uniformly at random.
    fn random_response(&self) -> (r: &String)
        requires
            self.spec_responses().len() >= 1,
        ensures
            exists|i: int|
                0 <= i < self.spec_responses().len() && r@ == #[trigger] self.spec_responses()[i],
    {
        let idx = crate::rng::random_index(self.responses.len());
        let r = &self.responses[idx];
        proof {
            assert(r@ == self.spec_responses()[idx as int]);
        }
        r
    }

    /// The response pool.
    pub fn responses(&self) -> (r: &Vec<String>)
        ensures
            r.deep_view() == self.spec_responses(),
    {
        &self.responses
    }

    /// The difficulty posed to each connection.
    pub fn puzzle_complexity(&self) -> (r: u8)
        ensures
            r == self.spec_complexity(),
    {
        self.puzzle_complexity
    }

    /// The second server state: one solution is read and judged, the
    /// verdict is sent, and on acceptance one randomly chosen response
    /// follows. What was written is pinned down by the verdict and the
    /// response encodings.
    pub fn judge_solution(&self, t: &mut Transport, puzzle: &Puzzle) -> (r: Result<
        SolutionState,
        TransportError,
    >)
        requires
            self.spec_responses().len() >= 1,
        ensures
            old(t).spec_incoming().len() < 16 ==> r == Err::<SolutionState, TransportError>(
                TransportError::UnexpectedEof,
            ) && final(t).spec_written() == old(t).spec_written() && final(t).spec_incoming()
                == old(t).spec_incoming(),
            old(t).spec_incoming().len() >= 16 ==> ({
                let solution = old(t).spec_incoming().take(16);
                let accepted = spec_valid_solution(puzzle.complexity, puzzle.value@, solution);
                &&& final(t).spec_incoming() == old(t).spec_incoming().skip(16)
                &&& r == Ok::<SolutionState, TransportError>(
                    if accepted {
                        SolutionState::ACCEPTED
                    } else {
                        SolutionState::REJECTED
                    },
                )
                &&& (!accepted ==> final(t).spec_written() == old(t).spec_written()
                    + spec_state_bytes(SolutionState::REJECTED))
                &&& (accepted ==> exists|i: int|
                    0 <= i < self.spec_responses().len() && final(t).spec_written() == old(
                        t,
                    ).spec_written() + spec_state_bytes(SolutionState::ACCEPTED)
                        + spec_quote_msg_bytes(#[trigger] self.spec_responses()[i]))
            }),
    {
        let solution = t.receive_solution()?;
        let solver = PuzzleSolver::new(puzzle);
        if solver.is_valid_solution(&solution) {
            t.send(&Message::State(SolutionState::ACCEPTED))?;
            let response = self.random_response();
            let quote = WordOfWisdomQuote::new(response.as_str());
            t.send_with_varsize(&quote)?;
            proof {
                let i = choose|i: int|
                    0 <= i < self.spec_responses().len() && quote@ == #[trigger] self.spec_responses()[i];
                assert(final(t).spec_written() =~= old(t).spec_written() + spec_state_bytes(
                    SolutionState::ACCEPTED,
                ) + spec_quote_msg_bytes(self.spec_responses()[i]));
            }
            Ok(SolutionState::ACCEPTED)
        } else {
            t.send(&Message::State(SolutionState::REJECTED))?;
            Ok(SolutionState::REJECTED)
        }
    }

    /// Runs the server side of one whole connection: sends the puzzle,
    /// waits for one solution, judges it, sends the verdict, and on
    /// acceptance one randomly chosen response. The connection sees exactly
    /// one judged attempt; what it wrote is pinned down by
    /// `spec_exchange_written`.
    pub fn handle_connection(&self, t: &mut Transport, puzzle: &Puzzle) -> (r: Result<
        SolutionState,
        TransportError,
    >)
        requires
            self.spec_responses().len() >= 1,
        ensures
            old(t).spec_incoming().len() < 16 ==> r == Err::<SolutionState, TransportError>(
                TransportError::UnexpectedEof,
            ) && final(t).spec_written() == old(t).spec_written() + spec_puzzle_bytes(*puzzle)
                && final(t).spec_incoming() == old(t).spec_incoming(),
            old(t).spec_incoming().len() >= 16 ==> ({
                let solution = old(t).spec_incoming().take(16);
                let accepted = spec_valid_solution(puzzle.complexity, puzzle.value@, solution);
                &&& final(t).spec_incoming() == old(t).spec_incoming().skip(16)
                &&& r == Ok::<SolutionState, TransportError>(
                    if accepted {
                        SolutionState::ACCEPTED
                    } else {
                        SolutionState::REJECTED
                    },
                )
                &&& exists|i: int|
                    0 <= i < self.spec_responses().len() && final(t).spec_written() == old(
                        t,
                    ).spec_written() + spec_exchange_written(
                        *puzzle,
                        solution,
                        #[trigger] self.spec_responses()[i],
                    )
            }),
    {
        t.send(&Message::Puzzle(*puzzle))?;
        let r = self.judge_solution(t, puzzle);
        proof {
            if old(t).spec_incoming().len() >= 16 {
                let solution = old(t).spec_incoming().take(16);
                if spec_valid_solution(puzzle.complexity, puzzle.value@, solution) {
                    let i = choose|i: int|
                        0 <= i < self.spec_responses().len() && final(t).spec_written() == (old(
                            t,
                        ).spec_written() + spec_puzzle_bytes(*puzzle)) + spec_state_bytes(
                            SolutionState::ACCEPTED,
                        ) + spec_quote_msg_bytes(#[trigger] self.spec_responses()[i]);
                    assert(final(t).spec_written() =~= old(t).spec_written()
                        + spec_exchange_written(*puzzle, solution, self.spec_responses()[i]));
                } else {
                    assert(final(t).spec_written() =~= old(t).spec_written()
                        + spec_exchange_written(*puzzle, solution, self.spec_responses()[0]));
                }
            }
        }
        r
    }
}

} // verus!
