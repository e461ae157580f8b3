//! The client: solves the puzzle it is given and interprets the verdict.
//!
//! One exchange is two turns of the stream: after the solution is sent the
//! peer must answer before anything more can be read, so the exchange is two
//! functions. The code that owns the stream calls them in order, moving
//! bytes in and out of the transport between the turns.

use vstd::prelude::*;
use vstd::bytes::spec_u64_from_le_bytes;
use vstd::string::StringExecFns;

use crate::proto::{SolutionState, WordOfWisdomQuote};
use crate::proto::{spec_parse_state, spec_parse_quote_payload};
use crate::proto::{PUZZLE_MSG_SIZE, SOLUTION_STATE_SIZE, QUOTE_SIZE_MSG_SIZE};
use crate::pow::{PuzzleSolver, SolvingResult, spec_valid_solution};
use crate::transport::{Transport, TransportError, Message};

verus! {

/// Why a client's exchange failed.
#[derive(Clone, Copy, PartialEq, Eq, Debug)]
pub enum ClientError {
    /// The transport failed: a short read, or bytes of the wrong shape.
    Transport(TransportError),
    /// The server judged the submitted solution and rejected it.
    SolutionRejected,
    /// The candidate search ran out of its attempt budget.
    SolverGaveUp,
}

/// A client bound to one server address.
pub struct Client {
    addr: String,
}

impl Client {
    /// The address this client connects to.
    pub closed spec fn spec_addr(&self) -> Seq<char> {
        self.addr@
    }

    /// Binds a client to a server address.
    pub fn new(addr: &str) -> (r: Self)
        ensures
            r.spec_addr() == addr@,
    {
        Client { addr: String::from_str(addr) }
    }

    /// The address this client connects to.
    pub fn addr(&self) -> (r: &str)
        ensures
            r@ == self.spec_addr(),
    {
        self.addr.as_str()
    }
}

/// First client turn: reads the puzzle, searches for a solution that the
/// server's predicate accepts, and sends it. The returned solution is valid
/// for exactly the puzzle whose bytes were read.
pub fn respond_to_puzzle(t: &mut Transport) -> (r: Result<SolvingResult, ClientError>)
    ensures
        old(t).spec_incoming().len() < PUZZLE_MSG_SIZE ==> r == Err::<SolvingResult, ClientError>(
            ClientError::Transport(TransportError::UnexpectedEof),
        ) && final(t).spec_incoming() == old(t).spec_incoming() && final(t).spec_written() == old(
            t,
        ).spec_written(),
        old(t).spec_incoming().len() >= PUZZLE_MSG_SIZE ==> ({
            let puzzle_bytes = old(t).spec_incoming().take(PUZZLE_MSG_SIZE as int);
            &&& final(t).spec_incoming() == old(t).spec_incoming().skip(PUZZLE_MSG_SIZE as int)
            &&& (puzzle_bytes[0] == 0 ==> r is Ok)
            &&& (match r {
                Ok(res) => spec_valid_solution(
                    puzzle_bytes[0],
                    puzzle_bytes.skip(1),
                    res.solution@,
                ) && res.hashes_tried >= 1 && final(t).spec_written() == old(t).spec_written()
                    + res.solution@,
                Err(e) => e == ClientError::SolverGaveUp && final(t).spec_written() == old(
                    t,
                ).spec_written(),
            })
        }),
{
    let puzzle = match t.receive_puzzle() {
        Ok(p) => p,
        Err(e) => {
            return Err(ClientError::Transport(e));
        },
    };
    let solver = PuzzleSolver::new(&puzzle);
    let result = match solver.solve() {
        Some(res) => res,
        None => {
            return Err(ClientError::SolverGaveUp);
        },
    };
    let _ = t.send(&Message::Solution(result.solution));
    Ok(result)
}

/// Second client turn: reads the verdict; on acceptance reads the announced
/// payload and returns the quote it parses to, and on rejection fails with
/// the distinguished rejection error.
pub fn read_verdict(t: &mut Transport) -> (r: Result<WordOfWisdomQuote, ClientError>)
    ensures
        final(t).spec_written() == old(t).spec_written(),
        ({
            let inc = old(t).spec_incoming();
            if inc.len() < SOLUTION_STATE_SIZE {
                &&& r == Err::<WordOfWisdomQuote, ClientError>(
                    ClientError::Transport(TransportError::UnexpectedEof),
                )
                &&& final(t).spec_incoming() == inc
            } else {
                let verdict = spec_parse_state(inc.take(SOLUTION_STATE_SIZE as int));
                let rem = inc.skip(SOLUTION_STATE_SIZE as int);
                if verdict is None {
                    &&& r == Err::<WordOfWisdomQuote, ClientError>(
                        ClientError::Transport(TransportError::MalformedMessage),
                    )
                    &&& final(t).spec_incoming() == rem
                } else if verdict == Some(SolutionState::REJECTED) {
                    &&& r == Err::<WordOfWisdomQuote, ClientError>(ClientError::SolutionRejected)
                    &&& final(t).spec_incoming() == rem
                } else if rem.len() < QUOTE_SIZE_MSG_SIZE {
                    &&& r == Err::<WordOfWisdomQuote, ClientError>(
                        ClientError::Transport(TransportError::UnexpectedEof),
                    )
                    &&& final(t).spec_incoming() == rem
                } else {
                    let announced = spec_u64_from_le_bytes(rem.take(QUOTE_SIZE_MSG_SIZE as int));
                    let rem2 = rem.skip(QUOTE_SIZE_MSG_SIZE as int);
                    if announced > usize::MAX {
                        &&& r == Err::<WordOfWisdomQuote, ClientError>(
                            ClientError::Transport(TransportError::MalformedMessage),
                        )
                        &&& final(t).spec_incoming() == rem2
                    } else if rem2.len() < announced {
                        &&& r == Err::<WordOfWisdomQuote, ClientError>(
                            ClientError::Transport(TransportError::UnexpectedEof),
                        )
                        &&& final(t).spec_incoming() == rem2
                    } else {
                        &&& final(t).spec_incoming() == rem2.skip(announced as int)
                        &&& (match spec_parse_quote_payload(rem2.take(announced as int)) {
                            Some(qv) => r matches Ok(q) && q@ == qv,
                            None => r == Err::<WordOfWisdomQuote, ClientError>(
                                ClientError::Transport(TransportError::MalformedMessage),
                            ),
                        })
                    }
                }
            }
        }),
{
    let state = match t.receive_state() {
        Ok(s) => s,
        Err(e) => {
            return Err(ClientError::Transport(e));
        },
    };
    match state {
        SolutionState::REJECTED => Err(ClientError::SolutionRejected),
        SolutionState::ACCEPTED => {
            let qs = match t.receive_quote_size() {
                Ok(q) => q,
                Err(e) => {
                    return Err(ClientError::Transport(e));
                },
            };
            let quote = match t.receive_quote(qs.size()) {
                Ok(q) => q,
                Err(e) => {
                    return Err(ClientError::Transport(e));
                },
            };
            Ok(quote)
        },
    }
}

} // verus!
