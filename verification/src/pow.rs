//! The hashcash-style difficulty predicate and the brute-force solver.
//!
//! A solution is judged by hashing the puzzle's random bytes followed by the
//! candidate and counting leading zero nibbles of the 256-bit digest. The
//! solver draws random candidates until one passes.

use vstd::prelude::*;

use crate::proto::{Puzzle, PuzzleSolution};
use crate::rng::random_bytes_16;

verus! {

/// The SHA-256 digest of a byte sequence. The algorithm itself is the
/// concern of an outside crate; the contracts here only need that it is a
/// pure function of its input.
pub uninterp spec fn sha256_of(data: Seq<u8>) -> Seq<u8>;

/// Relies on `sha2::Sha256` through its `Digest` impl: the digest is a pure
/// function of the input bytes and is 32 bytes long.
#[verifier::external_body]
fn sha256_digest(data: &[u8]) -> (r: Vec<u8>)
    ensures
        r@ == sha256_of(data@),
        r@.len() == 32,
{
    let digest = <sha2::Sha256 as sha2::Digest>::digest(data);
    digest.to_vec()
}

/// Number of leading zero nibbles of a digest: each byte contributes its
/// high nibble first, and the count stops at the first nonzero nibble.
pub open spec fn leading_zero_nibbles(digest: Seq<u8>) -> nat
    decreases digest.len(),
{
    if digest.len() == 0 {
        0
    } else if digest[0] >> 4u8 != 0 {
        0
    } else if digest[0] & 0xfu8 != 0 {
        1
    } else {
        2 + leading_zero_nibbles(digest.drop_first())
    }
}

/// A solution is valid for a puzzle exactly when the digest of the puzzle's
/// value followed by the solution has at least `complexity` leading zero
/// nibbles.
pub open spec fn spec_valid_solution(complexity: u8, value: Seq<u8>, solution: Seq<u8>) -> bool {
    leading_zero_nibbles(sha256_of(value + solution)) >= complexity
}

/// A digest has no more zero nibbles than it has nibbles.
proof fn lemma_nibbles_bound(digest: Seq<u8>)
    ensures
        leading_zero_nibbles(digest) <= 2 * digest.len(),
    decreases digest.len(),
{
    if digest.len() > 0 && digest[0] >> 4u8 == 0 && digest[0] & 0xfu8 == 0 {
        lemma_nibbles_bound(digest.drop_first());
    }
}

/// When the first `i` bytes are all zero, the count is `2 * i` plus the
/// count over the remainder.
proof fn lemma_nibbles_skip(digest: Seq<u8>, i: int)
    requires
        0 <= i <= digest.len(),
        forall|j: int| 0 <= j < i ==> digest[j] == 0,
    ensures
        leading_zero_nibbles(digest) == 2 * i + leading_zero_nibbles(digest.skip(i)),
    decreases i,
{
    if i == 0 {
        assert(digest.skip(0) =~= digest);
    } else {
        let b = digest[0];
        assert(b == 0);
        assert(0u8 >> 4u8 == 0 && 0u8 & 0xfu8 == 0) by (bit_vector);
        lemma_nibbles_skip(digest.drop_first(), i - 1);
        assert(digest.drop_first().skip(i - 1) =~= digest.skip(i));
    }
}

/// Counts leading zero nibbles of a 32-byte digest, scanning at most
/// `max_bytes` bytes; the result is the true count capped at twice the
/// number of scanned bytes.
fn count_leading_zero_nibbles(digest: &Vec<u8>, max_bytes: usize) -> (r: usize)
    requires
        digest@.len() == 32,
    ensures
        ({
            let k: int = if max_bytes <= 32 {
                max_bytes as int
            } else {
                32
            };
            if leading_zero_nibbles(digest@) >= 2 * k {
                r == 2 * k
            } else {
                r == leading_zero_nibbles(digest@)
            }
        }),
{
    let k: usize = if max_bytes <= 32 {
        max_bytes
    } else {
        32
    };
    let mut i: usize = 0;
    while i < k
        invariant
            i <= k <= 32,
            max_bytes <= 32 ==> k == max_bytes,
            max_bytes > 32 ==> k == 32,
            digest@.len() == 32,
            forall|j: int| 0 <= j < i ==> digest@[j] == 0,
        decreases k - i,
    {
        let c = digest[i];
        if c >> 4u8 != 0 {
            proof {
                lemma_nibbles_skip(digest@, i as int);
                assert(digest@.skip(i as int)[0] == c);
            }
            return 2 * i;
        }
        if c & 0xfu8 != 0 {
            proof {
                lemma_nibbles_skip(digest@, i as int);
                assert(digest@.skip(i as int)[0] == c);
            }
            return 2 * i + 1;
        }
        proof {
            assert(c == 0) by (bit_vector)
                requires
                    c >> 4u8 == 0 && c & 0xfu8 == 0,
            ;
        }
        i += 1;
    }
    proof {
        lemma_nibbles_skip(digest@, k as int);
    }
    2 * k
}

/// Judge of solutions for one puzzle, and brute-force searcher for one.
pub struct PuzzleSolver {
    puzzle: Puzzle,
}

/// What a successful search returns: the accepted solution and how many
/// candidates were hashed to find it. The attempt count is observability
/// only; it is not protocol-visible.
pub struct SolvingResult {
    pub solution: PuzzleSolution,
    pub hashes_tried: u128,
}

impl PuzzleSolver {
    /// The puzzle this solver judges against.
    pub closed spec fn spec_puzzle(&self) -> Puzzle {
        self.puzzle
    }

    /// Binds a solver to one puzzle. The digest is recomputed from the
    /// puzzle's bytes on every judgement; caching the hash state over the
    /// fixed prefix would be a performance detail with no effect on the
    /// verdict.
    pub fn new(puzzle: &Puzzle) -> (r: Self)
        ensures
            r.spec_puzzle() == *puzzle,
    {
        PuzzleSolver { puzzle: *puzzle }
    }

    /// Judges one candidate: accepted exactly when the digest of the
    /// puzzle's value followed by the candidate has at least `complexity`
    /// leading zero nibbles. The verdict is a pure function of puzzle and
    /// candidate, so repeated judgements of the same pair agree.
    pub fn is_valid_solution(&self, solution: &PuzzleSolution) -> (r: bool)
        ensures
            r == spec_valid_solution(
                self.spec_puzzle().complexity,
                self.spec_puzzle().value@,
                solution@,
            ),
            self.spec_puzzle().complexity > 64 ==> !r,
    {
        let mut data: Vec<u8> = Vec::new();
        let mut i: usize = 0;
        while i < 16
            invariant
                i <= 16,
                data@ == self.puzzle.value@.take(i as int),
            decreases 16 - i,
        {
            data.push(self.puzzle.value[i]);
            proof {
                assert(data@ =~= self.puzzle.value@.take(i + 1));
            }
            i += 1;
        }
        proof {
            assert(data@ =~= self.puzzle.value@);
        }
        let sol = solution.as_bytes();
        let mut j: usize = 0;
        while j < 16
            invariant
                j <= 16,
                sol@ == solution@,
                data@ == self.puzzle.value@ + solution@.take(j as int),
            decreases 16 - j,
        {
            data.push(sol[j]);
            proof {
                assert(data@ =~= self.puzzle.value@ + solution@.take(j + 1));
            }
            j += 1;
        }
        proof {
            assert(data@ =~= self.puzzle.value@ + solution@);
        }
        verify_challenge_vec(self.puzzle.complexity, data)
    }

    /// Draws uniformly random candidates until one is accepted, and returns
    /// it together with the number of attempts. The search gives up only
    /// after an astronomically large attempt budget, far beyond what any
    /// machine can run; difficulty directly prices each connection in
    /// expected attempts.
    pub fn solve(&self) -> (r: Option<SolvingResult>)
        ensures
            r matches Some(res) ==> spec_valid_solution(
                self.spec_puzzle().complexity,
                self.spec_puzzle().value@,
                res.solution@,
            ) && 1 <= res.hashes_tried,
            self.spec_puzzle().complexity == 0 ==> r is Some,
    {
        let mut hashes_tried: u128 = 0;
        while hashes_tried < u128::MAX
            invariant
                hashes_tried <= u128::MAX,
                self.spec_puzzle().complexity == 0 ==> hashes_tried == 0,
            decreases u128::MAX - hashes_tried,
        {
            let solution = PuzzleSolution::new(random_bytes_16());
            hashes_tried = hashes_tried + 1;
            if self.is_valid_solution(&solution) {
                return Some(SolvingResult { solution, hashes_tried });
            }
        }
        None
    }
}

/// `verify_challenge` on an owned byte vector; the digest input is the
/// vector itself.
fn verify_challenge_vec(complexity: u8, data: Vec<u8>) -> (r: bool)
    ensures
        r == (leading_zero_nibbles(sha256_of(data@)) >= complexity),
        complexity > 64 ==> !r,
{
    let digest = sha256_digest(data.as_slice());
    let max_bytes = complexity as usize / 2 + 1;
    let count = count_leading_zero_nibbles(&digest, max_bytes);
    proof {
        // a 32-byte digest holds 64 nibbles, so nothing satisfies a higher bar
        lemma_nibbles_bound(digest@);
    }
    count >= complexity as usize
}

/// Judges a candidate solution against a challenge given as raw bytes:
/// accepted exactly when the digest of challenge followed by solution has at
/// least `complexity` leading zero nibbles.
pub fn verify_challenge(complexity: u8, challenge: &[u8], solution: &[u8]) -> (r: bool)
    ensures
        r == spec_valid_solution(complexity, challenge@, solution@),
        complexity > 64 ==> !r,
{
    let mut data: Vec<u8> = Vec::new();
    let mut i: usize = 0;
    let clen = challenge.len();
    while i < clen
        invariant
            i <= clen,
            clen == challenge@.len(),
            data@ == challenge@.take(i as int),
        decreases clen - i,
    {
        data.push(challenge[i]);
        proof {
            assert(data@ =~= challenge@.take(i + 1));
        }
        i += 1;
    }
    proof {
        assert(data@ =~= challenge@);
    }
    let slen = solution.len();
    let mut j: usize = 0;
    while j < slen
        invariant
            j <= slen,
            slen == solution@.len(),
            data@ == challenge@ + solution@.take(j as int),
        decreases slen - j,
    {
        data.push(solution[j]);
        proof {
            assert(data@ =~= challenge@ + solution@.take(j + 1));
        }
        j += 1;
    }
    proof {
        assert(data@ =~= challenge@ + solution@);
    }
    verify_challenge_vec(complexity, data)
}

/// Verification is deterministic: the verdict is a function of the puzzle
/// and the solution alone, so any two verdicts for the same pair agree.
pub proof fn lemma_verification_deterministic(p: Puzzle, s: Seq<u8>, r1: bool, r2: bool)
    requires
        r1 == spec_valid_solution(p.complexity, p.value@, s),
        r2 == spec_valid_solution(p.complexity, p.value@, s),
    ensures
        r1 == r2,
{
}

/// Difficulty is monotone: a solution accepted for some puzzle is also
/// accepted for any puzzle with the same value and a lower or equal
/// complexity.
pub proof fn lemma_difficulty_monotone(p1: Puzzle, p2: Puzzle, s: Seq<u8>)
    requires
        p1.value@ == p2.value@,
        p2.complexity <= p1.complexity,
        spec_valid_solution(p1.complexity, p1.value@, s),
    ensures
        spec_valid_solution(p2.complexity, p2.value@, s),
{
}

} // verus!
