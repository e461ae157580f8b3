use sha2::{Digest, Sha256};
use word_of_wisdom::proto::{Puzzle, PuzzleSolution, PUZZLE_SIZE, SOLUTION_SIZE};
use word_of_wisdom::pow::{verify_challenge, PuzzleSolver};
use word_of_wisdom::DEFAULT_COMPLEXITY;

#[test]
fn test_puzzle_new() {
    let p = Puzzle::new(5);
    assert_eq!(p.complexity, 5);
    assert_ne!(p.value, [0u8; PUZZLE_SIZE]);
}

#[test]
fn test_puzzle_default() {
    let p = Puzzle::default();
    assert_eq!(p.complexity, DEFAULT_COMPLEXITY);
    assert_ne!(p.value, [0u8; PUZZLE_SIZE]);
}

#[test]
fn test_is_not_valid_solution() {
    let puzzle = Puzzle::new(30);
    let solver = PuzzleSolver::new(&puzzle);
    assert_eq!(
        solver.is_valid_solution(&PuzzleSolution::new([0u8; SOLUTION_SIZE])),
        false
    );
}

#[test]
fn test_puzzle_solve() {
    let puzzle = Puzzle::new(3);
    let solver = PuzzleSolver::new(&puzzle);
    let result = solver.solve().unwrap();
    assert!(result.hashes_tried > 0);
    assert!(solver.is_valid_solution(&result.solution));
    let mut hasher = Sha256::default();
    hasher.update(puzzle.value);
    hasher.update(result.solution.as_bytes());
    let hash_hex = format!("{:x}", hasher.finalize());
    assert!(hash_hex.starts_with("000"));
}

#[test]
fn test_verification_deterministic() {
    let puzzle = Puzzle::new(2);
    let solver = PuzzleSolver::new(&puzzle);
    let solution = solver.solve().unwrap().solution;
    let first = solver.is_valid_solution(&solution);
    let second = solver.is_valid_solution(&solution);
    assert!(first);
    assert_eq!(first, second);
}

#[test]
fn test_difficulty_monotone() {
    let puzzle = Puzzle::new(2);
    let solver = PuzzleSolver::new(&puzzle);
    let solution = solver.solve().unwrap().solution;
    for lower in 0..=2u8 {
        let easier = Puzzle {
            complexity: lower,
            value: puzzle.value,
        };
        assert!(PuzzleSolver::new(&easier).is_valid_solution(&solution));
    }
}

#[test]
fn test_verify_challenge_matches_direct_digest() {
    let challenge = [7u8; 16];
    let solution = [9u8; 16];
    let mut hasher = Sha256::new();
    hasher.update(challenge);
    hasher.update(solution);
    let digest = hasher.finalize();
    let mut zeros: u32 = 0;
    for c in digest.iter() {
        if c >> 4 == 0 {
            zeros += 1;
        } else {
            break;
        }
        if c & 0xf == 0 {
            zeros += 1;
        } else {
            break;
        }
    }
    for complexity in 0..=4u8 {
        assert_eq!(
            verify_challenge(complexity, &challenge, &solution),
            zeros >= complexity as u32
        );
    }
}

#[test]
fn test_verify_challenge_zero_complexity_accepts() {
    assert!(verify_challenge(0, &[1, 2, 3], &[4, 5, 6]));
}

#[test]
fn test_solve_zero_complexity_always_succeeds() {
    let puzzle = Puzzle::new(0);
    let solver = PuzzleSolver::new(&puzzle);
    let result = solver.solve().unwrap();
    assert_eq!(result.hashes_tried, 1);
    assert!(solver.is_valid_solution(&result.solution));
}

#[test]
fn test_rejects_above_digest_width() {
    // a 256-bit digest has 64 nibbles, so no solution can satisfy more
    let puzzle = Puzzle::new(65);
    let solver = PuzzleSolver::new(&puzzle);
    assert!(!solver.is_valid_solution(&PuzzleSolution::new([0xa5u8; SOLUTION_SIZE])));
    assert!(!verify_challenge(65, &puzzle.value, &[0u8; SOLUTION_SIZE]));
    assert!(!verify_challenge(255, &puzzle.value, &[7u8; SOLUTION_SIZE]));
}
