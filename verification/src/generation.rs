//! The entry point of the engine: one call that yields a solution and a
//! puzzle masked from it.

use vstd::prelude::*;
use crate::completion::{completions, given_positions, is_solution, is_valid};
use crate::generator::{generate_random_filled_grid, some_seed_is_unfillable};
use crate::grid::cells;
use crate::masker::{clone_grid, is_masking_of, mask_grid, MIN_GIVEN_COUNT};
use crate::units::each_digit_once;

verus! {

/// Why no puzzle was produced.
#[derive(Debug, Clone, Copy, PartialEq, Eq, Structural)]
pub enum GenerationError {
    /// The search found no way to complete the seeded diagonal boxes.
    Unfillable,
    /// The masker ran out of attempts before the puzzle was down to the
    /// requested number of digits.
    AttemptsExhausted,
}

/// Generates a solution and a puzzle that shows exactly `given_count` of its
/// digits and has that solution as its only completion.
///
/// `seed` is accepted for the caller's bookkeeping; the random source is the
/// thread-local generator and is not seeded from it. `max_attempts` bounds
/// every retry loop of the masker.
pub fn generate_grid(seed: String, given_count: usize, max_attempts: usize) -> (generated: Result<
    (Vec<Vec<u8>>, Vec<Vec<u8>>),
    GenerationError,
>)
    requires
        MIN_GIVEN_COUNT <= given_count <= 81,
    ensures
        generated matches Err(GenerationError::Unfillable) ==> some_seed_is_unfillable(),
        generated matches Err(GenerationError::AttemptsExhausted) ==> given_count < 81,
        given_count < 81 && max_attempts == 0 ==> generated is Err,
        generated matches Ok((solution, puzzle)) ==> {
            &&& is_solution(cells(solution@))
            &&& each_digit_once(cells(solution@))
            &&& is_masking_of(cells(puzzle@), cells(solution@))
            &&& is_valid(cells(puzzle@))
            &&& completions(cells(puzzle@)) == set![cells(solution@)]
            &&& given_positions(cells(puzzle@)).len() == given_count
            &&& given_count == 81 ==> cells(puzzle@) == cells(solution@)
        },
{
    let solution = match generate_random_filled_grid() {
        Some(filled) => filled,
        None => {
            return Err(GenerationError::Unfillable);
        },
    };
    let copy = clone_grid(solution.as_slice());
    match mask_grid(copy, given_count, max_attempts) {
        Some(puzzle) => Ok((solution, puzzle)),
        None => Err(GenerationError::AttemptsExhausted),
    }
}

} // verus!
