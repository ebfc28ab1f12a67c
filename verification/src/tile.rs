//! The letters that tiles hold, and where fresh ones come from.

use rand::distributions::{Distribution, Uniform};
use vstd::prelude::*;
use crate::text::is_capital;

verus! {

/// The number of tiles that the bot holds.
pub const TILE_COUNT: usize = 5;

/// The number of tiles, counted from the first, that are thrown away when
/// the bot cannot move. It is one less than `TILE_COUNT`: the last tile is
/// kept, and that is the rule of the game, not an oversight.
pub const REROLL_COUNT: usize = 4;

/// Every character of `letters` is a capital letter.
pub open spec fn all_capital(letters: Seq<char>) -> bool {
    forall|i: int| 0 <= i < letters.len() ==> is_capital(#[trigger] letters[i])
}

/// `fresh` holds what one move of the bot may draw: `REROLL_COUNT` capital
/// letters.
pub open spec fn valid_draw(fresh: Seq<char>) -> bool {
    &&& fresh.len() == REROLL_COUNT
    &&& all_capital(fresh)
}

/// The tiles after the bot could not move: the first `REROLL_COUNT` are
/// replaced by `fresh`, the others stay.
pub open spec fn rerolled(tiles: Seq<char>, fresh: Seq<char>) -> Seq<char> {
    Seq::new(
        tiles.len(),
        |i: int|
            if i < REROLL_COUNT {
                fresh[i]
            } else {
                tiles[i]
            },
    )
}

/// A copy of `tiles` with `letter` at `index`.
pub fn replace_tile(tiles: &Vec<char>, index: usize, letter: char) -> (r: Vec<char>)
    requires
        index < tiles@.len(),
    ensures
        r@ == tiles@.update(index as int, letter),
{
    let mut r: Vec<char> = Vec::new();
    let mut i: usize = 0;
    while i < tiles.len()
        invariant
            i <= tiles@.len(),
            index < tiles@.len(),
            r@ == tiles@.update(index as int, letter).take(i as int),
        decreases tiles@.len() - i,
    {
        r.push(
            if i == index {
                letter
            } else {
                tiles[i]
            },
        );
        i += 1;
    }
    r
}

/// A copy of `tiles` whose first `REROLL_COUNT` letters are those of
/// `fresh`.
pub fn reroll(tiles: &Vec<char>, fresh: &Vec<char>) -> (r: Vec<char>)
    requires
        fresh@.len() == REROLL_COUNT,
    ensures
        r@ == rerolled(tiles@, fresh@),
{
    let mut r: Vec<char> = Vec::new();
    let mut i: usize = 0;
    while i < tiles.len()
        invariant
            i <= tiles@.len(),
            fresh@.len() == REROLL_COUNT,
            r@ == rerolled(tiles@, fresh@).take(i as int),
        decreases tiles@.len() - i,
    {
        r.push(
            if i < REROLL_COUNT {
                fresh[i]
            } else {
                tiles[i]
            },
        );
        i += 1;
    }
    r
}

/// `rand::distributions::Uniform::new_inclusive(low, high)`, sampled once
/// with `rand::thread_rng()`: some character of the closed range from `low`
/// to `high`. Which one is not said: two calls may differ. The generator is
/// seeded by the operating system when a thread first uses it, and `rand`
/// panics where the system has nothing to seed it with.
#[verifier::external_body]
fn sample_inclusive(low: char, high: char) -> (c: char)
    requires
        low <= high,
    ensures
        low <= c <= high,
{
    Uniform::new_inclusive(low, high).sample(&mut rand::thread_rng())
}

/// Draws a capital letter at random.
pub fn random_tile() -> (c: char)
    ensures
        is_capital(c),
{
    sample_inclusive('A', 'Z')
}

/// Draws `count` capital letters at random.
pub fn random_tiles(count: usize) -> (letters: Vec<char>)
    ensures
        letters@.len() == count,
        all_capital(letters@),
{
    let mut letters: Vec<char> = Vec::new();
    while letters.len() < count
        invariant
            letters@.len() <= count,
            all_capital(letters@),
        decreases count - letters@.len(),
    {
        letters.push(random_tile());
    }
    letters
}

} // verus!
