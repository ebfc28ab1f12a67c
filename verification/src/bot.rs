//! The bot's choice of a tile.
//!
//! Each tile is tried behind the word in progress. A tile that leads on to
//! a longer word is preferred to one that finishes a word, and among equals
//! the tile that comes first wins.

use vstd::prelude::*;
use vstd::string::StringExecFns;
use crate::dictionary::{spec_find_extension, spec_is_word, Dictionary};
use crate::text::{char_uppercase, is_capital, upper_char};

verus! {

/// What the bot does with its tiles.
#[derive(Debug, PartialEq, Eq)]
pub enum PickTileResult {
    /// The tile at `index` finishes `word`.
    Complete { index: usize, word: String },
    /// The tile at `index` makes `partial`, which `witness` continues.
    Extend { index: usize, partial: String, witness: String },
    /// No tile finishes or continues a word.
    CannotExtend,
}

/// A [`PickTileResult`] as a mathematical value.
pub enum TileChoice {
    Complete { index: int, word: Seq<char> },
    Extend { index: int, partial: Seq<char>, witness: Seq<char> },
    CannotExtend,
}

impl View for PickTileResult {
    type V = TileChoice;

    open spec fn view(&self) -> TileChoice {
        match self {
            PickTileResult::Complete { index, word } => TileChoice::Complete {
                index: *index as int,
                word: word@,
            },
            PickTileResult::Extend { index, partial, witness } => TileChoice::Extend {
                index: *index as int,
                partial: partial@,
                witness: witness@,
            },
            PickTileResult::CannotExtend => TileChoice::CannotExtend,
        }
    }
}

/// The word in progress with `tile`, in upper case, behind it.
pub open spec fn with_tile(current: Seq<char>, tile: char) -> Seq<char> {
    current + char_uppercase(tile)
}

/// `tile` behind `current` makes a word.
pub open spec fn completes(words: Seq<Seq<char>>, current: Seq<char>, tile: char) -> bool {
    spec_is_word(words, with_tile(current, tile))
}

/// `tile` behind `current` makes no word, but the start of a longer one.
pub open spec fn extends(words: Seq<Seq<char>>, current: Seq<char>, tile: char) -> bool {
    &&& !completes(words, current, tile)
    &&& spec_find_extension(words, with_tile(current, tile)) is Some
}

/// The tile at `i` extends `current`, and no tile before it does.
pub open spec fn first_extending_at(
    words: Seq<Seq<char>>,
    current: Seq<char>,
    tiles: Seq<char>,
    i: int,
) -> bool {
    &&& 0 <= i < tiles.len()
    &&& extends(words, current, tiles[i])
    &&& forall|j: int| 0 <= j < i ==> !extends(words, current, #[trigger] tiles[j])
}

/// The tile at `i` completes `current`, and no tile before it does.
pub open spec fn first_completing_at(
    words: Seq<Seq<char>>,
    current: Seq<char>,
    tiles: Seq<char>,
    i: int,
) -> bool {
    &&& 0 <= i < tiles.len()
    &&& completes(words, current, tiles[i])
    &&& forall|j: int| 0 <= j < i ==> !completes(words, current, #[trigger] tiles[j])
}

/// The bot's choice: the first tile that extends the word, if there is
/// one; else the first that completes it; else none.
pub open spec fn spec_pick_tile(
    words: Seq<Seq<char>>,
    current: Seq<char>,
    tiles: Seq<char>,
) -> TileChoice {
    if exists|i: int| first_extending_at(words, current, tiles, i) {
        let i = choose|i: int| first_extending_at(words, current, tiles, i);
        let partial = with_tile(current, tiles[i]);
        TileChoice::Extend { index: i, partial, witness: spec_find_extension(words, partial)->0 }
    } else if exists|i: int| first_completing_at(words, current, tiles, i) {
        let i = choose|i: int| first_completing_at(words, current, tiles, i);
        TileChoice::Complete { index: i, word: with_tile(current, tiles[i]) }
    } else {
        TileChoice::CannotExtend
    }
}

/// A capital letter goes behind the word as it is.
pub proof fn lemma_with_capital_tile(current: Seq<char>, tile: char)
    requires
        is_capital(tile),
    ensures
        with_tile(current, tile) == current.push(tile),
{
}

/// What each kind of choice says about the tiles: an extending tile is the
/// first of its kind; a completing tile is the first of its kind and no
/// tile extends; and where the bot cannot move, no tile does either.
pub proof fn lemma_pick_tile_rule(words: Seq<Seq<char>>, current: Seq<char>, tiles: Seq<char>)
    ensures
        match spec_pick_tile(words, current, tiles) {
            TileChoice::Extend { index, partial, witness } => {
                &&& first_extending_at(words, current, tiles, index)
                &&& partial == with_tile(current, tiles[index])
                &&& spec_find_extension(words, partial) == Some(witness)
            },
            TileChoice::Complete { index, word } => {
                &&& first_completing_at(words, current, tiles, index)
                &&& word == with_tile(current, tiles[index])
                &&& forall|j: int|
                    0 <= j < tiles.len() ==> !extends(words, current, #[trigger] tiles[j])
            },
            TileChoice::CannotExtend => forall|j: int|
                0 <= j < tiles.len() ==> {
                    &&& !extends(words, current, #[trigger] tiles[j])
                    &&& !completes(words, current, tiles[j])
                },
        },
{
    if !exists|i: int| first_extending_at(words, current, tiles, i) {
        assert forall|j: int| 0 <= j < tiles.len() implies !extends(
            words,
            current,
            #[trigger] tiles[j],
        ) by {
            if extends(words, current, tiles[j]) {
                let kind = |t: char| extends(words, current, t);
                lemma_some_first(tiles, kind, j);
                let i = choose|i: int|
                    0 <= i <= j && kind(tiles[i]) && forall|k: int|
                        0 <= k < i ==> !kind(#[trigger] tiles[k]);
                assert(first_extending_at(words, current, tiles, i));
            }
        }
        if !exists|i: int| first_completing_at(words, current, tiles, i) {
            assert forall|j: int| 0 <= j < tiles.len() implies !completes(
                words,
                current,
                #[trigger] tiles[j],
            ) by {
                if completes(words, current, tiles[j]) {
                    let kind = |t: char| completes(words, current, t);
                    lemma_some_first(tiles, kind, j);
                    let i = choose|i: int|
                        0 <= i <= j && kind(tiles[i]) && forall|k: int|
                            0 <= k < i ==> !kind(#[trigger] tiles[k]);
                    assert(first_completing_at(words, current, tiles, i));
                }
            }
        }
    }
}

/// Among the tiles up to `upto` there is a first one of a kind as soon as
/// the tile at `upto` is of that kind.
proof fn lemma_some_first(tiles: Seq<char>, kind: spec_fn(char) -> bool, upto: int)
    requires
        0 <= upto < tiles.len(),
    ensures
        kind(tiles[upto]) ==> exists|i: int|
            0 <= i <= upto && kind(tiles[i]) && forall|j: int|
                0 <= j < i ==> !kind(#[trigger] tiles[j]),
    decreases upto,
{
    if kind(tiles[upto]) {
        if exists|k: int| 0 <= k < upto && kind(tiles[k]) {
            let k = choose|k: int| 0 <= k < upto && kind(tiles[k]);
            lemma_some_first(tiles, kind, k);
        }
    }
}

/// Chooses the bot's tile for the word `current`.
pub fn pick_tile(dict: &Dictionary, current: String, available_tiles: Vec<char>) -> (r:
    PickTileResult)
    ensures
        r@ == spec_pick_tile(dict@, current@, available_tiles@),
{
    let mut completing: Option<(usize, String)> = None;
    let mut i: usize = 0;
    while i < available_tiles.len()
        invariant
            i <= available_tiles.len(),
            forall|j: int| 0 <= j < i ==> !extends(dict@, current@, #[trigger] available_tiles@[j]),
            match completing {
                Some((k, word)) => {
                    &&& first_completing_at(dict@, current@, available_tiles@, k as int)
                    &&& word@ == with_tile(current@, available_tiles@[k as int])
                },
                None => forall|j: int|
                    0 <= j < i ==> !completes(dict@, current@, #[trigger] available_tiles@[j]),
            },
        decreases available_tiles.len() - i,
    {
        let mut candidate = current.clone();
        candidate.append(upper_char(available_tiles[i]).as_str());
        if dict.is_word(candidate.as_str()) {
            if completing.is_none() {
                completing = Some((i, candidate));
            }
        } else {
            match dict.find_extension(candidate.as_str()) {
                Some(witness) => {
                    assert(first_extending_at(dict@, current@, available_tiles@, i as int));
                    return PickTileResult::Extend { index: i, partial: candidate, witness };
                },
                None => {},
            }
        }
        i += 1;
    }
    match completing {
        Some((index, word)) => PickTileResult::Complete { index, word },
        None => PickTileResult::CannotExtend,
    }
}

} // verus!
