use wordgame::bot::{pick_tile, PickTileResult};
use wordgame::dictionary::Dictionary;

fn words(list: &[&str]) -> Dictionary {
    Dictionary::new(list.iter().map(|w| w.to_string()).collect())
}

fn pick(list: &[&str], current: &str, tiles: &[char]) -> PickTileResult {
    pick_tile(&words(list), current.to_string(), tiles.to_vec())
}

fn extend(index: usize, partial: &str, witness: &str) -> PickTileResult {
    PickTileResult::Extend {
        index,
        partial: partial.to_string(),
        witness: witness.to_string(),
    }
}

fn complete(index: usize, word: &str) -> PickTileResult {
    PickTileResult::Complete { index, word: word.to_string() }
}

#[test]
fn lower_index_wins_among_extending_tiles() {
    assert_eq!(pick(&["CATS"], "CA", &['T', 'T']), extend(0, "CAT", "CATS"));
    assert_eq!(pick(&["CARS", "CATS"], "CA", &['T', 'R']), extend(0, "CAT", "CATS"));
    assert_eq!(pick(&["CARS", "CATS"], "CA", &['X', 'R', 'T']), extend(1, "CAR", "CARS"));
}

#[test]
fn extending_tile_is_preferred_to_an_earlier_completing_tile() {
    assert_eq!(pick(&["CAT", "CARS"], "CA", &['T', 'R']), extend(1, "CAR", "CARS"));
    assert_eq!(pick(&["CAT", "CARS"], "CA", &['T', 'X', 'T', 'R', 'R']), extend(3, "CAR", "CARS"));
}

#[test]
fn tile_that_makes_a_word_completes_even_where_a_longer_word_exists() {
    assert_eq!(pick(&["CAT", "CATS"], "CA", &['T', 'T']), complete(0, "CAT"));
    assert_eq!(pick(&["CATS", "CAT"], "CA", &['X', 'T']), complete(1, "CAT"));
}

#[test]
fn completion_when_no_extension_exists() {
    assert_eq!(pick(&["CAT"], "CA", &['T']), complete(0, "CAT"));
    assert_eq!(pick(&["CAT", "CAR"], "CA", &['X', 'R', 'T']), complete(1, "CAR"));
}

#[test]
fn cannot_extend_when_no_tile_fits() {
    assert_eq!(pick(&["DOG"], "CA", &['T']), PickTileResult::CannotExtend);
    assert_eq!(pick(&["CAT"], "CA", &[]), PickTileResult::CannotExtend);
    assert_eq!(pick(&[], "CA", &['T', 'R']), PickTileResult::CannotExtend);
    assert_eq!(pick(&["CAT"], "CAT", &['S', 'T']), PickTileResult::CannotExtend);
}

#[test]
fn tiles_are_put_in_upper_case() {
    assert_eq!(pick(&["CAT"], "CA", &['t']), complete(0, "CAT"));
    assert_eq!(pick(&["cats"], "CA", &['t']), extend(0, "CAT", "cats"));
    assert_eq!(pick(&["CAF\u{c9}"], "CAF", &['\u{e9}']), complete(0, "CAF\u{c9}"));
    assert_eq!(pick(&["STRASSE"], "STRA", &['\u{df}']), extend(0, "STRASS", "STRASSE"));
}

#[test]
fn word_in_progress_is_compared_case_aside() {
    assert_eq!(pick(&["CAT"], "ca", &['T']), complete(0, "caT"));
    assert_eq!(pick(&["CATS"], "ca", &['t']), extend(0, "caT", "CATS"));
}

#[test]
fn pick_tile_gives_the_same_choice_twice() {
    let d = words(&["FIE", "FIELD", "FIT"]);
    let first = pick_tile(&d, "FI".to_string(), vec!['Q', 'T', 'E']);
    let second = pick_tile(&d, "FI".to_string(), vec!['Q', 'T', 'E']);
    assert_eq!(first, second);
    assert_eq!(first, complete(1, "FIT"));
    assert_eq!(pick_tile(&d, "FIE".to_string(), vec!['Q', 'L']), extend(1, "FIEL", "FIELD"));
}
