use wordgame::text::{is_capital, is_letter, string_of_char, to_upper, upper_char, upper_letter};
use wordgame::tile::{random_tile, random_tiles, replace_tile, reroll, REROLL_COUNT, TILE_COUNT};

#[test]
fn upper_letter_folds_ascii_letters_only() {
    assert_eq!(upper_letter('a'), 'A');
    assert_eq!(upper_letter('z'), 'Z');
    assert_eq!(upper_letter('M'), 'M');
    assert_eq!(upper_letter('3'), '3');
    assert_eq!(upper_letter('`'), '`');
    assert_eq!(upper_letter('{'), '{');
    assert_eq!(upper_letter('\u{e9}'), '\u{e9}');
    for c in '\0'..='\u{7f}' {
        assert_eq!(upper_letter(c), c.to_ascii_uppercase());
    }
}

#[test]
fn to_upper_agrees_with_the_standard_library() {
    for s in ["", "cat", "CAT", "Cat 42!", "tsch\u{fc}\u{df}", "\u{e9}clair", "\u{149}x", "\u{5c71}"] {
        assert_eq!(to_upper(s), s.to_uppercase());
    }
    assert_eq!(to_upper("hello"), "HELLO");
    assert_eq!(to_upper("tsch\u{fc}\u{df}"), "TSCH\u{dc}SS");
}

#[test]
fn upper_char_agrees_with_the_standard_library() {
    for c in ['a', 'Z', '7', ' ', '\u{e9}', '\u{df}', '\u{fb06}', '\u{5c71}', '\u{7f}', '\u{80}'] {
        let expected: String = c.to_uppercase().collect();
        assert_eq!(upper_char(c), expected);
    }
    assert_eq!(upper_char('t'), "T");
    assert_eq!(upper_char('\u{df}'), "SS");
}

#[test]
fn random_tile_is_a_capital_letter() {
    let mut seen = [false; 26];
    for _ in 0..5000 {
        let c = random_tile();
        assert!(('A'..='Z').contains(&c));
        seen[(c as u8 - b'A') as usize] = true;
    }
    assert!(seen.iter().all(|s| *s));
}

#[test]
fn random_tiles_draws_the_number_asked_for() {
    assert_eq!(random_tiles(0), Vec::<char>::new());
    for count in [1, REROLL_COUNT, TILE_COUNT, 40] {
        let letters = random_tiles(count);
        assert_eq!(letters.len(), count);
        assert!(letters.iter().all(|c| ('A'..='Z').contains(c)));
    }
}

#[test]
fn replace_tile_changes_one_tile() {
    let tiles = vec!['A', 'B', 'C', 'D', 'E'];
    assert_eq!(replace_tile(&tiles, 0, 'X'), vec!['X', 'B', 'C', 'D', 'E']);
    assert_eq!(replace_tile(&tiles, 4, 'X'), vec!['A', 'B', 'C', 'D', 'X']);
    assert_eq!(replace_tile(&tiles, 2, 'C'), tiles);
}

#[test]
fn reroll_keeps_the_last_tile() {
    let tiles = vec!['A', 'B', 'C', 'D', 'E'];
    let fresh = vec!['W', 'X', 'Y', 'Z'];
    assert_eq!(reroll(&tiles, &fresh), vec!['W', 'X', 'Y', 'Z', 'E']);
    assert_eq!(reroll(&vec!['A', 'B'], &fresh), vec!['W', 'X']);
    assert_eq!(REROLL_COUNT, 4);
    assert_eq!(TILE_COUNT, 5);
}

#[test]
fn letters_are_the_ascii_letters() {
    for c in '\0'..='\u{ff}' {
        assert_eq!(is_letter(c), c.is_ascii_alphabetic());
        assert_eq!(is_capital(c), c.is_ascii_uppercase());
    }
    assert!(!is_letter('\u{e9}'));
    assert!(!is_capital('\u{c9}'));
}

#[test]
fn string_of_char_holds_one_character() {
    assert_eq!(string_of_char('Q'), "Q");
    assert_eq!(string_of_char('\u{e9}'), "\u{e9}");
}
