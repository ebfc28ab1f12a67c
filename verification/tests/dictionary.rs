use wordgame::dictionary::{eval_word, lines_of, Dictionary, IsPrefix, IsWord};

fn dict(words: &[&str]) -> Dictionary {
    Dictionary::new(words.iter().map(|w| w.to_string()).collect())
}

#[test]
fn is_word_ignores_case() {
    for d in [dict(&["CAT"]), dict(&["cat"]), dict(&["Cat", "dog"]), dict(&["DOG"]), dict(&[])] {
        let lower = d.is_word("cat");
        assert_eq!(lower, d.is_word("CAT"));
        assert_eq!(lower, d.is_word("Cat"));
    }
    assert!(dict(&["CAT"]).is_word("cat"));
    assert!(dict(&["cat"]).is_word("CAT"));
    assert!(!dict(&["DOG"]).is_word("Cat"));
}

#[test]
fn is_word_is_exact_membership() {
    let d = dict(&["CAT", "CATS", "DOG"]);
    assert!(d.is_word("CAT"));
    assert!(d.is_word("CATS"));
    assert!(!d.is_word("CA"));
    assert!(!d.is_word("CATSS"));
    assert!(!d.is_word(""));
}

#[test]
fn is_word_folds_letters_beyond_ascii() {
    let d = dict(&["\u{c9}CLAIR"]);
    assert!(d.is_word("\u{e9}clair"));
    assert!(d.is_word("\u{c9}CLAIR"));
    assert!(!d.is_word("ECLAIR"));
    let lower = dict(&["\u{e9}clair"]);
    assert!(lower.is_word("\u{c9}CLAIR"));
}

#[test]
fn find_extension_takes_the_first_word_in_order() {
    let d = dict(&["DOG", "CATTLE", "CATS", "CAT"]);
    assert_eq!(d.find_extension("CA"), Some("CATTLE".to_string()));
    assert_eq!(d.find_extension("CAT"), Some("CATTLE".to_string()));
    assert_eq!(d.find_extension("CATS"), None);
    let other = dict(&["CATS", "CATTLE"]);
    assert_eq!(other.find_extension("CA"), Some("CATS".to_string()));
}

#[test]
fn find_extension_wants_a_strictly_longer_word() {
    let d = dict(&["CAT"]);
    assert_eq!(d.find_extension("CAT"), None);
    assert_eq!(d.find_extension("CA"), Some("CAT".to_string()));
    assert_eq!(d.find_extension("CATS"), None);
    assert_eq!(d.find_extension("DO"), None);
}

#[test]
fn find_extension_ignores_case_and_returns_the_word_as_stored() {
    let d = dict(&["Cattle", "cats"]);
    assert_eq!(d.find_extension("ca"), Some("Cattle".to_string()));
    assert_eq!(d.find_extension("CATS"), None);
    assert_eq!(d.find_extension("cAtT"), Some("Cattle".to_string()));
}

#[test]
fn find_extension_folds_letters_beyond_ascii() {
    let d = dict(&["caf\u{e9}s"]);
    assert_eq!(d.find_extension("CAF\u{c9}"), Some("caf\u{e9}s".to_string()));
    assert_eq!(d.find_extension("caf\u{e9}"), Some("caf\u{e9}s".to_string()));
    assert_eq!(d.find_extension("CAFE"), None);
}

#[test]
fn empty_candidate_is_no_special_case() {
    let d = dict(&["DOG", "CAT"]);
    assert!(!d.is_word(""));
    assert_eq!(d.find_extension(""), Some("DOG".to_string()));
    let nothing = dict(&[]);
    assert!(!nothing.is_word(""));
    assert_eq!(nothing.find_extension(""), None);
}

#[test]
fn lookups_give_the_same_answer_twice() {
    let d = dict(&["FIE", "FIELD", "CAT"]);
    for candidate in ["FI", "fie", "CAT", "", "ZZ"] {
        assert_eq!(d.is_word(candidate), d.is_word(candidate));
        assert_eq!(d.find_extension(candidate), d.find_extension(candidate));
    }
    assert_eq!(d.len(), 3);
    assert_eq!(d.find_extension("FI"), Some("FIE".to_string()));
    assert_eq!(d.find_extension("FI"), Some("FIE".to_string()));
}

#[test]
fn new_leaves_out_empty_words() {
    let d = dict(&["", "CAT", "", "DOG", ""]);
    assert_eq!(d.len(), 2);
    assert!(!d.is_word(""));
    assert_eq!(d.find_extension(""), Some("CAT".to_string()));
}

#[test]
fn eval_word_answers_both_questions() {
    let d = dict(&["FIE", "FIELD"]);
    assert_eq!(eval_word(&d, "FI".to_string()), (IsPrefix::Yes("FIE".to_string()), IsWord::No));
    assert_eq!(eval_word(&d, "fie".to_string()), (IsPrefix::Yes("FIELD".to_string()), IsWord::Yes));
    assert_eq!(eval_word(&d, "FIELD".to_string()), (IsPrefix::No, IsWord::Yes));
    assert_eq!(eval_word(&d, "FO".to_string()), (IsPrefix::No, IsWord::No));
}

#[test]
fn lines_of_splits_as_the_standard_library_does() {
    let texts = [
        "",
        "\n",
        "a",
        "a\n",
        "a\nb",
        "a\nb\n",
        "a\n\nb",
        "a\r\nb\r\n",
        "abc\r",
        "a\rb\n",
        "a\r\r\n",
        "\r\n",
        "\r",
        "\n\n",
        "caf\u{e9}\nna\u{ef}ve\r\n\u{e9}",
    ];
    for text in texts {
        let expected: Vec<String> = text.lines().map(|l| l.to_string()).collect();
        assert_eq!(lines_of(text), expected, "for {:?}", text);
    }
    assert_eq!(lines_of("a\r\nb\n\nc"), vec!["a", "b", "", "c"]);
    assert_eq!(lines_of("abc\r"), vec!["abc\r"]);
}

#[test]
fn from_text_reads_one_word_a_line() {
    let d = Dictionary::from_text("cat\nDOG\r\n\nfie\n");
    assert_eq!(d.len(), 3);
    assert!(d.is_word("CAT"));
    assert!(d.is_word("dog"));
    assert!(d.is_word("Fie"));
    assert_eq!(d.find_extension("D"), Some("DOG".to_string()));
    assert_eq!(d.find_extension(""), Some("cat".to_string()));
    assert_eq!(Dictionary::from_text("").len(), 0);
}

#[test]
fn get_gives_the_words_in_order() {
    let d = dict(&["", "cat", "DOG"]);
    assert_eq!(d.get(0), Some("cat"));
    assert_eq!(d.get(1), Some("DOG"));
    assert_eq!(d.get(2), None);
    assert_eq!(dict(&[]).get(0), None);
}
