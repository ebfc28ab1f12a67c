//! The word list and its two queries: whether a text is a word, and which
//! word, if any, continues it.

use vstd::prelude::*;
use vstd::utf8::{encode_utf8, is_ascii_chars};
use crate::text::{letter_upper, pop_char, push_char, starts_with, to_upper, uppercase};

verus! {

/// The number of bytes that a text takes in UTF-8, which is the length that
/// `str::len` reports.
pub open spec fn byte_len(s: Seq<char>) -> nat {
    encode_utf8(s).len()
}

/// `word` and `candidate` are the same text but for the case of letters.
pub open spec fn same_word(word: Seq<char>, candidate: Seq<char>) -> bool {
    uppercase(word) == uppercase(candidate)
}

/// `word` takes more bytes than `candidate` does in upper case, and begins
/// with it when both are put in upper case.
pub open spec fn continues(word: Seq<char>, candidate: Seq<char>) -> bool {
    &&& byte_len(word) > byte_len(uppercase(candidate))
    &&& uppercase(candidate).is_prefix_of(uppercase(word))
}

/// Some word of `words` equals `candidate`, case aside.
pub open spec fn spec_is_word(words: Seq<Seq<char>>, candidate: Seq<char>) -> bool {
    exists|i: int| 0 <= i < words.len() && same_word(#[trigger] words[i], candidate)
}

/// `words[i]` continues `candidate`, and no earlier word does.
pub open spec fn first_continuation_at(
    words: Seq<Seq<char>>,
    candidate: Seq<char>,
    i: int,
) -> bool {
    &&& 0 <= i < words.len()
    &&& continues(words[i], candidate)
    &&& forall|j: int| 0 <= j < i ==> !continues(#[trigger] words[j], candidate)
}

/// The first word of `words`, in their order, that continues `candidate`.
pub open spec fn spec_find_extension(words: Seq<Seq<char>>, candidate: Seq<char>) -> Option<
    Seq<char>,
> {
    if exists|i: int| first_continuation_at(words, candidate, i) {
        Some(words[choose|i: int| first_continuation_at(words, candidate, i)])
    } else {
        None
    }
}

/// `text[i]` is the first line feed of `text`.
pub open spec fn first_line_feed_at(text: Seq<char>, i: int) -> bool {
    &&& 0 <= i < text.len()
    &&& text[i] == '\n'
    &&& forall|j: int| 0 <= j < i ==> #[trigger] text[j] != '\n'
}

/// `line` without the carriage return at its end, if it has one.
pub open spec fn without_cr(line: Seq<char>) -> Seq<char> {
    if line.len() > 0 && line.last() == '\r' {
        line.drop_last()
    } else {
        line
    }
}

/// The lines of `text`. A line ends with a line feed, which may follow a
/// carriage return; neither belongs to the line. What stands behind the
/// last line feed is a line too, unless it is empty.
pub open spec fn split_lines(text: Seq<char>) -> Seq<Seq<char>>
    decreases text.len(),
{
    if text.len() == 0 {
        Seq::empty()
    } else if exists|i: int| first_line_feed_at(text, i) {
        let i = choose|i: int| first_line_feed_at(text, i);
        seq![without_cr(text.take(i))] + split_lines(text.skip(i + 1))
    } else {
        seq![text]
    }
}

/// The texts of `lines` that are not empty, in the same order.
pub open spec fn nonempty_lines(lines: Seq<Seq<char>>) -> Seq<Seq<char>> {
    lines.filter(|w: Seq<char>| w.len() > 0)
}

/// The views of a vector of strings.
pub open spec fn texts(v: Seq<String>) -> Seq<Seq<char>> {
    v.map_values(|s: String| s@)
}

/// Whether a text begins some longer word, and which one shows it.
#[derive(Debug, PartialEq, Eq)]
pub enum IsPrefix {
    /// The text could grow into this word.
    Yes(String),
    /// No word begins with the text and is longer.
    No,
}

impl View for IsPrefix {
    type V = Option<Seq<char>>;

    open spec fn view(&self) -> Option<Seq<char>> {
        match self {
            IsPrefix::Yes(witness) => Some(witness@),
            IsPrefix::No => None,
        }
    }
}

/// Whether a text is a word.
#[derive(Clone, Copy, Debug, PartialEq, Eq, Structural)]
pub enum IsWord {
    Yes,
    No,
}

/// The length of `s` in bytes.
pub(crate) fn byte_length(s: &str) -> (n: usize)
    ensures
        n == byte_len(s@),
{
    s.as_bytes().len()
}

/// Splits `text` into its lines.
pub fn lines_of(text: &str) -> (lines: Vec<String>)
    ensures
        texts(lines@) == split_lines(text@),
{
    let mut lines: Vec<String> = Vec::new();
    let mut line = String::new();
    let mut last: Option<char> = None;
    proof {
        assert(line@ + text@.skip(0) == text@);
    }
    let chars = text.chars();
    for c in it: chars
        invariant
            it.seq() == text@,
            forall|j: int| 0 <= j < line@.len() ==> #[trigger] line@[j] != '\n',
            last == if line@.len() > 0 {
                Some(line@.last())
            } else {
                None
            },
            split_lines(text@) == texts(lines@) + split_lines(line@ + text@.skip(it.index())),
    {
        let ghost i = it.index();
        let ghost rest = line@ + text@.skip(i);
        if c == '\n' {
            proof {
                let at = line@.len() as int;
                assert(first_line_feed_at(rest, at));
                assert(rest.take(at) == line@);
                assert(rest.skip(at + 1) == Seq::<char>::empty() + text@.skip(i + 1));
            }
            if last == Some('\r') {
                pop_char(&mut line);
            }
            lines.push(line);
            line = String::new();
            last = None;
        } else {
            push_char(&mut line, c);
            last = Some(c);
            assert(line@ + text@.skip(i + 1) == rest);
        }
    }
    if last.is_some() {
        lines.push(line);
    }
    lines
}

/// A word list, fixed once built. Words keep the order in which they were
/// given, and none is empty.
pub struct Dictionary {
    words: Vec<String>,
    folded: Vec<String>,
}

impl View for Dictionary {
    type V = Seq<Seq<char>>;

    closed spec fn view(&self) -> Seq<Seq<char>> {
        texts(self.words@)
    }
}

impl Dictionary {
    #[verifier::type_invariant]
    spec fn inv(&self) -> bool {
        &&& self.folded@.len() == self.words@.len()
        &&& forall|i: int|
            0 <= i < self.words@.len() ==> {
                &&& (#[trigger] self.words@[i])@.len() > 0
                &&& self.folded@[i]@ == uppercase(self.words@[i]@)
            }
    }

    /// Builds the word list from `words`, leaving out the empty ones.
    pub fn new(words: Vec<String>) -> (dict: Dictionary)
        ensures
            dict@ == nonempty_lines(texts(words@)),
            forall|i: int| 0 <= i < dict@.len() ==> (#[trigger] dict@[i]).len() > 0,
    {
        let mut kept: Vec<String> = Vec::new();
        let mut folded: Vec<String> = Vec::new();
        let mut i: usize = 0;
        while i < words.len()
            invariant
                i <= words.len(),
                folded@.len() == kept@.len(),
                texts(kept@) == nonempty_lines(texts(words@).take(i as int)),
                forall|k: int|
                    0 <= k < kept@.len() ==> {
                        &&& (#[trigger] kept@[k])@.len() > 0
                        &&& folded@[k]@ == uppercase(kept@[k]@)
                    },
            decreases words.len() - i,
        {
            let w = &words[i];
            proof {
                let all = texts(words@);
                assert(all.take(i as int + 1) == all.take(i as int).push(w@));
                all.take(i as int).lemma_filter_push(w@, |w: Seq<char>| w.len() > 0);
            }
            if !w.as_str().is_empty() {
                folded.push(to_upper(w.as_str()));
                kept.push(w.clone());
            }
            i += 1;
        }
        assert(texts(words@).take(words@.len() as int) == texts(words@));
        Dictionary { words: kept, folded }
    }

    /// Builds the word list from a text that holds one word on each line.
    /// Empty lines are left out.
    pub fn from_text(text: &str) -> (dict: Dictionary)
        ensures
            dict@ == nonempty_lines(split_lines(text@)),
            forall|i: int| 0 <= i < dict@.len() ==> (#[trigger] dict@[i]).len() > 0,
    {
        Dictionary::new(lines_of(text))
    }

    /// The number of words.
    pub fn len(&self) -> (n: usize)
        ensures
            n == self@.len(),
    {
        self.words.len()
    }

    /// The word at `index`, counted from 0 in the order of the list.
    pub fn get(&self, index: usize) -> (r: Option<&str>)
        ensures
            match r {
                Some(w) => index < self@.len() && w@ == self@[index as int] && w@.len() > 0,
                None => index >= self@.len(),
            },
    {
        proof {
            use_type_invariant(self);
        }
        if index < self.words.len() {
            Some(self.words[index].as_str())
        } else {
            None
        }
    }

    /// Whether `candidate` is a word of the list, case aside.
    pub fn is_word(&self, candidate: &str) -> (r: bool)
        ensures
            r == spec_is_word(self@, candidate@),
    {
        proof {
            use_type_invariant(self);
        }
        let wanted = to_upper(candidate);
        let mut i: usize = 0;
        while i < self.folded.len()
            invariant
                self.inv(),
                wanted@ == uppercase(candidate@),
                forall|j: int| 0 <= j < i ==> !same_word(#[trigger] self@[j], candidate@),
            decreases self.folded.len() - i,
        {
            if self.folded[i] == wanted {
                assert(same_word(self@[i as int], candidate@));
                return true;
            }
            i += 1;
        }
        false
    }

    /// The first word of the list that is longer than `candidate` and
    /// begins with it, case aside.
    pub fn find_extension(&self, candidate: &str) -> (r: Option<String>)
        ensures
            match r {
                Some(w) => spec_find_extension(self@, candidate@) == Some(w@),
                None => spec_find_extension(self@, candidate@) is None,
            },
    {
        proof {
            use_type_invariant(self);
        }
        let wanted = to_upper(candidate);
        let wanted_len = byte_length(wanted.as_str());
        let mut i: usize = 0;
        while i < self.words.len()
            invariant
                self.inv(),
                wanted@ == uppercase(candidate@),
                wanted_len == byte_len(wanted@),
                forall|j: int| 0 <= j < i ==> !continues(#[trigger] self@[j], candidate@),
            decreases self.words.len() - i,
        {
            if byte_length(self.words[i].as_str()) > wanted_len && starts_with(
                self.folded[i].as_str(),
                wanted.as_str(),
            ) {
                assert(first_continuation_at(self@, candidate@, i as int));
                return Some(self.words[i].clone());
            }
            i += 1;
        }
        None
    }
}

/// A text that holds a line feed holds a first one.
proof fn lemma_line_feed_has_first(text: Seq<char>, upto: int)
    requires
        0 <= upto < text.len(),
        text[upto] == '\n',
    ensures
        exists|i: int| first_line_feed_at(text, i),
    decreases upto,
{
    if exists|k: int| 0 <= k < upto && #[trigger] text[k] == '\n' {
        let k = choose|k: int| 0 <= k < upto && #[trigger] text[k] == '\n';
        lemma_line_feed_has_first(text, k);
    } else {
        assert(first_line_feed_at(text, upto));
    }
}

/// No line holds a line feed.
pub proof fn lemma_lines_hold_no_line_feed(text: Seq<char>)
    ensures
        forall|i: int, j: int|
            0 <= i < split_lines(text).len() && 0 <= j < split_lines(text)[i].len()
                ==> #[trigger] split_lines(text)[i][j] != '\n',
    decreases text.len(),
{
    if text.len() > 0 {
        if exists|k: int| first_line_feed_at(text, k) {
            let k = choose|k: int| first_line_feed_at(text, k);
            let first = without_cr(text.take(k));
            let rest = split_lines(text.skip(k + 1));
            lemma_lines_hold_no_line_feed(text.skip(k + 1));
            assert forall|i: int, j: int|
                0 <= i < split_lines(text).len() && 0 <= j < split_lines(text)[i].len()
                    implies #[trigger] split_lines(text)[i][j] != '\n' by {
                if i == 0 {
                    assert(first[j] == text[j]);
                } else {
                    assert(split_lines(text)[i] == rest[i - 1]);
                }
            }
        } else {
            assert forall|j: int| 0 <= j < text.len() implies text[j] != '\n' by {
                if text[j] == '\n' {
                    lemma_line_feed_has_first(text, j);
                }
            }
        }
    }
}

/// At most one word is the first to continue `candidate`.
pub proof fn lemma_first_continuation_unique(
    words: Seq<Seq<char>>,
    candidate: Seq<char>,
    i: int,
    j: int,
)
    requires
        first_continuation_at(words, candidate, i),
        first_continuation_at(words, candidate, j),
    ensures
        i == j,
{
}

/// The word that `spec_find_extension` gives is the first of the list, in
/// its order, that continues `candidate`; it gives none only if no word of
/// the list continues `candidate`.
pub proof fn lemma_find_extension_rule(words: Seq<Seq<char>>, candidate: Seq<char>)
    ensures
        match spec_find_extension(words, candidate) {
            Some(w) => exists|i: int|
                first_continuation_at(words, candidate, i) && #[trigger] words[i] == w,
            None => forall|i: int|
                0 <= i < words.len() ==> !continues(#[trigger] words[i], candidate),
        },
{
    if !exists|i: int| first_continuation_at(words, candidate, i) {
        assert forall|i: int| 0 <= i < words.len() implies !continues(
            #[trigger] words[i],
            candidate,
        ) by {
            if continues(words[i], candidate) {
                lemma_continuation_has_first(words, candidate, i);
            }
        }
    }
}

/// Where some word up to `upto` continues `candidate`, one of them is the
/// first to do so.
proof fn lemma_continuation_has_first(words: Seq<Seq<char>>, candidate: Seq<char>, upto: int)
    requires
        0 <= upto < words.len(),
        continues(words[upto], candidate),
    ensures
        exists|i: int| first_continuation_at(words, candidate, i),
    decreases upto,
{
    if exists|k: int| 0 <= k < upto && continues(#[trigger] words[k], candidate) {
        let k = choose|k: int| 0 <= k < upto && continues(#[trigger] words[k], candidate);
        lemma_continuation_has_first(words, candidate, k);
    } else {
        assert(first_continuation_at(words, candidate, upto));
    }
}

/// Lookups do not see the case of letters: two candidates with the same
/// upper-case form get the same answers from every word list.
pub proof fn lemma_lookup_ignores_case(words: Seq<Seq<char>>, a: Seq<char>, b: Seq<char>)
    requires
        uppercase(a) == uppercase(b),
    ensures
        spec_is_word(words, a) == spec_is_word(words, b),
        spec_find_extension(words, a) == spec_find_extension(words, b),
{
    assert forall|i: int| first_continuation_at(words, a, i) == first_continuation_at(
        words,
        b,
        i,
    ) by {
        assert forall|w: Seq<char>| continues(w, a) == continues(w, b) by {}
    }
    if exists|i: int| first_continuation_at(words, a, i) {
        let i = choose|i: int| first_continuation_at(words, a, i);
        let j = choose|j: int| first_continuation_at(words, b, j);
        lemma_first_continuation_unique(words, a, i, j);
    }
}

/// Two ASCII texts that agree letter for letter, case aside, have the same
/// upper-case form.
pub proof fn lemma_ascii_case(a: Seq<char>, b: Seq<char>)
    requires
        is_ascii_chars(a),
        is_ascii_chars(b),
        a.len() == b.len(),
        forall|i: int| 0 <= i < a.len() ==> letter_upper(#[trigger] a[i]) == letter_upper(b[i]),
    ensures
        uppercase(a) == uppercase(b),
{
}

/// A lookup is a function of the word list and the candidate alone: the
/// same question has the same answer, whichever dictionary holds the list
/// and however often it is asked.
pub proof fn lemma_lookup_is_repeatable(
    first: Dictionary,
    second: Dictionary,
    candidate: Seq<char>,
    again: Seq<char>,
)
    requires
        first@ == second@,
        candidate == again,
    ensures
        spec_is_word(first@, candidate) == spec_is_word(second@, again),
        spec_find_extension(first@, candidate) == spec_find_extension(second@, again),
{
}

/// The empty text is a candidate like any other: it is no word of a list
/// of ASCII words, and the first word of the list continues it.
pub proof fn lemma_empty_candidate(words: Seq<Seq<char>>)
    requires
        forall|i: int| 0 <= i < words.len() ==> (#[trigger] words[i]).len() > 0,
    ensures
        (forall|i: int| 0 <= i < words.len() ==> is_ascii_chars(#[trigger] words[i]))
            ==> !spec_is_word(words, Seq::empty()),
        words.len() > 0 ==> spec_find_extension(words, Seq::empty()) == Some(words[0]),
        words.len() == 0 ==> spec_find_extension(words, Seq::empty()) is None,
{
    let nothing = Seq::<char>::empty();
    if words.len() > 0 {
        let w = words[0];
        assert(encode_utf8(w).len() > 0) by {
            assert(encode_utf8(w) == vstd::utf8::encode_scalar(w[0] as u32) + encode_utf8(
                w.drop_first(),
            ));
        }
        assert(first_continuation_at(words, nothing, 0));
        let i = choose|i: int| first_continuation_at(words, nothing, i);
        lemma_first_continuation_unique(words, nothing, i, 0);
    }
}

/// Answers both questions about `candidate` at once: which word continues
/// it, if any, and whether it is a word itself.
pub fn eval_word(dict: &Dictionary, candidate: String) -> (r: (IsPrefix, IsWord))
    ensures
        r.0@ == spec_find_extension(dict@, candidate@),
        (r.1 is Yes) == spec_is_word(dict@, candidate@),
{
    let is_prefix = match dict.find_extension(candidate.as_str()) {
        None => IsPrefix::No,
        Some(w) => IsPrefix::Yes(w),
    };
    let is_word = if dict.is_word(candidate.as_str()) {
        IsWord::Yes
    } else {
        IsWord::No
    };
    (is_prefix, is_word)
}

} // verus!
