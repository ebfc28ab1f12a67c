//! The turn machine and the clock.
//!
//! A game is a word in progress, the bot's tiles, a score and a clock. A
//! keypress opens a round: the human's letter is judged, and where it
//! stands the bot answers with one of its tiles, throwing tiles away for as
//! long as none fits. A round is closed before the next key is heard, and
//! once the clock has run out nothing but the clock moves.
//!
//! The machine decides; it does not wait. Whoever drives it may look words
//! up elsewhere and hand the answers in (`hear_key`, `judge`, `bot_apply`),
//! or hold a [`Dictionary`] and let the machine ask (`press_key`,
//! `bot_step`, `run_bot`).

use vstd::prelude::*;
use vstd::utf8::is_ascii_chars_encode_utf8;
use crate::bot::{
    lemma_pick_tile_rule, lemma_with_capital_tile, pick_tile, spec_pick_tile, PickTileResult,
    TileChoice,
};
use crate::dictionary::{
    byte_length, eval_word, spec_find_extension, spec_is_word, Dictionary, IsPrefix, IsWord,
};
use crate::text::{
    is_capital, is_letter, letter_upper, push_char, string_of_char, upper_letter,
};
use crate::tile::{
    all_capital, random_tile, random_tiles, replace_tile, reroll, rerolled, valid_draw,
    REROLL_COUNT, TILE_COUNT,
};

verus! {

/// The seconds on the clock when a game begins.
pub const GAME_TIME_SECONDS: i32 = 60;

/// The seconds that the human gains when the bot cannot move.
pub const COMPUTER_THWARTED_BOOST: i32 = 5;

/// Where the turn machine stands.
#[derive(Clone, Copy, Debug, PartialEq, Eq, Structural)]
pub enum Phase {
    /// Waiting for a key.
    Idle,
    /// A key was heard, and its letter, in upper case, awaits judgement.
    ResolvingHuman { letter: char },
    /// The human's letter stands and the bot has yet to play a tile.
    BotLoop,
}

/// What became of a keypress.
#[derive(Clone, Copy, Debug, PartialEq, Eq, Structural)]
pub enum KeyOutcome {
    /// Not heard: no letter, a round in progress, or the game over.
    Ignored,
    /// The letter finished a word of more than two letters.
    Completed,
    /// The letter leads to no word; the word in progress is kept.
    Rejected,
    /// The letter stands and the bot is to move.
    Accepted,
}

/// A game as a mathematical value.
pub struct GameView {
    pub word: Seq<char>,
    pub tiles: Seq<char>,
    pub score: int,
    pub secs_remaining: int,
    pub phase: Phase,
}

impl GameView {
    /// The word is one or more capital letters, there are `TILE_COUNT`
    /// tiles, each a capital letter, and a letter that awaits judgement is
    /// a capital letter.
    pub open spec fn wf(self) -> bool {
        &&& self.word.len() >= 1
        &&& all_capital(self.word)
        &&& self.tiles.len() == TILE_COUNT
        &&& all_capital(self.tiles)
        &&& (self.phase matches Phase::ResolvingHuman { letter } ==> is_capital(letter))
    }

    /// The clock has run out.
    pub open spec fn is_over(self) -> bool {
        self.secs_remaining <= 0
    }

    /// A keypress of `ch` opens a round.
    pub open spec fn hears(self, ch: char) -> bool {
        &&& self.phase is Idle
        &&& !self.is_over()
        &&& is_letter(ch)
    }

    /// A letter awaits judgement and the clock still runs.
    pub open spec fn judging(self) -> bool {
        &&& self.phase is ResolvingHuman
        &&& !self.is_over()
    }

    /// The bot is to move and the clock still runs.
    pub open spec fn bot_to_move(self) -> bool {
        &&& self.phase is BotLoop
        &&& !self.is_over()
    }

    /// The score and the clock are far enough from the limits of their
    /// types for any one step to be taken.
    pub open spec fn has_room(self) -> bool {
        &&& i64::MIN < self.score
        &&& self.score + self.word.len() + 1 <= i64::MAX
        &&& i32::MIN < self.secs_remaining
        &&& self.secs_remaining + COMPUTER_THWARTED_BOOST <= i32::MAX
    }

    /// The word that the human proposes with `ch`.
    pub open spec fn candidate(self, ch: char) -> Seq<char> {
        self.word.push(letter_upper(ch))
    }

    /// The word under judgement.
    pub open spec fn pending(self) -> Seq<char> {
        self.word.push(self.phase->letter)
    }

    /// The game after a keypress of `ch`: where the key is heard, its
    /// letter awaits judgement; else nothing changes.
    pub open spec fn after_hear(self, ch: char) -> GameView {
        if self.hears(ch) {
            GameView { phase: Phase::ResolvingHuman { letter: letter_upper(ch) }, ..self }
        } else {
            self
        }
    }

    /// The judgement on the pending word, given whether some longer word
    /// continues it and whether it is a word.
    pub open spec fn judgement(self, continued: bool, is_word: bool) -> KeyOutcome {
        if !self.judging() {
            KeyOutcome::Ignored
        } else if is_word && self.pending().len() > 2 {
            KeyOutcome::Completed
        } else if !continued {
            KeyOutcome::Rejected
        } else {
            KeyOutcome::Accepted
        }
    }

    /// The game after the judgement, where `starter` is the letter that a
    /// new word would begin with.
    pub open spec fn after_judgement(
        self,
        continued: bool,
        is_word: bool,
        starter: char,
    ) -> GameView {
        match self.judgement(continued, is_word) {
            KeyOutcome::Ignored => self,
            KeyOutcome::Completed => GameView {
                word: seq![starter],
                score: self.score - 1,
                phase: Phase::Idle,
                ..self
            },
            KeyOutcome::Rejected => GameView { phase: Phase::Idle, ..self },
            KeyOutcome::Accepted => GameView {
                word: self.pending(),
                phase: Phase::BotLoop,
                ..self
            },
        }
    }

    /// `choice` speaks of this game: its tile is one of the tiles, and its
    /// word is the word in progress with that tile behind it.
    pub open spec fn fits(self, choice: TileChoice) -> bool {
        match choice {
            TileChoice::Complete { index, word } => {
                &&& 0 <= index < self.tiles.len()
                &&& word == self.word.push(self.tiles[index])
            },
            TileChoice::Extend { index, partial, witness } => {
                &&& 0 <= index < self.tiles.len()
                &&& partial == self.word.push(self.tiles[index])
            },
            TileChoice::CannotExtend => true,
        }
    }

    /// The game after the bot's `choice`, where `fresh` holds the letters
    /// that are drawn: for a new word first, then for tiles.
    pub open spec fn after_choice(self, choice: TileChoice, fresh: Seq<char>) -> GameView {
        if !self.bot_to_move() || !self.fits(choice) {
            self
        } else {
            match choice {
                TileChoice::Complete { index, word } => GameView {
                    word: seq![fresh[0]],
                    tiles: self.tiles.update(index, fresh[1]),
                    score: self.score + word.len(),
                    phase: Phase::Idle,
                    ..self
                },
                TileChoice::Extend { index, partial, witness } => GameView {
                    word: partial,
                    tiles: self.tiles.update(index, fresh[0]),
                    phase: Phase::Idle,
                    ..self
                },
                TileChoice::CannotExtend => GameView {
                    tiles: rerolled(self.tiles, fresh),
                    secs_remaining: self.secs_remaining + COMPUTER_THWARTED_BOOST,
                    ..self
                },
            }
        }
    }

    /// What becomes of a keypress of `ch` when `words` is the word list.
    pub open spec fn key_outcome(self, words: Seq<Seq<char>>, ch: char) -> KeyOutcome {
        if self.hears(ch) {
            self.after_hear(ch).judgement(
                spec_find_extension(words, self.candidate(ch)) is Some,
                spec_is_word(words, self.candidate(ch)),
            )
        } else {
            KeyOutcome::Ignored
        }
    }

    /// The game after a keypress of `ch` has been heard and judged by the
    /// word list `words`.
    pub open spec fn after_key(self, words: Seq<Seq<char>>, ch: char, starter: char) -> GameView {
        if self.hears(ch) {
            self.after_hear(ch).after_judgement(
                spec_find_extension(words, self.candidate(ch)) is Some,
                spec_is_word(words, self.candidate(ch)),
                starter,
            )
        } else {
            self
        }
    }

    /// The game after one move of the bot, which chooses its tile by the
    /// word list `words`.
    pub open spec fn after_bot(self, words: Seq<Seq<char>>, fresh: Seq<char>) -> GameView {
        self.after_choice(spec_pick_tile(words, self.word, self.tiles), fresh)
    }

    /// The game after one tick of the clock.
    pub open spec fn after_tick(self) -> GameView {
        GameView { secs_remaining: self.secs_remaining - 1, ..self }
    }

    /// `to` is this game after `moves` moves of the bot, each made while
    /// the bot was to move, whatever letters were drawn.
    pub open spec fn bot_reaches(self, words: Seq<Seq<char>>, to: GameView, moves: nat) -> bool
        decreases moves,
    {
        if moves == 0 {
            to == self
        } else {
            exists|mid: GameView, fresh: Seq<char>|
                {
                    &&& self.bot_reaches(words, mid, (moves - 1) as nat)
                    &&& mid.bot_to_move()
                    &&& valid_draw(fresh)
                    &&& to == #[trigger] mid.after_bot(words, fresh)
                }
        }
    }
}

/// Once the clock has run out the game is frozen: a key is not heard, a
/// letter is not judged, the bot does not move, and the clock stays run
/// out.
pub proof fn lemma_frozen_when_over(
    words: Seq<Seq<char>>,
    g: GameView,
    ch: char,
    continued: bool,
    is_word: bool,
    starter: char,
    choice: TileChoice,
    fresh: Seq<char>,
)
    requires
        g.is_over(),
    ensures
        g.after_hear(ch) == g,
        g.after_judgement(continued, is_word, starter) == g,
        g.after_choice(choice, fresh) == g,
        g.key_outcome(words, ch) is Ignored,
        g.after_key(words, ch, starter) == g,
        g.after_bot(words, fresh) == g,
        g.after_tick().is_over(),
{
}

/// A key that comes while a round is open is dropped: the game stays as
/// it is, so no letter is judged against a word that the round is about to
/// change.
pub proof fn lemma_key_waits_for_round(
    words: Seq<Seq<char>>,
    g: GameView,
    ch: char,
    starter: char,
)
    requires
        !(g.phase is Idle),
    ensures
        g.after_hear(ch) == g,
        g.key_outcome(words, ch) is Ignored,
        g.after_key(words, ch, starter) == g,
{
}

/// Of two keys pressed one behind the other, the second changes nothing
/// while the round of the first is open: neither before the first letter
/// is judged, nor, where it stands, before the bot has played.
pub proof fn lemma_second_key_dropped(
    words: Seq<Seq<char>>,
    g: GameView,
    first: char,
    second: char,
    starter: char,
    other_starter: char,
)
    requires
        g.hears(first),
    ensures
        g.after_hear(first).after_hear(second) == g.after_hear(first),
        g.key_outcome(words, first) is Accepted ==> {
            &&& g.after_key(words, first, starter).phase is BotLoop
            &&& g.after_key(words, first, starter).word == g.candidate(first)
            &&& g.after_key(words, first, starter).after_key(words, second, other_starter)
                == g.after_key(words, first, starter)
        },
{
}

/// A choice that the bot makes by a word list always fits the game that
/// it was made for.
pub proof fn lemma_own_choice_fits(words: Seq<Seq<char>>, g: GameView)
    requires
        g.wf(),
    ensures
        g.fits(spec_pick_tile(words, g.word, g.tiles)),
{
    lemma_pick_tile_rule(words, g.word, g.tiles);
    match spec_pick_tile(words, g.word, g.tiles) {
        TileChoice::Complete { index, word } => {
            lemma_with_capital_tile(g.word, g.tiles[index]);
        },
        TileChoice::Extend { index, partial, witness } => {
            lemma_with_capital_tile(g.word, g.tiles[index]);
        },
        TileChoice::CannotExtend => {},
    }
}

/// Every step keeps the game well formed: the word stays one or more
/// capital letters, and the tiles stay `TILE_COUNT` capital letters.
pub proof fn lemma_steps_keep_wf(
    words: Seq<Seq<char>>,
    g: GameView,
    ch: char,
    continued: bool,
    is_word: bool,
    starter: char,
    choice: TileChoice,
    fresh: Seq<char>,
)
    requires
        g.wf(),
        is_capital(starter),
        valid_draw(fresh),
    ensures
        g.after_hear(ch).wf(),
        g.after_judgement(continued, is_word, starter).wf(),
        g.after_choice(choice, fresh).wf(),
        g.after_key(words, ch, starter).wf(),
        g.after_bot(words, fresh).wf(),
        g.after_tick().wf(),
{
}

/// What a move of the bot does. A tile that is played ends the round and
/// leaves the clock alone: finishing a word adds its length to the score,
/// extending it leaves the score. Where no tile fits, the round stays
/// open, the word and the score stay, the human gains time, and the last
/// tile is kept.
pub proof fn lemma_bot_move_effect(words: Seq<Seq<char>>, g: GameView, fresh: Seq<char>)
    requires
        g.wf(),
        g.bot_to_move(),
        valid_draw(fresh),
    ensures
        match spec_pick_tile(words, g.word, g.tiles) {
            TileChoice::Complete { index, word } => {
                &&& g.after_bot(words, fresh).phase is Idle
                &&& g.after_bot(words, fresh).score == g.score + g.word.len() + 1
                &&& g.after_bot(words, fresh).word == seq![fresh[0]]
                &&& g.after_bot(words, fresh).secs_remaining == g.secs_remaining
            },
            TileChoice::Extend { index, partial, witness } => {
                &&& g.after_bot(words, fresh).phase is Idle
                &&& g.after_bot(words, fresh).score == g.score
                &&& g.after_bot(words, fresh).word == g.word.push(g.tiles[index])
                &&& g.after_bot(words, fresh).secs_remaining == g.secs_remaining
            },
            TileChoice::CannotExtend => {
                &&& g.after_bot(words, fresh).phase is BotLoop
                &&& g.after_bot(words, fresh).score == g.score
                &&& g.after_bot(words, fresh).word == g.word
                &&& g.after_bot(words, fresh).secs_remaining == g.secs_remaining
                    + COMPUTER_THWARTED_BOOST
                &&& g.after_bot(words, fresh).tiles.last() == g.tiles.last()
            },
        },
{
    lemma_own_choice_fits(words, g);
}

/// However many moves the bot makes in a round, the game stays well
/// formed, and the clock never goes back.
pub proof fn lemma_bot_round_keeps_wf(words: Seq<Seq<char>>, g: GameView, to: GameView, moves: nat)
    requires
        g.wf(),
        g.bot_reaches(words, to, moves),
    ensures
        to.wf(),
        to.secs_remaining >= g.secs_remaining,
    decreases moves,
{
    if moves > 0 {
        let (mid, fresh) = choose|mid: GameView, fresh: Seq<char>|
            {
                &&& g.bot_reaches(words, mid, (moves - 1) as nat)
                &&& mid.bot_to_move()
                &&& valid_draw(fresh)
                &&& to == #[trigger] mid.after_bot(words, fresh)
            };
        lemma_bot_round_keeps_wf(words, g, mid, (moves - 1) as nat);
    }
}

/// The letter of a keypress that counts: `key` is one ASCII letter.
pub open spec fn accepted_letter(key: Seq<char>) -> Option<char> {
    if key.len() == 1 && is_letter(key[0]) {
        Some(key[0])
    } else {
        None
    }
}

/// Filters a keypress by the name of its key: a single ASCII letter is
/// handed on, anything else is dropped.
pub fn accepted_key(key: &str) -> (r: Option<char>)
    ensures
        r == accepted_letter(key@),
{
    if key.unicode_len() != 1 {
        return None;
    }
    let ch = key.get_char(0);
    if is_letter(ch) {
        Some(ch)
    } else {
        None
    }
}

/// A game in play.
pub struct Game {
    word: String,
    tiles: Vec<char>,
    score: i64,
    secs_remaining: i32,
    phase: Phase,
}

impl View for Game {
    type V = GameView;

    closed spec fn view(&self) -> GameView {
        GameView {
            word: self.word@,
            tiles: self.tiles@,
            score: self.score as int,
            secs_remaining: self.secs_remaining as int,
            phase: self.phase,
        }
    }
}

impl Game {
    #[verifier::type_invariant]
    spec fn inv(&self) -> bool {
        self@.wf()
    }

    /// A new game: the word is `starter`, the score is 0, the clock is
    /// full. `None` unless `starter` and the `TILE_COUNT` tiles are capital
    /// letters.
    pub fn new(starter: char, tiles: Vec<char>) -> (r: Option<Game>)
        ensures
            match r {
                Some(game) => {
                    &&& is_capital(starter)
                    &&& game@ == GameView {
                        word: seq![starter],
                        tiles: tiles@,
                        score: 0,
                        secs_remaining: GAME_TIME_SECONDS as int,
                        phase: Phase::Idle,
                    }
                    &&& game@.wf()
                },
                None => !(is_capital(starter) && tiles@.len() == TILE_COUNT && all_capital(
                    tiles@,
                )),
            },
    {
        if !is_capital(starter) || tiles.len() != TILE_COUNT {
            return None;
        }
        let mut i: usize = 0;
        while i < tiles.len()
            invariant
                i <= tiles.len(),
                forall|j: int| 0 <= j < i ==> is_capital(#[trigger] tiles@[j]),
            decreases tiles.len() - i,
        {
            if !is_capital(tiles[i]) {
                return None;
            }
            i += 1;
        }
        Some(
            Game {
                word: string_of_char(starter),
                tiles,
                score: 0,
                secs_remaining: GAME_TIME_SECONDS,
                phase: Phase::Idle,
            },
        )
    }

    /// A new game with a starting letter and tiles drawn at random.
    pub fn start() -> (game: Game)
        ensures
            game@.wf(),
            game@.word.len() == 1,
            game@.score == 0,
            game@.secs_remaining == GAME_TIME_SECONDS,
            game@.phase is Idle,
    {
        Game {
            word: string_of_char(random_tile()),
            tiles: random_tiles(TILE_COUNT),
            score: 0,
            secs_remaining: GAME_TIME_SECONDS,
            phase: Phase::Idle,
        }
    }

    /// The word in progress: one or more capital letters.
    pub fn word(&self) -> (r: &str)
        ensures
            r@ == self@.word,
            r@.len() >= 1,
            all_capital(r@),
    {
        proof {
            use_type_invariant(self);
        }
        self.word.as_str()
    }

    /// The bot's tiles: `TILE_COUNT` capital letters.
    pub fn tiles(&self) -> (r: &Vec<char>)
        ensures
            r@ == self@.tiles,
            r@.len() == TILE_COUNT,
            all_capital(r@),
    {
        proof {
            use_type_invariant(self);
        }
        &self.tiles
    }

    /// The score.
    pub fn score(&self) -> (r: i64)
        ensures
            r == self@.score,
    {
        self.score
    }

    /// The seconds left on the clock; negative once it has run past zero.
    pub fn secs_remaining(&self) -> (r: i32)
        ensures
            r == self@.secs_remaining,
    {
        self.secs_remaining
    }

    /// Where the turn machine stands.
    pub fn phase(&self) -> (r: Phase)
        ensures
            r == self@.phase,
    {
        self.phase
    }

    /// Whether the clock has run out.
    pub fn is_over(&self) -> (r: bool)
        ensures
            r == self@.is_over(),
    {
        self.secs_remaining <= 0
    }

    /// Whether the bot is to move: a round is open and the clock runs.
    pub fn bot_to_move(&self) -> (r: bool)
        ensures
            r == self@.bot_to_move(),
    {
        matches!(self.phase, Phase::BotLoop) && self.secs_remaining > 0
    }

    /// Whether the score and the clock leave room for any one step. Every
    /// step asks for no more than this.
    pub fn has_room(&self) -> (r: bool)
        ensures
            r == self@.has_room(),
    {
        proof {
            use_type_invariant(self);
            is_ascii_chars_encode_utf8(self.word@);
        }
        let after = self.score as i128 + byte_length(self.word.as_str()) as i128 + 1;
        i64::MIN < self.score && after <= i64::MAX as i128 && i32::MIN < self.secs_remaining
            && self.secs_remaining <= i32::MAX - COMPUTER_THWARTED_BOOST
    }

    /// One tick of the clock. The clock goes on below zero.
    pub fn tick(&mut self)
        requires
            old(self)@.secs_remaining > i32::MIN,
        ensures
            final(self)@ == old(self)@.after_tick(),
    {
        proof {
            use_type_invariant(&*self);
        }
        self.secs_remaining = self.secs_remaining - 1;
    }

    /// The word in progress with `letter` behind it.
    fn word_with(&self, letter: char) -> (r: String)
        ensures
            r@ == self@.word.push(letter),
    {
        let mut r = self.word.clone();
        push_char(&mut r, letter);
        r
    }

    /// Hears a keypress of `ch`. Where the game waits for a key, the clock
    /// runs and `ch` is a letter, a round opens and the word to be judged
    /// is returned. Any other key is dropped.
    pub fn hear_key(&mut self, ch: char) -> (r: Option<String>)
        ensures
            final(self)@ == old(self)@.after_hear(ch),
            final(self)@.wf(),
            match r {
                Some(candidate) => old(self)@.hears(ch) && candidate@ == old(self)@.candidate(ch),
                None => !old(self)@.hears(ch),
            },
    {
        proof {
            use_type_invariant(&*self);
        }
        if !matches!(self.phase, Phase::Idle) || self.secs_remaining <= 0 || !is_letter(ch) {
            return None;
        }
        let letter = upper_letter(ch);
        let candidate = self.word_with(letter);
        self.phase = Phase::ResolvingHuman { letter };
        Some(candidate)
    }

    /// Judges the letter that awaits judgement, given what the word list
    /// says of the word it makes. `starter` begins the next word if this
    /// one is finished.
    ///
    /// Nothing changes unless a letter awaits judgement and the clock
    /// still runs.
    pub fn judge(&mut self, is_prefix: &IsPrefix, is_word: IsWord, starter: char) -> (r:
        KeyOutcome)
        requires
            is_capital(starter),
            old(self)@.score > i64::MIN,
        ensures
            r == old(self)@.judgement(is_prefix@ is Some, is_word is Yes),
            final(self)@ == old(self)@.after_judgement(is_prefix@ is Some, is_word is Yes, starter),
            final(self)@.wf(),
    {
        proof {
            use_type_invariant(&*self);
        }
        if self.secs_remaining <= 0 {
            return KeyOutcome::Ignored;
        }
        let letter = match self.phase {
            Phase::ResolvingHuman { letter } => letter,
            _ => {
                return KeyOutcome::Ignored;
            },
        };
        let candidate = self.word_with(letter);
        proof {
            is_ascii_chars_encode_utf8(candidate@);
        }
        if matches!(is_word, IsWord::Yes) && byte_length(candidate.as_str()) > 2 {
            self.score = self.score - 1;
            self.word = string_of_char(starter);
            self.phase = Phase::Idle;
            return KeyOutcome::Completed;
        }
        match is_prefix {
            IsPrefix::No => {
                self.phase = Phase::Idle;
                KeyOutcome::Rejected
            },
            IsPrefix::Yes(_) => {
                self.word = candidate;
                self.phase = Phase::BotLoop;
                KeyOutcome::Accepted
            },
        }
    }

    /// Whether `choice` speaks of this game.
    pub fn fits(&self, choice: &PickTileResult) -> (r: bool)
        ensures
            r == self@.fits(choice@),
    {
        proof {
            use_type_invariant(self);
        }
        match choice {
            PickTileResult::Complete { index, word } => {
                *index < self.tiles.len() && *word == self.word_with(self.tiles[*index])
            },
            PickTileResult::Extend { index, partial, witness: _ } => {
                *index < self.tiles.len() && *partial == self.word_with(self.tiles[*index])
            },
            PickTileResult::CannotExtend => true,
        }
    }

    /// Carries out the bot's `choice`. `fresh` holds the letters to draw
    /// from: where the bot finishes a word, the first begins the next word
    /// and the second replaces the tile; where it extends the word, the
    /// first replaces the tile; where it cannot move, they replace the
    /// first `REROLL_COUNT` tiles, the human gains time and the round
    /// stays open.
    ///
    /// Returns whether the choice was carried out. Nothing changes unless
    /// the bot is to move, the clock still runs and the choice fits.
    pub fn bot_apply(&mut self, choice: &PickTileResult, fresh: &Vec<char>) -> (r: bool)
        requires
            valid_draw(fresh@),
            old(self)@.score + old(self)@.word.len() + 1 <= i64::MAX,
            old(self)@.secs_remaining + COMPUTER_THWARTED_BOOST <= i32::MAX,
        ensures
            r == (old(self)@.bot_to_move() && old(self)@.fits(choice@)),
            final(self)@ == old(self)@.after_choice(choice@, fresh@),
            final(self)@.wf(),
    {
        proof {
            use_type_invariant(&*self);
        }
        if !self.bot_to_move() || !self.fits(choice) {
            return false;
        }
        match choice {
            PickTileResult::Complete { index, word } => {
                proof {
                    is_ascii_chars_encode_utf8(word@);
                }
                let gained = byte_length(word.as_str());
                self.score = (self.score as i128 + gained as i128) as i64;
                self.word = string_of_char(fresh[0]);
                self.tiles = replace_tile(&self.tiles, *index, fresh[1]);
                self.phase = Phase::Idle;
            },
            PickTileResult::Extend { index, partial, witness: _ } => {
                self.word = partial.clone();
                self.tiles = replace_tile(&self.tiles, *index, fresh[0]);
                self.phase = Phase::Idle;
            },
            PickTileResult::CannotExtend => {
                self.secs_remaining = self.secs_remaining + COMPUTER_THWARTED_BOOST;
                self.tiles = reroll(&self.tiles, fresh);
            },
        }
        true
    }

    /// Hears a keypress of `ch` and judges its letter by `dict`. `starter`
    /// begins the next word if this one is finished.
    pub fn resolve_key(&mut self, dict: &Dictionary, ch: char, starter: char) -> (r: KeyOutcome)
        requires
            is_capital(starter),
            old(self)@.score > i64::MIN,
        ensures
            r == old(self)@.key_outcome(dict@, ch),
            final(self)@ == old(self)@.after_key(dict@, ch, starter),
            final(self)@.wf(),
    {
        match self.hear_key(ch) {
            None => KeyOutcome::Ignored,
            Some(candidate) => {
                let (is_prefix, is_word) = eval_word(dict, candidate);
                self.judge(&is_prefix, is_word, starter)
            },
        }
    }

    /// Hears a keypress of `ch` and judges its letter by `dict`, drawing at
    /// random the letter that the next word begins with.
    pub fn press_key(&mut self, dict: &Dictionary, ch: char) -> (r: KeyOutcome)
        requires
            old(self)@.score > i64::MIN,
        ensures
            r == old(self)@.key_outcome(dict@, ch),
            exists|starter: char|
                is_capital(starter) && final(self)@ == #[trigger] old(self)@.after_key(
                    dict@,
                    ch,
                    starter,
                ),
            final(self)@.wf(),
    {
        let starter = random_tile();
        self.resolve_key(dict, ch, starter)
    }

    /// One move of the bot, which chooses its tile by `dict` and draws
    /// from `fresh`. Returns the choice, or `None` where the bot was not
    /// to move.
    pub fn bot_move(&mut self, dict: &Dictionary, fresh: &Vec<char>) -> (r: Option<
        PickTileResult,
    >)
        requires
            valid_draw(fresh@),
            old(self)@.score + old(self)@.word.len() + 1 <= i64::MAX,
            old(self)@.secs_remaining + COMPUTER_THWARTED_BOOST <= i32::MAX,
        ensures
            final(self)@ == old(self)@.after_bot(dict@, fresh@),
            final(self)@.wf(),
            match r {
                Some(choice) => {
                    &&& old(self)@.bot_to_move()
                    &&& choice@ == spec_pick_tile(dict@, old(self)@.word, old(self)@.tiles)
                },
                None => !old(self)@.bot_to_move(),
            },
    {
        proof {
            use_type_invariant(&*self);
        }
        if !self.bot_to_move() {
            return None;
        }
        let choice = pick_tile(dict, self.word.clone(), self.tiles.clone());
        proof {
            lemma_own_choice_fits(dict@, self@);
        }
        self.bot_apply(&choice, fresh);
        Some(choice)
    }

    /// One move of the bot, which chooses its tile by `dict` and draws its
    /// letters at random.
    pub fn bot_step(&mut self, dict: &Dictionary) -> (r: Option<PickTileResult>)
        requires
            old(self)@.score + old(self)@.word.len() + 1 <= i64::MAX,
            old(self)@.secs_remaining + COMPUTER_THWARTED_BOOST <= i32::MAX,
        ensures
            exists|fresh: Seq<char>|
                valid_draw(fresh) && final(self)@ == #[trigger] old(self)@.after_bot(dict@, fresh),
            final(self)@.wf(),
            match r {
                Some(choice) => {
                    &&& old(self)@.bot_to_move()
                    &&& choice@ == spec_pick_tile(dict@, old(self)@.word, old(self)@.tiles)
                },
                None => !old(self)@.bot_to_move(),
            },
    {
        let fresh = random_tiles(REROLL_COUNT);
        self.bot_move(dict, &fresh)
    }

    /// Lets the bot move until it has played a tile, the clock has run
    /// out, or `max_moves` moves are made, and returns the number of moves.
    /// Each move that finds no tile throws tiles away and tries again.
    pub fn run_bot(&mut self, dict: &Dictionary, max_moves: usize) -> (moves: usize)
        requires
            old(self)@.score + old(self)@.word.len() + 1 <= i64::MAX,
            old(self)@.secs_remaining + COMPUTER_THWARTED_BOOST * max_moves <= i32::MAX,
        ensures
            moves <= max_moves,
            old(self)@.bot_reaches(dict@, final(self)@, moves as nat),
            moves < max_moves ==> !final(self)@.bot_to_move(),
            final(self)@.wf(),
    {
        proof {
            use_type_invariant(&*self);
        }
        let ghost before = self@;
        let mut moves: usize = 0;
        while moves < max_moves && self.bot_to_move()
            invariant
                moves <= max_moves,
                self@.wf(),
                before.bot_reaches(dict@, self@, moves as nat),
                before.score + before.word.len() + 1 <= i64::MAX,
                before.secs_remaining + COMPUTER_THWARTED_BOOST * max_moves <= i32::MAX,
                self@.bot_to_move() ==> {
                    &&& self@.score == before.score
                    &&& self@.word == before.word
                    &&& self@.secs_remaining == before.secs_remaining + COMPUTER_THWARTED_BOOST
                        * moves
                },
            decreases max_moves - moves,
        {
            let ghost mid = self@;
            self.bot_step(dict);
            proof {
                lemma_own_choice_fits(dict@, mid);
            }
            moves += 1;
        }
        moves
    }
}

} // verus!
