use vstd::prelude::*;

use crate::db::{DailyResult, DatabaseManager};
use crate::game::state::{evaluation, Game, GameModel, LetterState, Phase, MAX_ATTEMPTS, WORD_LENGTH};
use crate::persian::spec_normalize_str;
use crate::text::push_char;
use crate::ui::keyboard::KeyEvent;

verus! {

/// Daily play (the word of the day, result saved) or practice (random words).
#[derive(Clone, Copy, Debug, PartialEq, Eq, Structural)]
pub enum GameMode {
    Daily,
    Practice,
}

/// The answer used when the word list is empty.
pub open spec fn placeholder_answer() -> Seq<char> {
    seq!['?', '?', '?', '?', '?']
}

fn placeholder() -> (r: String)
    ensures
        r@ == placeholder_answer(),
{
    let mut s = String::new();
    let mut i: usize = 0;
    while i < WORD_LENGTH
        invariant
            i <= WORD_LENGTH,
            s@ == Seq::new(i as nat, |k: int| '?'),
        decreases WORD_LENGTH - i,
    {
        push_char(&mut s, '?');
        i = i + 1;
        assert(s@ =~= Seq::new(i as nat, |k: int| '?'));
    }
    assert(s@ =~= placeholder_answer());
    s
}

/// The query that gives the first candidate answer.
#[derive(Clone, Copy, Debug, PartialEq, Eq, Structural)]
pub enum WordQuery {
    /// `DatabaseManager::daily_word` for the day.
    WordOfDay,
    /// `DatabaseManager::random_word`.
    Random,
}

/// Daily mode asks for the word of the day, practice mode for a random word.
pub fn first_query(mode: GameMode) -> (r: WordQuery)
    ensures
        r == (if mode == GameMode::Daily {
            WordQuery::WordOfDay
        } else {
            WordQuery::Random
        }),
{
    match mode {
        GameMode::Daily => WordQuery::WordOfDay,
        GameMode::Practice => WordQuery::Random,
    }
}

/// The answer chosen from what the word list gave: the first candidate when there is
/// one; otherwise `?????` when the list is empty, else the fallback random word, or
/// `?????` when that cannot be had either.
pub open spec fn chosen_answer(first: Option<Seq<char>>, count: nat, fallback: Option<Seq<char>>) -> Seq<char> {
    match first {
        Some(w) => w,
        None => if count == 0 {
            placeholder_answer()
        } else {
            match fallback {
                Some(w) => w,
                None => placeholder_answer(),
            }
        },
    }
}

/// See `chosen_answer`.
pub fn choose_answer(first: Option<String>, count: usize, fallback: Option<String>) -> (r: String)
    ensures
        r@ == chosen_answer(
            match first {
                Some(w) => Some(w@),
                None => None,
            },
            count as nat,
            match fallback {
                Some(w) => Some(w@),
                None => None,
            },
        ),
{
    match first {
        Some(w) => w,
        None => {
            if count == 0 {
                placeholder()
            } else {
                match fallback {
                    Some(w) => w,
                    None => placeholder(),
                }
            }
        },
    }
}

/// The answer of a new game: the word of the day `day` in daily mode, a random word in
/// practice mode; when that word cannot be had, a random word, and `?????` when the list
/// is empty (see `first_query` and `choose_answer`). The answer is always normalized.
pub fn pick_word(db: &DatabaseManager, mode: GameMode, day: usize) -> (r: String)
    ensures
        r@ == spec_normalize_str(r@),
{
    let first = match first_query(mode) {
        WordQuery::WordOfDay => db.daily_word(day),
        WordQuery::Random => db.random_word(),
    };
    let missing = first.is_none();
    let count: usize = if missing {
        db.word_count()
    } else {
        0
    };
    let fallback = if missing && count != 0 {
        db.random_word()
    } else {
        None
    };
    let r = choose_answer(first, count, fallback);
    assert(spec_normalize_str(placeholder_answer()) =~= placeholder_answer());
    r
}

/// What is recorded when a row ends the game: whether it was won, the number of guesses
/// to count (0 for a loss), and whether the day's result is saved (in daily mode).
#[derive(Clone, Copy, Debug, PartialEq, Eq, Structural)]
pub struct FinishAction {
    pub won: bool,
    pub guess_count: usize,
    pub save_daily: bool,
}

/// The record to make once row `row` has been scored and the game is in `phase`: a win
/// counts `row + 1` guesses, a loss none, and a game still on records nothing.
pub fn finish_action(phase: Phase, row: usize, mode: GameMode) -> (r: Option<FinishAction>)
    requires
        row < usize::MAX,
    ensures
        r == (match phase {
            Phase::Won => Some(
                FinishAction { won: true, guess_count: (row + 1) as usize, save_daily: mode == GameMode::Daily },
            ),
            Phase::Lost => Some(FinishAction { won: false, guess_count: 0, save_daily: mode == GameMode::Daily }),
            Phase::Playing => None,
        }),
{
    let save_daily = mode == GameMode::Daily;
    match phase {
        Phase::Won => Some(FinishAction { won: true, guess_count: row + 1, save_daily }),
        Phase::Lost => Some(FinishAction { won: false, guess_count: 0, save_daily }),
        Phase::Playing => None,
    }
}

/// The game to start in daily mode: the saved game of the day, replayed from its
/// guesses, when it was played on the same answer (`true`), or a new game (`false`).
pub fn resume_daily_game(daily_answer: String, saved: Option<DailyResult>) -> (r: (Game, bool))
    requires
        daily_answer@.len() == WORD_LENGTH,
    ensures
        r.0.wf(),
        r.1 == (saved matches Some(s) && s.answer@ == daily_answer@),
        r.1 ==> r.0@ == GameModel::fresh(daily_answer@).replay(saved->0.guesses.deep_view()),
        !r.1 ==> r.0@ == GameModel::fresh(daily_answer@),
{
    match saved {
        Some(result) => {
            if result.answer == daily_answer {
                let g = Game::restore_with_guesses(result.answer, result.guesses.as_slice());
                (g, true)
            } else {
                (Game::new(daily_answer), false)
            }
        },
        None => (Game::new(daily_answer), false),
    }
}

/// What the window shows in answer to a key.
#[derive(Debug)]
pub enum KeyResponse {
    /// Nothing changes.
    Ignored,
    /// `letter` was written in cell `col` of row `row`.
    Typed { row: usize, col: usize, letter: char },
    /// Cell `col` of row `row` was emptied.
    Erased { row: usize, col: usize },
    /// Enter on a row that is not full.
    NotEnoughLetters,
    /// Enter on a row that is not a word of the list.
    UnknownWord,
    /// The game refused the row with this message.
    Refused(&'static str),
    /// Row `row` was scored `result`; the game is now in `phase`, and `answer` is its answer.
    Scored { row: usize, result: [LetterState; WORD_LENGTH], phase: Phase, answer: String },
}

/// Enter, once it is known whether the typed row is a word of the list: a finished game
/// ignores it, a row that is not full or not a word is refused, and any other row is
/// submitted and scored.
pub fn answer_enter(game: &mut Game, word_known: bool) -> (r: KeyResponse)
    requires
        old(game).wf(),
    ensures
        final(game).wf(),
        old(game).phase != Phase::Playing ==> r is Ignored && final(game)@ == old(game)@,
        old(game).phase == Phase::Playing && old(game).current_col < WORD_LENGTH
            ==> r is NotEnoughLetters && final(game)@ == old(game)@,
        old(game)@.can_submit() && !word_known ==> r is UnknownWord && final(game)@ == old(
            game,
        )@,
        old(game)@.can_submit() && word_known ==> final(game)@ == old(game)@.submitted() && (
        r matches KeyResponse::Scored { row, result, phase, answer } && row == old(game).current_row
            && result@ == evaluation(old(game)@.row_word(old(game)@.row), old(game)@.answer)
            && phase == final(game).phase && answer@ == old(game)@.answer),
{
    if game.phase != Phase::Playing {
        return KeyResponse::Ignored;
    }
    if game.current_col < WORD_LENGTH {
        return KeyResponse::NotEnoughLetters;
    }
    if !word_known {
        return KeyResponse::UnknownWord;
    }
    match game.submit_guess() {
        Ok(result) => KeyResponse::Scored {
            row: game.current_row - 1,
            result,
            phase: game.phase,
            answer: game.answer_string(),
        },
        Err(e) => KeyResponse::Refused(e),
    }
}

/// Handles a key press on the game: a letter fills the next cell, backspace empties the
/// last one, and Enter submits the row when it is full and a word of the list. When the
/// row ends the game, the game is counted in the statistics and, in daily mode, the
/// day's result is saved under `today`.
pub fn handle_key(
    game: &mut Game,
    db: &DatabaseManager,
    mode: GameMode,
    today: &str,
    event: KeyEvent,
) -> (r: KeyResponse)
    requires
        old(game).wf(),
    ensures
        final(game).wf(),
        event matches KeyEvent::Letter(c) ==> if old(game)@.can_type() {
            final(game)@ == old(game)@.typed(c) && (r matches KeyResponse::Typed {
                row,
                col,
                letter,
            } && row == old(game).current_row && col == old(game).current_col && letter == c)
        } else {
            r is Ignored && final(game)@ == old(game)@
        },
        event is Backspace ==> if old(game).phase == Phase::Playing && old(game).current_col > 0 {
            final(game)@ == old(game)@.erased() && (r matches KeyResponse::Erased { row, col }
                && row == old(game).current_row && col == old(game).current_col - 1)
        } else {
            r is Ignored && final(game)@ == old(game)@
        },
        event is Enter && old(game).phase != Phase::Playing ==> r is Ignored && final(game)@
            == old(game)@,
        event is Enter && old(game).phase == Phase::Playing && old(game).current_col
            < WORD_LENGTH ==> r is NotEnoughLetters && final(game)@ == old(game)@,
        event is Enter && old(game)@.can_submit() ==> (r is UnknownWord && final(game)@ == old(
            game,
        )@) || (final(game)@ == old(game)@.submitted() && (r matches KeyResponse::Scored {
            row,
            result,
            phase,
            answer,
        } && row == old(game).current_row && result@ == evaluation(
            old(game)@.row_word(old(game)@.row),
            old(game)@.answer,
        ) && phase == final(game).phase && answer@ == old(game)@.answer)),
{
    match event {
        KeyEvent::Letter(c) => {
            if game.phase != Phase::Playing || game.current_col >= WORD_LENGTH {
                return KeyResponse::Ignored;
            }
            let row: usize = game.current_row;
            let col: usize = game.current_col;
            match game.type_letter(c) {
                Ok(()) => KeyResponse::Typed { row, col, letter: c },
                Err(()) => KeyResponse::Ignored,
            }
        },
        KeyEvent::Backspace => {
            if game.phase != Phase::Playing || game.current_col == 0 {
                return KeyResponse::Ignored;
            }
            let row: usize = game.current_row;
            let col: usize = game.current_col - 1;
            game.delete_letter();
            KeyResponse::Erased { row, col }
        },
        KeyEvent::Enter => {
            if game.phase != Phase::Playing {
                return KeyResponse::Ignored;
            }
            if game.current_col < WORD_LENGTH {
                return KeyResponse::NotEnoughLetters;
            }
            let guess = game.current_guess_string();
            let known = db.is_valid_word(guess.as_str());
            let response = answer_enter(game, known);
            if let KeyResponse::Scored { row, phase, answer, .. } = &response {
                if let Some(action) = finish_action(*phase, *row, mode) {
                    let _ = db.record_game(action.won, action.guess_count);
                    if action.save_daily {
                        let guesses = game.guesses();
                        let _ = db.save_daily_result(
                            today,
                            answer.as_str(),
                            action.won,
                            guesses.as_slice(),
                        );
                    }
                }
            }
            response
        },
    }
}

/// The square that stands for a colour in a shared result.
pub open spec fn state_square(s: Option<LetterState>) -> Seq<char> {
    match s {
        Some(LetterState::Correct) => seq!['\u{1F7E9}'],
        Some(LetterState::Misplaced) => seq!['\u{1F7E8}'],
        Some(LetterState::Absent) => seq!['\u{2B1B}'],
        _ => Seq::empty(),
    }
}

/// The squares of the first `k` cells of a row of colours.
pub open spec fn row_squares(row: Seq<Option<LetterState>>, k: int) -> Seq<char>
    decreases k,
{
    if k <= 0 {
        Seq::empty()
    } else {
        row_squares(row, k - 1) + state_square(row[k - 1])
    }
}

/// The squares of the first `r` rows, each row on a line of its own.
pub open spec fn share_rows(g: GameModel, r: int) -> Seq<char>
    decreases r,
{
    if r <= 0 {
        Seq::empty()
    } else {
        share_rows(g, r - 1) + row_squares(g.results[r - 1], WORD_LENGTH as int) + seq!['\n']
    }
}

/// The shared result of a game: the game's name on a line, then one line of coloured
/// squares for each submitted row.
pub open spec fn share_text(g: GameModel) -> Seq<char> {
    seq!['\u{067E}', '\u{0631}', '\u{062F}', '\u{0644}', '\n'] + share_rows(g, g.row)
}

/// The result of the game to share (see `share_text`).
pub fn generate_emoji_share(game: &Game) -> (r: String)
    requires
        game.current_row <= MAX_ATTEMPTS,
    ensures
        r@ == share_text(game@),
{
    let ghost g = game@;
    let mut share = String::new();
    push_char(&mut share, '\u{067E}');
    push_char(&mut share, '\u{0631}');
    push_char(&mut share, '\u{062F}');
    push_char(&mut share, '\u{0644}');
    push_char(&mut share, '\n');
    let ghost head = share@;
    assert(head =~= seq!['\u{067E}', '\u{0631}', '\u{062F}', '\u{0644}', '\n']);
    let mut row: usize = 0;
    while row < game.current_row
        invariant
            game.current_row <= MAX_ATTEMPTS,
            g == game@,
            row <= game.current_row,
            share@ == head + share_rows(g, row as int),
        decreases game.current_row - row,
    {
        let mut col: usize = 0;
        while col < WORD_LENGTH
            invariant
                game.current_row <= MAX_ATTEMPTS,
                g == game@,
                row < game.current_row,
                col <= WORD_LENGTH,
                share@ == head + share_rows(g, row as int) + row_squares(g.results[row as int], col as int),
            decreases WORD_LENGTH - col,
        {
            let ghost before = share@;
            match game.results[row][col] {
                Some(LetterState::Correct) => push_char(&mut share, '\u{1F7E9}'),
                Some(LetterState::Misplaced) => push_char(&mut share, '\u{1F7E8}'),
                Some(LetterState::Absent) => push_char(&mut share, '\u{2B1B}'),
                _ => {},
            }
            assert(share@ =~= before + state_square(g.results[row as int][col as int]));
            col = col + 1;
        }
        push_char(&mut share, '\n');
        row = row + 1;
    }
    share
}

} // verus!
