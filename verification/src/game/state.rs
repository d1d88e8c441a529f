use vstd::prelude::*;

use crate::text::{chars_of, string_of};

verus! {

/// The number of rows, that is of guesses, in a game.
pub const MAX_ATTEMPTS: usize = 6;

/// The number of letters in a word.
pub const WORD_LENGTH: usize = 5;

/// The colour of a letter: in the right place, in the word but elsewhere, or not in it.
#[derive(Clone, Copy, Debug, PartialEq, Eq, Structural)]
pub enum LetterState {
    Pending,
    Correct,
    Misplaced,
    Absent,
}

/// Whether a game is going on, won or lost.
#[derive(Clone, Copy, Debug, PartialEq, Eq, Structural)]
pub enum Phase {
    Playing,
    Won,
    Lost,
}

/// Number of positions `k < n` at which `word` holds `c` and differs from `other`.
pub open spec fn unmatched_count(word: Seq<char>, other: Seq<char>, c: char, n: int) -> nat
    decreases n,
{
    if n <= 0 {
        0
    } else {
        unmatched_count(word, other, c, n - 1) + (if word[n - 1] == c && word[n - 1] != other[n
            - 1] {
            1nat
        } else {
            0nat
        })
    }
}

/// The colour of position `i` of `guess`: an exact match is `Correct`; otherwise the
/// letter is `Misplaced` while the earlier unmatched copies of it in the guess have not
/// used up the unmatched copies of it in the answer, and `Absent` after that.
pub open spec fn letter_state(guess: Seq<char>, answer: Seq<char>, i: int) -> LetterState {
    if guess[i] == answer[i] {
        LetterState::Correct
    } else if unmatched_count(guess, answer, guess[i], i) < unmatched_count(
        answer,
        guess,
        guess[i],
        answer.len() as int,
    ) {
        LetterState::Misplaced
    } else {
        LetterState::Absent
    }
}

/// The colours of every position of `guess` against `answer`.
pub open spec fn evaluation(guess: Seq<char>, answer: Seq<char>) -> Seq<LetterState> {
    Seq::new(guess.len(), |i: int| letter_state(guess, answer, i))
}

/// Number of answer positions `j < n` that are taken by an earlier letter of the guess
/// without being an exact match.
spec fn claimed_count(used: Seq<bool>, guess: Seq<char>, answer: Seq<char>, c: char, n: int) -> nat
    decreases n,
{
    if n <= 0 {
        0
    } else {
        claimed_count(used, guess, answer, c, n - 1) + (if used[n - 1] && answer[n - 1] == c
            && answer[n - 1] != guess[n - 1] {
            1nat
        } else {
            0nat
        })
    }
}

proof fn lemma_claimed_none(used: Seq<bool>, guess: Seq<char>, answer: Seq<char>, c: char, n: int)
    requires
        0 <= n <= used.len(),
        forall|j: int| 0 <= j < n && used[j] ==> answer[j] == guess[j],
    ensures
        claimed_count(used, guess, answer, c, n) == 0,
    decreases n,
{
    if n > 0 {
        lemma_claimed_none(used, guess, answer, c, n - 1);
    }
}

proof fn lemma_claimed_bounded(used: Seq<bool>, guess: Seq<char>, answer: Seq<char>, c: char, n: int)
    requires
        0 <= n,
    ensures
        claimed_count(used, guess, answer, c, n) <= unmatched_count(answer, guess, c, n),
    decreases n,
{
    if n > 0 {
        lemma_claimed_bounded(used, guess, answer, c, n - 1);
    }
}

proof fn lemma_claimed_full(used: Seq<bool>, guess: Seq<char>, answer: Seq<char>, c: char, n: int)
    requires
        0 <= n,
        forall|j: int| 0 <= j < n && answer[j] == c && answer[j] != guess[j] ==> used[j],
    ensures
        claimed_count(used, guess, answer, c, n) == unmatched_count(answer, guess, c, n),
    decreases n,
{
    if n > 0 {
        lemma_claimed_full(used, guess, answer, c, n - 1);
    }
}

proof fn lemma_claimed_update(
    used: Seq<bool>,
    guess: Seq<char>,
    answer: Seq<char>,
    c: char,
    n: int,
    j: int,
)
    requires
        0 <= j < used.len(),
        0 <= n <= used.len(),
        !used[j],
    ensures
        claimed_count(used.update(j, true), guess, answer, c, n) == claimed_count(
            used,
            guess,
            answer,
            c,
            n,
        ) + (if j < n && answer[j] == c && answer[j] != guess[j] {
            1nat
        } else {
            0nat
        }),
    decreases n,
{
    if n > 0 {
        lemma_claimed_update(used, guess, answer, c, n - 1, j);
    }
}

fn find_unclaimed(c: char, answer: &[char], used: &[bool; WORD_LENGTH]) -> (r: Option<usize>)
    requires
        answer@.len() == WORD_LENGTH,
    ensures
        match r {
            Some(j) => j < WORD_LENGTH && !used@[j as int] && answer@[j as int] == c,
            None => forall|j: int| 0 <= j < WORD_LENGTH && answer@[j] == c ==> used@[j],
        },
{
    let mut j: usize = 0;
    while j < WORD_LENGTH
        invariant
            j <= WORD_LENGTH,
            answer@.len() == WORD_LENGTH,
            forall|k: int| 0 <= k < j && answer@[k] == c ==> used@[k],
        decreases WORD_LENGTH - j,
    {
        if !used[j] && c == answer[j] {
            return Some(j);
        }
        j = j + 1;
    }
    None
}

/// Colours each of the first five letters of `guess` against the first five of
/// `answer`: exact matches first, then each remaining letter takes the first answer
/// position that holds it and is still free.
pub fn evaluate_guess(guess: &[char], answer: &[char]) -> (r: [LetterState; WORD_LENGTH])
    requires
        guess@.len() >= WORD_LENGTH,
        answer@.len() >= WORD_LENGTH,
    ensures
        r@ == evaluation(guess@.take(WORD_LENGTH as int), answer@.take(WORD_LENGTH as int)),
{
    let g = vstd::slice::slice_subrange(guess, 0, WORD_LENGTH);
    let a = vstd::slice::slice_subrange(answer, 0, WORD_LENGTH);
    assert(g@ == guess@.take(WORD_LENGTH as int));
    assert(a@ == answer@.take(WORD_LENGTH as int));
    evaluate_five(g, a)
}

fn evaluate_five(guess: &[char], answer: &[char]) -> (r: [LetterState; WORD_LENGTH])
    requires
        guess@.len() == WORD_LENGTH,
        answer@.len() == WORD_LENGTH,
    ensures
        r@ == evaluation(guess@, answer@),
{
    let mut result = [LetterState::Absent;WORD_LENGTH];
    let mut answer_used = [false;WORD_LENGTH];

    let mut i: usize = 0;
    while i < WORD_LENGTH
        invariant
            i <= WORD_LENGTH,
            guess@.len() == WORD_LENGTH,
            answer@.len() == WORD_LENGTH,
            forall|k: int|
                0 <= k < WORD_LENGTH ==> #[trigger] result@[k] == (if k < i && guess@[k]
                    == answer@[k] {
                    LetterState::Correct
                } else {
                    LetterState::Absent
                }),
            forall|k: int|
                0 <= k < WORD_LENGTH ==> #[trigger] answer_used@[k] == (k < i && guess@[k]
                    == answer@[k]),
        decreases WORD_LENGTH - i,
    {
        if guess[i] == answer[i] {
            result[i] = LetterState::Correct;
            answer_used[i] = true;
        }
        i = i + 1;
    }

    proof {
        assert forall|c: char|
            #[trigger] claimed_count(answer_used@, guess@, answer@, c, 5) == 0 by {
            lemma_claimed_none(answer_used@, guess@, answer@, c, 5);
        }
    }

    let mut i: usize = 0;
    while i < WORD_LENGTH
        invariant
            i <= WORD_LENGTH,
            guess@.len() == WORD_LENGTH,
            answer@.len() == WORD_LENGTH,
            forall|k: int| 0 <= k < i ==> #[trigger] result@[k] == letter_state(guess@, answer@, k),
            forall|k: int|
                i <= k < WORD_LENGTH ==> #[trigger] result@[k] == (if guess@[k] == answer@[k] {
                    LetterState::Correct
                } else {
                    LetterState::Absent
                }),
            forall|j: int| 0 <= j < WORD_LENGTH && guess@[j] == answer@[j] ==> answer_used@[j],
            forall|c: char|
                #[trigger] claimed_count(answer_used@, guess@, answer@, c, 5) == vstd::math::min(
                    unmatched_count(guess@, answer@, c, i as int) as int,
                    unmatched_count(answer@, guess@, c, 5) as int,
                ),
        decreases WORD_LENGTH - i,
    {
        let ghost old_used = answer_used@;
        let c = guess[i];
        assert(unmatched_count(guess@, answer@, c, i + 1) == unmatched_count(guess@, answer@, c, i as int) + (if guess@[i as int] != answer@[i as int] { 1nat } else { 0nat }));
        if result[i] == LetterState::Correct {
            proof {
                assert forall|d: char|
                    #[trigger] claimed_count(answer_used@, guess@, answer@, d, 5) == vstd::math::min(
                        unmatched_count(guess@, answer@, d, i + 1) as int,
                        unmatched_count(answer@, guess@, d, 5) as int,
                    ) by {
                    assert(unmatched_count(guess@, answer@, d, i + 1) == unmatched_count(guess@, answer@, d, i as int));
                }
            }
        } else {
            match find_unclaimed(c, answer, &answer_used) {
                Some(j) => {
                    proof {
                        lemma_claimed_update(old_used, guess@, answer@, c, 5, j as int);
                        lemma_claimed_bounded(old_used.update(j as int, true), guess@, answer@, c, 5);
                    }
                    result[i] = LetterState::Misplaced;
                    answer_used[j] = true;
                    proof {
                        assert(answer_used@ == old_used.update(j as int, true));
                        assert forall|d: char|
                            #[trigger] claimed_count(answer_used@, guess@, answer@, d, 5) == vstd::math::min(
                                unmatched_count(guess@, answer@, d, i + 1) as int,
                                unmatched_count(answer@, guess@, d, 5) as int,
                            ) by {
                            lemma_claimed_update(old_used, guess@, answer@, d, 5, j as int);
                            assert(claimed_count(old_used, guess@, answer@, d, 5) == vstd::math::min(
                                unmatched_count(guess@, answer@, d, i as int) as int,
                                unmatched_count(answer@, guess@, d, 5) as int,
                            ));
                        }
                    }
                },
                None => {
                    proof {
                        lemma_claimed_full(answer_used@, guess@, answer@, c, 5);
                        assert forall|d: char|
                            #[trigger] claimed_count(answer_used@, guess@, answer@, d, 5) == vstd::math::min(
                                unmatched_count(guess@, answer@, d, i + 1) as int,
                                unmatched_count(answer@, guess@, d, 5) as int,
                            ) by {
                            assert(claimed_count(old_used, guess@, answer@, d, 5) == vstd::math::min(
                                unmatched_count(guess@, answer@, d, i as int) as int,
                                unmatched_count(answer@, guess@, d, 5) as int,
                            ));
                        }
                    }
                },
            }
        }
        i = i + 1;
    }
    proof {
        assert(result@ =~= evaluation(guess@, answer@));
    }
    result
}

/// What is shown in a board cell: its letter, or a space when it is empty.
pub open spec fn cell_char(cell: Option<char>) -> char {
    match cell {
        Some(c) => c,
        None => ' ',
    }
}

/// The colour a key takes when a cell of its letter gets colour `s`, given the colour
/// the key had: `Correct` is kept, and `Misplaced` is not lowered to `Absent`.
pub open spec fn combine_state(current: Option<LetterState>, s: LetterState) -> LetterState {
    match current {
        None => s,
        Some(LetterState::Correct) => LetterState::Correct,
        Some(LetterState::Misplaced) => if s == LetterState::Absent {
            LetterState::Misplaced
        } else {
            s
        },
        Some(LetterState::Absent) => if s == LetterState::Misplaced {
            LetterState::Misplaced
        } else {
            s
        },
        Some(LetterState::Pending) => s,
    }
}

fn find_key(entries: &Vec<(char, LetterState)>, c: char) -> (r: Option<usize>)
    ensures
        match r {
            Some(i) => i < entries@.len() && entries@[i as int].0 == c,
            None => forall|i: int| 0 <= i < entries@.len() ==> entries@[i].0 != c,
        },
{
    let mut i: usize = 0;
    while i < entries.len()
        invariant
            i <= entries@.len(),
            forall|k: int| 0 <= k < i ==> entries@[k].0 != c,
        decreases entries@.len() - i,
    {
        if entries[i].0 == c {
            return Some(i);
        }
        i = i + 1;
    }
    None
}

/// The abstract state of a game: the answer, the letters on the board, the colours of
/// the submitted rows, the cursor and the phase.
pub struct GameModel {
    pub answer: Seq<char>,
    pub board: Seq<Seq<Option<char>>>,
    pub results: Seq<Seq<Option<LetterState>>>,
    pub row: int,
    pub col: int,
    pub phase: Phase,
}

impl GameModel {
    pub open spec fn fresh(answer: Seq<char>) -> GameModel {
        GameModel {
            answer,
            board: Seq::new(MAX_ATTEMPTS as nat, |r: int| Seq::new(WORD_LENGTH as nat, |k: int| None)),
            results: Seq::new(
                MAX_ATTEMPTS as nat,
                |r: int| Seq::new(WORD_LENGTH as nat, |k: int| None),
            ),
            row: 0,
            col: 0,
            phase: Phase::Playing,
        }
    }

    /// The letters of row `r`, an empty cell read as a space.
    pub open spec fn row_word(self, r: int) -> Seq<char> {
        self.board[r].map_values(|cell: Option<char>| cell_char(cell))
    }

    /// Row `r` spells the answer.
    pub open spec fn solves(self, r: int) -> bool {
        self.row_word(r) == self.answer
    }

    /// The words of the submitted rows, oldest first.
    pub open spec fn submitted_words(self) -> Seq<Seq<char>> {
        Seq::new(self.row as nat, |r: int| self.row_word(r))
    }

    pub open spec fn can_type(self) -> bool {
        self.phase == Phase::Playing && self.col < WORD_LENGTH
    }

    /// The state after typing `c`: it fills the next cell of the current row, if the
    /// game is on and the row has room.
    pub open spec fn typed(self, c: char) -> GameModel {
        if self.can_type() {
            GameModel {
                board: self.board.update(self.row, self.board[self.row].update(self.col, Some(c))),
                col: self.col + 1,
                ..self
            }
        } else {
            self
        }
    }

    /// The state after a backspace: the last typed cell of the current row is emptied.
    pub open spec fn erased(self) -> GameModel {
        if self.col == 0 {
            self
        } else {
            GameModel {
                board: self.board.update(self.row, self.board[self.row].update(self.col - 1, None)),
                col: self.col - 1,
                ..self
            }
        }
    }

    /// The current row can be scored: it is on the board and full, and the answer has
    /// five letters.
    pub open spec fn can_score(self) -> bool {
        &&& 0 <= self.row < MAX_ATTEMPTS
        &&& self.answer.len() == WORD_LENGTH
        &&& forall|k: int| 0 <= k < WORD_LENGTH ==> #[trigger] self.board[self.row][k] is Some
    }

    pub open spec fn can_submit(self) -> bool {
        self.phase == Phase::Playing && self.col >= WORD_LENGTH
    }

    /// The state after submitting the current row: its colours are recorded, the cursor
    /// moves to the next row, and the game is won when the row spells the answer and
    /// lost when it was the last row.
    pub open spec fn submitted(self) -> GameModel {
        if self.can_submit() {
            GameModel {
                results: self.results.update(
                    self.row,
                    evaluation(self.row_word(self.row), self.answer).map_values(
                        |s: LetterState| Some(s),
                    ),
                ),
                row: self.row + 1,
                col: 0,
                phase: if self.solves(self.row) {
                    Phase::Won
                } else if self.row + 1 >= MAX_ATTEMPTS {
                    Phase::Lost
                } else {
                    Phase::Playing
                },
                ..self
            }
        } else {
            self
        }
    }

    /// The state after typing every character of `w` in turn.
    pub open spec fn type_all(self, w: Seq<char>) -> GameModel
        decreases w.len(),
    {
        if w.len() == 0 {
            self
        } else {
            self.type_all(w.drop_last()).typed(w.last())
        }
    }

    /// The state after typing and submitting each word of `ws` in turn.
    pub open spec fn replay(self, ws: Seq<Seq<char>>) -> GameModel
        decreases ws.len(),
    {
        if ws.len() == 0 {
            self
        } else {
            self.replay(ws.drop_last()).type_all(ws.last()).submitted()
        }
    }

    /// The colour a key shows for `c` after the cells of the rows before `r` and the
    /// first `k` cells of row `r` have been read, row by row.
    pub open spec fn key_state_at(self, c: char, r: int, k: int) -> Option<LetterState>
        decreases r, k,
    {
        if r <= 0 && k <= 0 {
            None
        } else if k <= 0 {
            self.key_state_at(c, r - 1, WORD_LENGTH as int)
        } else {
            let prev = self.key_state_at(c, r, k - 1);
            if self.board[r][k - 1] == Some(c) && self.results[r][k - 1] is Some {
                Some(combine_state(prev, self.results[r][k - 1]->0))
            } else {
                prev
            }
        }
    }

    /// `entries` holds each key at most once, with the colour it has after the first
    /// `k` cells of row `r`, and holds every key that has a colour by then.
    pub open spec fn key_table_at(self, entries: Seq<(char, LetterState)>, r: int, k: int) -> bool {
        &&& forall|i: int, j: int|
            0 <= i < entries.len() && 0 <= j < entries.len() && i != j ==> #[trigger] entries[i].0
                != #[trigger] entries[j].0
        &&& forall|i: int|
            0 <= i < entries.len() ==> self.key_state_at(#[trigger] entries[i].0, r, k) == Some(
                entries[i].1,
            )
        &&& forall|c: char|
            #[trigger] self.key_state_at(c, r, k) is Some ==> exists|i: int|
                0 <= i < entries.len() && #[trigger] entries[i].0 == c
    }

    /// The colour of the key for `c` once every submitted row has been read.
    pub open spec fn keyboard_state(self, c: char) -> Option<LetterState> {
        self.key_state_at(c, self.row, 0)
    }

    /// The states that play reaches: the cursor sits after the filled cells, the
    /// submitted rows carry their colours, and the phase follows the submitted rows.
    pub open spec fn wf(self) -> bool {
        &&& self.answer.len() == WORD_LENGTH
        &&& self.board.len() == MAX_ATTEMPTS
        &&& self.results.len() == MAX_ATTEMPTS
        &&& forall|r: int| 0 <= r < MAX_ATTEMPTS ==> #[trigger] self.board[r].len() == WORD_LENGTH
        &&& forall|r: int|
            0 <= r < MAX_ATTEMPTS ==> #[trigger] self.results[r].len() == WORD_LENGTH
        &&& 0 <= self.row <= MAX_ATTEMPTS
        &&& 0 <= self.col <= WORD_LENGTH
        &&& self.phase == Phase::Playing ==> self.row < MAX_ATTEMPTS
        &&& self.phase != Phase::Playing ==> self.col == 0
        &&& forall|r: int, k: int|
            0 <= r < MAX_ATTEMPTS && 0 <= k < WORD_LENGTH ==> (#[trigger] self.board[r][k] is Some
                <==> (r < self.row || (r == self.row && k < self.col)))
        &&& forall|r: int, k: int|
            0 <= r < MAX_ATTEMPTS && 0 <= k < WORD_LENGTH ==> #[trigger] self.results[r][k] == (
            if r < self.row {
                Some(evaluation(self.row_word(r), self.answer)[k])
            } else {
                None
            })
        &&& forall|r: int| 0 <= r < self.row - 1 ==> !#[trigger] self.solves(r)
        &&& (self.phase == Phase::Won <==> (self.row > 0 && self.solves(self.row - 1)))
        &&& (self.phase == Phase::Lost <==> (self.row == MAX_ATTEMPTS && !self.solves(
            self.row - 1,
        )))
    }
}

/// Every letter of `guess` is `Correct` exactly when `guess` is `answer`.
pub proof fn lemma_all_correct_iff_equal(guess: Seq<char>, answer: Seq<char>)
    requires
        guess.len() == answer.len(),
    ensures
        (forall|i: int| 0 <= i < guess.len() ==> #[trigger] evaluation(guess, answer)[i]
            == LetterState::Correct) <==> guess == answer,
{
    if forall|i: int| 0 <= i < guess.len() ==> #[trigger] evaluation(guess, answer)[i]
        == LetterState::Correct {
        assert forall|i: int| 0 <= i < guess.len() implies guess[i] == answer[i] by {
            assert(evaluation(guess, answer)[i] == LetterState::Correct);
        }
        assert(guess =~= answer);
    }
}

fn all_correct(result: &[LetterState; WORD_LENGTH]) -> (r: bool)
    ensures
        r == (forall|i: int| 0 <= i < WORD_LENGTH ==> #[trigger] result@[i] == LetterState::Correct),
{
    let mut i: usize = 0;
    while i < WORD_LENGTH
        invariant
            i <= WORD_LENGTH,
            forall|k: int| 0 <= k < i ==> #[trigger] result@[k] == LetterState::Correct,
        decreases WORD_LENGTH - i,
    {
        if result[i] != LetterState::Correct {
            return false;
        }
        i = i + 1;
    }
    true
}

/// A game: the answer, the letters typed on the board (a row per guess), the colours of
/// the submitted rows, the cursor and the phase.
pub struct Game {
    pub answer: Vec<char>,
    pub board: [[Option<char>; WORD_LENGTH]; MAX_ATTEMPTS],
    pub results: [[Option<LetterState>; WORD_LENGTH]; MAX_ATTEMPTS],
    pub current_row: usize,
    pub current_col: usize,
    pub phase: Phase,
}

/// Typing a letter keeps a reachable state reachable.
proof fn lemma_typed_wf(before: GameModel, c: char)
    requires
        before.wf(),
    ensures
        before.typed(c).wf(),
{
    if before.can_type() {
        let after = before.typed(c);
        assert forall|r: int| 0 <= r < after.row - 1 implies !#[trigger] after.solves(r) by {
            assert(!before.solves(r));
            assert(after.row_word(r) == before.row_word(r));
        }
        assert forall|r: int, k: int|
            0 <= r < MAX_ATTEMPTS && 0 <= k < WORD_LENGTH implies #[trigger] after.results[r][k]
            == (if r < after.row {
            Some(evaluation(after.row_word(r), after.answer)[k])
        } else {
            None
        }) by {
            if r < after.row {
                assert(after.row_word(r) == before.row_word(r));
            }
        }
        if after.row > 0 {
            assert(after.row_word(after.row - 1) == before.row_word(before.row - 1));
        }
    }
}

/// A backspace keeps a reachable state reachable.
proof fn lemma_erased_wf(before: GameModel)
    requires
        before.wf(),
    ensures
        before.erased().wf(),
{
    if before.col != 0 {
        let after = before.erased();
        assert forall|r: int| 0 <= r < after.row - 1 implies !#[trigger] after.solves(r) by {
            assert(!before.solves(r));
            assert(after.row_word(r) == before.row_word(r));
        }
        assert forall|r: int, k: int|
            0 <= r < MAX_ATTEMPTS && 0 <= k < WORD_LENGTH implies #[trigger] after.results[r][k]
            == (if r < after.row {
            Some(evaluation(after.row_word(r), after.answer)[k])
        } else {
            None
        }) by {
            if r < after.row {
                assert(after.row_word(r) == before.row_word(r));
            }
        }
        if after.row > 0 {
            assert(after.row_word(after.row - 1) == before.row_word(before.row - 1));
        }
    }
}

impl View for Game {
    type V = GameModel;

    open spec fn view(&self) -> GameModel {
        GameModel {
            answer: self.answer@,
            board: Seq::new(MAX_ATTEMPTS as nat, |r: int| self.board@[r]@),
            results: Seq::new(MAX_ATTEMPTS as nat, |r: int| self.results@[r]@),
            row: self.current_row as int,
            col: self.current_col as int,
            phase: self.phase,
        }
    }
}

impl Game {
    pub open spec fn wf(&self) -> bool {
        self@.wf()
    }

    /// A new game on a five-letter answer.
    pub fn new(answer: String) -> (g: Self)
        requires
            answer@.len() == WORD_LENGTH,
        ensures
            g@ == GameModel::fresh(answer@),
            g.wf(),
    {
        let chars = chars_of(answer.as_str());
        let g = Game {
            answer: chars,
            board: [[None;WORD_LENGTH];MAX_ATTEMPTS],
            results: [[None;WORD_LENGTH];MAX_ATTEMPTS],
            current_row: 0,
            current_col: 0,
            phase: Phase::Playing,
        };
        proof {
            assert(g@.board =~~= GameModel::fresh(answer@).board);
            assert(g@.results =~~= GameModel::fresh(answer@).results);
        }
        g
    }

    /// Types `c` in the next cell of the current row; refused when the game is over or
    /// the row is full.
    pub fn type_letter(&mut self, c: char) -> (r: Result<(), ()>)
        requires
            old(self)@.can_type() ==> old(self).current_row < MAX_ATTEMPTS,
        ensures
            old(self).wf() ==> final(self).wf(),
            final(self)@ == old(self)@.typed(c),
            r is Ok <==> old(self)@.can_type(),
    {
        if self.phase != Phase::Playing {
            return Err(());
        }
        if self.current_col >= WORD_LENGTH {
            return Err(());
        }
        let ghost before = self@;
        self.board[self.current_row][self.current_col] = Some(c);
        self.current_col += 1;
        proof {
            let after = before.typed(c);
            assert(self@.board =~~= after.board);
            assert(self@ == after);
        }
        proof {
            if before.wf() {
                lemma_typed_wf(before, c);
            }
        }
        Ok(())
    }

    /// Submits the current row: scores it against the answer, moves to the next row, and
    /// ends the game when the row is the answer or the last one. Refused when the game is
    /// over or the row is not full.
    pub fn submit_guess(&mut self) -> (r: Result<[LetterState; WORD_LENGTH], &'static str>)
        requires
            old(self)@.can_submit() ==> old(self)@.can_score(),
        ensures
            old(self).wf() ==> final(self).wf(),
            final(self)@ == old(self)@.submitted(),
            match r {
                Ok(result) => old(self)@.can_submit() && result@ == evaluation(
                    old(self)@.row_word(old(self)@.row),
                    old(self)@.answer,
                ),
                Err(e) => !old(self)@.can_submit() && (old(self).phase != Phase::Playing ==> e@
                    == "Game is over"@) && (old(self).phase == Phase::Playing ==> e@
                    == "Not enough letters"@),
            },
    {
        if self.phase != Phase::Playing {
            return Err("Game is over");
        }
        if self.current_col < WORD_LENGTH {
            return Err("Not enough letters");
        }
        let ghost before = self@;
        let row: usize = self.current_row;
        let mut guess: Vec<char> = Vec::new();
        let mut i: usize = 0;
        while i < WORD_LENGTH
            invariant
                i <= WORD_LENGTH,
                row == before.row,
                self@ == before,
                before.can_score(),
                guess@ == before.row_word(row as int).take(i as int),
            decreases WORD_LENGTH - i,
        {
            assert(before.board[row as int][i as int] is Some);
            let c = self.board[row][i].unwrap();
            proof {
                assert(before.row_word(row as int).take(i + 1) == before.row_word(row as int).take(
                    i as int,
                ).push(c));
            }
            guess.push(c);
            i = i + 1;
        }
        proof {
            assert(before.row_word(row as int).take(WORD_LENGTH as int) == before.row_word(
                row as int,
            ));
        }
        let result = evaluate_guess(guess.as_slice(), self.answer.as_slice());
        assert(guess@.take(WORD_LENGTH as int) == guess@);
        assert(self.answer@.take(WORD_LENGTH as int) == self.answer@);
        self.results[row] = [
            Some(result[0]),
            Some(result[1]),
            Some(result[2]),
            Some(result[3]),
            Some(result[4]),
        ];
        self.current_row += 1;
        self.current_col = 0;
        let solved = all_correct(&result);
        proof {
            lemma_all_correct_iff_equal(guess@, before.answer);
        }
        if solved {
            self.phase = Phase::Won;
        } else if self.current_row >= MAX_ATTEMPTS {
            self.phase = Phase::Lost;
        }
        proof {
            let after = before.submitted();
            assert(self@.results =~~= after.results);
            assert(self@.board =~~= after.board);
            assert(self@ == after);
            if before.wf() {
                assert forall|r: int| 0 <= r < after.row - 1 implies !#[trigger] after.solves(r) by {
                    if r < before.row - 1 {
                        assert(!before.solves(r));
                    }
                }
            }
        }
        Ok(result)
    }

    /// The colour of each key whose letter appears in a submitted row. Each key is
    /// listed once; its colour is the best it has received (see `combine_state`).
    pub fn keyboard_states(&self) -> (r: Vec<(char, LetterState)>)
        requires
            self.current_row <= MAX_ATTEMPTS,
        ensures
            forall|i: int, j: int|
                0 <= i < r@.len() && 0 <= j < r@.len() && i != j ==> #[trigger] r@[i].0
                    != #[trigger] r@[j].0,
            forall|i: int|
                0 <= i < r@.len() ==> self@.keyboard_state(#[trigger] r@[i].0) == Some(r@[i].1),
            forall|c: char|
                #[trigger] self@.keyboard_state(c) is Some ==> exists|i: int|
                    0 <= i < r@.len() && #[trigger] r@[i].0 == c,
    {
        let ghost g = self@;
        let mut states: Vec<(char, LetterState)> = Vec::new();
        let mut row: usize = 0;
        while row < self.current_row
            invariant
                self.current_row <= MAX_ATTEMPTS,
                g == self@,
                row <= self.current_row,
                g.key_table_at(states@, row as int, 0),
            decreases self.current_row - row,
        {
            let mut col: usize = 0;
            while col < WORD_LENGTH
                invariant
                    self.current_row <= MAX_ATTEMPTS,
                    g == self@,
                    row < self.current_row,
                    col <= WORD_LENGTH,
                    g.key_table_at(states@, row as int, col as int),
                decreases WORD_LENGTH - col,
            {
                let ghost prev = states@;
                let ghost r = row as int;
                let ghost k = col as int;
                assert forall|d: char| #[trigger] g.key_state_at(d, r, k + 1) == (if g.board[r][k] == Some(d) && g.results[r][k] is Some {
                    Some(combine_state(g.key_state_at(d, r, k), g.results[r][k]->0))
                } else {
                    g.key_state_at(d, r, k)
                }) by {}
                if let Some(c) = self.board[row][col] {
                    if let Some(state) = self.results[row][col] {
                        match find_key(&states, c) {
                            Some(idx) => {
                                let current = states[idx].1;
                                let best = match (current, state) {
                                    (LetterState::Correct, _) => LetterState::Correct,
                                    (LetterState::Misplaced, LetterState::Absent) => LetterState::Misplaced,
                                    (LetterState::Absent, LetterState::Misplaced) => LetterState::Misplaced,
                                    _ => state,
                                };
                                assert(best == combine_state(Some(current), state));
                                states.set(idx, (c, best));
                                proof {
                                    assert forall|i: int| 0 <= i < states@.len() implies g.key_state_at(#[trigger] states@[i].0, r, k + 1) == Some(states@[i].1) by {
                                        assert(g.key_state_at(prev[i].0, r, k) == Some(prev[i].1));
                                    }
                                    assert forall|d: char| #[trigger] g.key_state_at(d, r, k + 1) is Some implies exists|i: int| 0 <= i < states@.len() && #[trigger] states@[i].0 == d by {
                                        if d != c {
                                            assert(g.key_state_at(d, r, k) is Some);
                                            let i = choose|i: int| 0 <= i < prev.len() && #[trigger] prev[i].0 == d;
                                            assert(states@[i].0 == d);
                                        } else {
                                            assert(states@[idx as int].0 == d);
                                        }
                                    }
                                }
                            },
                            None => {
                                states.push((c, state));
                                proof {
                                    assert(g.key_state_at(c, r, k) is None);
                                    assert forall|i: int| 0 <= i < states@.len() implies g.key_state_at(#[trigger] states@[i].0, r, k + 1) == Some(states@[i].1) by {
                                        if i < prev.len() {
                                            assert(g.key_state_at(prev[i].0, r, k) == Some(prev[i].1));
                                        }
                                    }
                                    assert forall|d: char| #[trigger] g.key_state_at(d, r, k + 1) is Some implies exists|i: int| 0 <= i < states@.len() && #[trigger] states@[i].0 == d by {
                                        if d != c {
                                            assert(g.key_state_at(d, r, k) is Some);
                                            let i = choose|i: int| 0 <= i < prev.len() && #[trigger] prev[i].0 == d;
                                            assert(states@[i].0 == d);
                                        } else {
                                            assert(states@[prev.len() as int].0 == d);
                                        }
                                    }
                                }
                            },
                        }
                    }
                }
                col = col + 1;
            }
            proof {
                assert forall|d: char| #[trigger] g.key_state_at(d, row + 1, 0) == g.key_state_at(d, row as int, WORD_LENGTH as int) by {}
            }
            row = row + 1;
        }
        states
    }

    /// The letters typed so far in the current row.
    pub fn current_guess_string(&self) -> (r: String)
        requires
            self.current_row < MAX_ATTEMPTS,
            self.current_col <= WORD_LENGTH,
        ensures
            r@ == self@.row_word(self@.row).take(self@.col),
    {
        let row: usize = self.current_row;
        let mut out: Vec<char> = Vec::new();
        let mut i: usize = 0;
        while i < self.current_col
            invariant
                self.current_col <= WORD_LENGTH,
                row == self.current_row,
                row < MAX_ATTEMPTS,
                i <= self.current_col,
                out@ == self@.row_word(row as int).take(i as int),
            decreases self.current_col - i,
        {
            let c = match self.board[row][i] {
                Some(c) => c,
                None => ' ',
            };
            proof {
                assert(self@.row_word(row as int).take(i + 1) == self@.row_word(row as int).take(
                    i as int,
                ).push(c));
            }
            out.push(c);
            i = i + 1;
        }
        string_of(out.as_slice())
    }

    /// The answer, as a string.
    pub fn answer_string(&self) -> (r: String)
        ensures
            r@ == self.answer@,
    {
        string_of(self.answer.as_slice())
    }

    /// The words of the submitted rows, oldest first.
    pub fn guesses(&self) -> (r: Vec<String>)
        requires
            self.current_row <= MAX_ATTEMPTS,
        ensures
            r.deep_view() == self@.submitted_words(),
    {
        let mut out: Vec<String> = Vec::new();
        let mut row: usize = 0;
        while row < self.current_row
            invariant
                self.current_row <= MAX_ATTEMPTS,
                row <= self.current_row,
                out.deep_view() == self@.submitted_words().take(row as int),
            decreases self.current_row - row,
        {
            let mut word: Vec<char> = Vec::new();
            let mut i: usize = 0;
            while i < WORD_LENGTH
                invariant
                    self.current_row <= MAX_ATTEMPTS,
                    row < self.current_row,
                    i <= WORD_LENGTH,
                    word@ == self@.row_word(row as int).take(i as int),
                decreases WORD_LENGTH - i,
            {
                let c = match self.board[row][i] {
                    Some(c) => c,
                    None => ' ',
                };
                proof {
                    assert(self@.row_word(row as int).take(i + 1) == self@.row_word(
                        row as int,
                    ).take(i as int).push(c));
                }
                word.push(c);
                i = i + 1;
            }
            proof {
                assert(self@.row_word(row as int).take(WORD_LENGTH as int) == self@.row_word(
                    row as int,
                ));
            }
            let s = string_of(word.as_slice());
            let ghost prev = out.deep_view();
            out.push(s);
            proof {
                assert(out.deep_view() =~= prev.push(s@));
                assert(self@.submitted_words().take(row + 1) =~= self@.submitted_words().take(
                    row as int,
                ).push(self@.row_word(row as int)));
            }
            row = row + 1;
        }
        proof {
            assert(self@.submitted_words().take(self.current_row as int)
                =~= self@.submitted_words());
        }
        out
    }

    /// Rebuilds a game by typing and submitting each of `guesses` in turn, as a player
    /// would; letters that do not fit and rows that cannot be submitted are passed over.
    pub fn restore_with_guesses(answer: String, guesses: &[String]) -> (g: Self)
        requires
            answer@.len() == WORD_LENGTH,
        ensures
            g.wf(),
            g@ == GameModel::fresh(answer@).replay(guesses.deep_view()),
    {
        let ghost start = GameModel::fresh(answer@);
        let ghost ws = guesses.deep_view();
        let mut game = Game::new(answer);
        let mut n: usize = 0;
        while n < guesses.len()
            invariant
                n <= guesses@.len(),
                ws == guesses.deep_view(),
                ws.len() == guesses@.len(),
                game.wf(),
                game@ == start.replay(ws.take(n as int)),
            decreases guesses@.len() - n,
        {
            let guess = &guesses[n];
            let ghost before = game@;
            assert(ws[n as int] == guess@);
            for c in it: guess.chars()
                invariant
                    it.seq() == guess@,
                    game.wf(),
                    game@ == before.type_all(guess@.take(it.index() as int)),
            {
                proof {
                    let w = guess@.take(it.index() + 1);
                    assert(w.drop_last() == guess@.take(it.index() as int));
                    assert(w.last() == c);
                }
                let _ = game.type_letter(c);
            }
            proof {
                assert(guess@.take(guess@.len() as int) == guess@);
            }
            let _ = game.submit_guess();
            proof {
                let w = ws.take(n + 1);
                assert(w.drop_last() == ws.take(n as int));
                assert(w.last() == guess@);
            }
            n = n + 1;
        }
        proof {
            assert(ws.take(guesses@.len() as int) == ws);
        }
        game
    }

    /// Empties the last typed cell of the current row, if there is one.
    pub fn delete_letter(&mut self)
        requires
            old(self).current_col > 0 ==> old(self).current_row < MAX_ATTEMPTS
                && old(self).current_col <= WORD_LENGTH,
        ensures
            old(self).wf() ==> final(self).wf(),
            final(self)@ == old(self)@.erased(),
    {
        if self.current_col == 0 {
            return;
        }
        let ghost before = self@;
        self.current_col -= 1;
        self.board[self.current_row][self.current_col] = None;
        proof {
            let after = before.erased();
            assert(self@.board =~~= after.board);
            assert(self@ == after);
            if before.wf() {
                lemma_erased_wf(before);
            }
        }
    }
}

} // verus!
