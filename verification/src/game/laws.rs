use vstd::prelude::*;

use crate::game::state::{
    combine_state, evaluation, letter_state, unmatched_count, GameModel, LetterState, Phase, MAX_ATTEMPTS,
    WORD_LENGTH,
};

verus! {

/// Green, yellow and grey: a letter is `Correct` exactly when it stands in the same place
/// in the answer; a `Misplaced` letter occurs in the answer at a place that the guess
/// does not match; a letter that does not occur in the answer is `Absent`; no letter of
/// a scored guess is left `Pending`.
pub proof fn lemma_evaluation_colours(guess: Seq<char>, answer: Seq<char>, i: int)
    requires
        guess.len() == WORD_LENGTH,
        answer.len() == WORD_LENGTH,
        0 <= i < WORD_LENGTH,
    ensures
        evaluation(guess, answer)[i] == LetterState::Correct <==> guess[i] == answer[i],
        evaluation(guess, answer)[i] == LetterState::Misplaced ==> guess[i] != answer[i]
            && exists|j: int|
            0 <= j < WORD_LENGTH && j != i && answer[j] == guess[i] && answer[j] != guess[j],
        (forall|j: int| 0 <= j < WORD_LENGTH ==> answer[j] != guess[i]) ==> evaluation(
            guess,
            answer,
        )[i] == LetterState::Absent,
        evaluation(guess, answer)[i] != LetterState::Pending,
{
    let c = guess[i];
    if evaluation(guess, answer)[i] == LetterState::Misplaced {
        lemma_some_unmatched(answer, guess, c, WORD_LENGTH as int);
        let j = choose|j: int| 0 <= j < WORD_LENGTH && answer[j] == c && answer[j] != guess[j];
        assert(j != i);
    }
    if forall|j: int| 0 <= j < WORD_LENGTH ==> answer[j] != guess[i] {
        lemma_none_unmatched(answer, guess, c, WORD_LENGTH as int);
    }
}

proof fn lemma_some_unmatched(word: Seq<char>, other: Seq<char>, c: char, n: int)
    requires
        0 <= n <= word.len(),
        unmatched_count(word, other, c, n) > 0,
    ensures
        exists|j: int| 0 <= j < n && word[j] == c && word[j] != other[j],
    decreases n,
{
    if n > 0 && !(word[n - 1] == c && word[n - 1] != other[n - 1]) {
        lemma_some_unmatched(word, other, c, n - 1);
    }
}

proof fn lemma_none_unmatched(word: Seq<char>, other: Seq<char>, c: char, n: int)
    requires
        0 <= n <= word.len(),
        forall|j: int| 0 <= j < n ==> word[j] != c,
    ensures
        unmatched_count(word, other, c, n) == 0,
    decreases n,
{
    if n > 0 {
        lemma_none_unmatched(word, other, c, n - 1);
    }
}

/// Number of positions `k < n` of `guess` that hold `c` and are coloured `Misplaced`.
pub open spec fn misplaced_count(guess: Seq<char>, answer: Seq<char>, c: char, n: int) -> nat
    decreases n,
{
    if n <= 0 {
        0
    } else {
        misplaced_count(guess, answer, c, n - 1) + (if guess[n - 1] == c && letter_state(
            guess,
            answer,
            n - 1,
        ) == LetterState::Misplaced {
            1nat
        } else {
            0nat
        })
    }
}

/// Repeated letters: a letter is marked `Misplaced` as many times as the smaller of its
/// unmatched copies in the guess and its unmatched copies in the answer, never more.
pub proof fn lemma_misplaced_count(guess: Seq<char>, answer: Seq<char>, c: char)
    requires
        guess.len() == WORD_LENGTH,
        answer.len() == WORD_LENGTH,
    ensures
        misplaced_count(guess, answer, c, WORD_LENGTH as int) == vstd::math::min(
            unmatched_count(guess, answer, c, WORD_LENGTH as int) as int,
            unmatched_count(answer, guess, c, WORD_LENGTH as int) as int,
        ),
{
    lemma_misplaced_count_upto(guess, answer, c, WORD_LENGTH as int);
}

proof fn lemma_misplaced_count_upto(guess: Seq<char>, answer: Seq<char>, c: char, n: int)
    requires
        guess.len() == WORD_LENGTH,
        answer.len() == WORD_LENGTH,
        0 <= n <= WORD_LENGTH,
    ensures
        misplaced_count(guess, answer, c, n) == vstd::math::min(
            unmatched_count(guess, answer, c, n) as int,
            unmatched_count(answer, guess, c, WORD_LENGTH as int) as int,
        ),
    decreases n,
{
    if n > 0 {
        lemma_misplaced_count_upto(guess, answer, c, n - 1);
    }
}

/// Backspace undoes a letter: typing a letter and erasing it gives back the same state.
pub proof fn lemma_erase_undoes_type(g: GameModel, c: char)
    requires
        g.wf(),
        g.can_type(),
    ensures
        g.typed(c).erased() == g,
{
    let t = g.typed(c).erased();
    assert(g.board[g.row][g.col] is None);
    assert(t.board[g.row] =~= g.board[g.row]);
    assert(t.board =~= g.board);
}

/// A finished game is frozen: once it is won or lost, typing, erasing and submitting
/// leave it as it is.
pub proof fn lemma_finished_game_frozen(g: GameModel, c: char)
    requires
        g.wf(),
        g.phase != Phase::Playing,
    ensures
        g.typed(c) == g,
        g.erased() == g,
        g.submitted() == g,
{
}

/// Six tries: at most six rows are ever submitted; a game is won as soon as a submitted
/// row spells the answer, and lost when the sixth row does not.
pub proof fn lemma_six_tries(g: GameModel)
    requires
        g.wf(),
    ensures
        g.row <= MAX_ATTEMPTS,
        g.can_submit() && g.row_word(g.row) == g.answer ==> g.submitted().phase == Phase::Won,
        g.can_submit() && g.row_word(g.row) != g.answer && g.row == MAX_ATTEMPTS - 1
            ==> g.submitted().phase == Phase::Lost,
        g.can_submit() && g.row_word(g.row) != g.answer && g.row < MAX_ATTEMPTS - 1
            ==> g.submitted().phase == Phase::Playing,
{
}

/// The state `g` was in right after its first `k` rows were submitted, with `j` letters of
/// row `k` typed.
spec fn replayed_state(g: GameModel, k: int, j: int) -> GameModel {
    GameModel {
        answer: g.answer,
        board: Seq::new(
            MAX_ATTEMPTS as nat,
            |r: int|
                Seq::new(
                    WORD_LENGTH as nat,
                    |x: int|
                        if r < k || (r == k && x < j) {
                            g.board[r][x]
                        } else {
                            None
                        },
                ),
        ),
        results: Seq::new(
            MAX_ATTEMPTS as nat,
            |r: int|
                Seq::new(
                    WORD_LENGTH as nat,
                    |x: int|
                        if r < k {
                            g.results[r][x]
                        } else {
                            None
                        },
                ),
        ),
        row: k,
        col: j,
        phase: if k > 0 && g.solves(k - 1) {
            Phase::Won
        } else if k == MAX_ATTEMPTS {
            Phase::Lost
        } else {
            Phase::Playing
        },
    }
}

proof fn lemma_replay_types_row(g: GameModel, k: int, j: int)
    requires
        g.wf(),
        0 <= k < g.row,
        0 <= j <= WORD_LENGTH,
    ensures
        replayed_state(g, k, 0).type_all(g.row_word(k).take(j)) == replayed_state(g, k, j),
    decreases j,
{
    let w = g.row_word(k).take(j);
    if j == 0 {
        assert(w.len() == 0);
    } else {
        assert(w.drop_last() == g.row_word(k).take(j - 1));
        lemma_replay_types_row(g, k, j - 1);
        let prev = replayed_state(g, k, j - 1);
        if k > 0 {
            assert(!g.solves(k - 1));
        }
        assert(prev.phase == Phase::Playing);
        assert(g.board[k][j - 1] is Some);
        let next = prev.typed(w.last());
        assert(next.board =~~= replayed_state(g, k, j).board);
        assert(next.results =~~= replayed_state(g, k, j).results);
    }
}

proof fn lemma_replay_prefix(g: GameModel, k: int)
    requires
        g.wf(),
        0 <= k <= g.row,
    ensures
        GameModel::fresh(g.answer).replay(g.submitted_words().take(k)) == replayed_state(g, k, 0),
    decreases k,
{
    let ws = g.submitted_words().take(k);
    if k == 0 {
        assert(ws.len() == 0);
        let f = GameModel::fresh(g.answer);
        assert(f.board =~~= replayed_state(g, 0, 0).board);
        assert(f.results =~~= replayed_state(g, 0, 0).results);
    } else {
        assert(ws.drop_last() == g.submitted_words().take(k - 1));
        assert(ws.last() == g.row_word(k - 1));
        lemma_replay_prefix(g, k - 1);
        lemma_replay_types_row(g, k - 1, WORD_LENGTH as int);
        assert(g.row_word(k - 1).take(WORD_LENGTH as int) == g.row_word(k - 1));
        let typed = replayed_state(g, k - 1, WORD_LENGTH as int);
        if k - 1 > 0 {
            assert(!g.solves(k - 2));
        }
        assert(typed.can_submit());
        assert(typed.board[k - 1] =~= g.board[k - 1]);
        assert(typed.row_word(k - 1) == g.row_word(k - 1));
        let next = typed.submitted();
        let target = replayed_state(g, k, 0);
        assert forall|x: int| 0 <= x < WORD_LENGTH implies #[trigger] next.results[k - 1][x]
            == g.results[k - 1][x] by {
            assert(g.results[k - 1][x] == Some(evaluation(g.row_word(k - 1), g.answer)[x]));
        }
        assert(next.board =~~= target.board);
        assert(next.results =~~= target.results);
        assert(next == target);
    }
}

/// Saving and restoring a game: replaying the submitted words of a game, as
/// `Game::restore_with_guesses` does with what `Game::guesses` returns, rebuilds the very
/// same game, provided no letters are typed but not yet submitted.
pub proof fn lemma_restore_round_trip(g: GameModel)
    requires
        g.wf(),
        g.col == 0,
    ensures
        GameModel::fresh(g.answer).replay(g.submitted_words()) == g,
{
    lemma_replay_prefix(g, g.row);
    assert(g.submitted_words().take(g.row) == g.submitted_words());
    let t = replayed_state(g, g.row, 0);
    assert(t.board =~~= g.board);
    assert forall|r: int| 0 <= r < MAX_ATTEMPTS implies #[trigger] t.results[r] =~= g.results[r] by {
        assert forall|x: int| 0 <= x < WORD_LENGTH implies t.results[r][x] == g.results[r][x] by {
            if r >= g.row {
                assert(g.results[r][x] is None);
            }
        }
    }
    assert(t.results =~~= g.results);
}

/// A cell read before cell `k` of row `r` (row by row) holds `c` and is coloured `s`.
pub open spec fn received_before(g: GameModel, c: char, s: LetterState, r: int, k: int) -> bool {
    exists|r2: int, k2: int|
        0 <= r2 < MAX_ATTEMPTS && 0 <= k2 < WORD_LENGTH && (r2 < r || (r2 == r && k2 < k))
            && #[trigger] g.board[r2][k2] == Some(c) && #[trigger] g.results[r2][k2] == Some(s)
}

/// The colour a key should show after the cells before cell `k` of row `r`: the best
/// colour its letter has received there.
pub open spec fn best_received(g: GameModel, c: char, r: int, k: int) -> Option<LetterState> {
    if received_before(g, c, LetterState::Correct, r, k) {
        Some(LetterState::Correct)
    } else if received_before(g, c, LetterState::Misplaced, r, k) {
        Some(LetterState::Misplaced)
    } else if received_before(g, c, LetterState::Absent, r, k) {
        Some(LetterState::Absent)
    } else {
        None
    }
}

proof fn lemma_submitted_cells_scored(g: GameModel, r: int, k: int)
    requires
        g.wf(),
        0 <= r < MAX_ATTEMPTS,
        0 <= k < WORD_LENGTH,
    ensures
        g.results[r][k] is Some ==> g.results[r][k]->0 != LetterState::Pending,
{
    if r < g.row {
        assert(g.board[r].len() == WORD_LENGTH);
        lemma_evaluation_colours(g.row_word(r), g.answer, k);
    }
}

proof fn lemma_key_state_best(g: GameModel, c: char, r: int, k: int)
    requires
        g.wf(),
        0 <= r <= g.row,
        0 <= k <= WORD_LENGTH,
        r < g.row || k == 0,
    ensures
        g.key_state_at(c, r, k) == best_received(g, c, r, k),
    decreases r, k,
{
    if r <= 0 && k <= 0 {
    } else if k <= 0 {
        lemma_key_state_best(g, c, r - 1, WORD_LENGTH as int);
        assert forall|s: LetterState| received_before(g, c, s, r, 0) == received_before(
            g,
            c,
            s,
            r - 1,
            WORD_LENGTH as int,
        ) by {
            if received_before(g, c, s, r, 0) {
                let (r2, k2) = choose|r2: int, k2: int|
                    0 <= r2 < MAX_ATTEMPTS && 0 <= k2 < WORD_LENGTH && (r2 < r || (r2 == r && k2
                        < 0)) && #[trigger] g.board[r2][k2] == Some(c) && #[trigger] g.results[r2][k2]
                        == Some(s);
                assert(r2 < r - 1 || (r2 == r - 1 && k2 < WORD_LENGTH));
            }
        }
    } else {
        lemma_key_state_best(g, c, r, k - 1);
        lemma_submitted_cells_scored(g, r, k - 1);
        assert forall|s: LetterState| received_before(g, c, s, r, k) == (received_before(
            g,
            c,
            s,
            r,
            k - 1,
        ) || (g.board[r][k - 1] == Some(c) && g.results[r][k - 1] == Some(s))) by {
            if received_before(g, c, s, r, k) {
                let (r2, k2) = choose|r2: int, k2: int|
                    0 <= r2 < MAX_ATTEMPTS && 0 <= k2 < WORD_LENGTH && (r2 < r || (r2 == r && k2
                        < k)) && #[trigger] g.board[r2][k2] == Some(c) && #[trigger] g.results[r2][k2]
                        == Some(s);
                if !(r2 == r && k2 == k - 1) {
                    assert(received_before(g, c, s, r, k - 1));
                }
            }
        }
    }
}

/// The on-screen keyboard: the key of a letter shows the best colour the letter has
/// received in the submitted rows (`Correct` over `Misplaced` over `Absent`), and no
/// colour when the letter has not been submitted.
pub proof fn lemma_keyboard_best_state(g: GameModel, c: char)
    requires
        g.wf(),
    ensures
        g.keyboard_state(c) == best_received(g, c, g.row, 0),
{
    lemma_key_state_best(g, c, g.row, 0);
}

} // verus!
