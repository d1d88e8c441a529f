use pordle::game::state::{evaluate_guess, Game, LetterState, Phase, MAX_ATTEMPTS, WORD_LENGTH};

use LetterState::{Absent, Correct, Misplaced};

fn chars(s: &str) -> Vec<char> {
    s.chars().collect()
}

fn play(game: &mut Game, word: &str) -> Result<[LetterState; WORD_LENGTH], &'static str> {
    for c in word.chars() {
        let _ = game.type_letter(c);
    }
    game.submit_guess()
}

#[test]
fn evaluate_exact_and_absent() {
    let r = evaluate_guess(&chars("crane"), &chars("crane"));
    assert_eq!(r, [Correct; 5]);
    let r = evaluate_guess(&chars("xyzwv"), &chars("crane"));
    assert_eq!(r, [Absent; 5]);
}

#[test]
fn evaluate_misplaced_letters() {
    let r = evaluate_guess(&chars("nacre"), &chars("crane"));
    assert_eq!(r, [Misplaced, Misplaced, Misplaced, Misplaced, Correct]);
}

#[test]
fn evaluate_repeated_letters() {
    assert_eq!(
        evaluate_guess(&chars("erase"), &chars("speed")),
        [Misplaced, Absent, Absent, Misplaced, Misplaced]
    );
    assert_eq!(
        evaluate_guess(&chars("kebab"), &chars("abbey")),
        [Absent, Misplaced, Correct, Misplaced, Misplaced]
    );
    assert_eq!(
        evaluate_guess(&chars("bobby"), &chars("abbey")),
        [Misplaced, Absent, Correct, Absent, Correct]
    );
    assert_eq!(
        evaluate_guess(&chars("eeeee"), &chars("speed")),
        [Absent, Absent, Correct, Correct, Absent]
    );
}

#[test]
fn evaluate_persian_word() {
    assert_eq!(
        evaluate_guess(&chars("سلامت"), &chars("اسلام")),
        [Misplaced, Misplaced, Misplaced, Misplaced, Absent]
    );
}

#[test]
fn new_game_is_empty() {
    let g = Game::new("crane".to_string());
    assert_eq!(g.answer, chars("crane"));
    assert_eq!(g.current_row, 0);
    assert_eq!(g.current_col, 0);
    assert_eq!(g.phase, Phase::Playing);
    assert!(g.board.iter().all(|r| r.iter().all(|c| c.is_none())));
    assert!(g.results.iter().all(|r| r.iter().all(|c| c.is_none())));
    assert_eq!(g.answer_string(), "crane");
    assert!(g.guesses().is_empty());
    assert_eq!(g.current_guess_string(), "");
}

#[test]
fn typing_fills_the_row_then_refuses() {
    let mut g = Game::new("crane".to_string());
    for (i, c) in "abcde".chars().enumerate() {
        assert_eq!(g.type_letter(c), Ok(()));
        assert_eq!(g.current_col, i + 1);
        assert_eq!(g.board[0][i], Some(c));
    }
    assert_eq!(g.type_letter('f'), Err(()));
    assert_eq!(g.current_col, WORD_LENGTH);
    assert_eq!(g.current_guess_string(), "abcde");
}

#[test]
fn backspace_undoes_typing() {
    let mut g = Game::new("crane".to_string());
    g.delete_letter();
    assert_eq!(g.current_col, 0);
    g.type_letter('x').unwrap();
    g.type_letter('y').unwrap();
    g.delete_letter();
    assert_eq!(g.current_col, 1);
    assert_eq!(g.board[0][1], None);
    assert_eq!(g.current_guess_string(), "x");
}

#[test]
fn submit_needs_a_full_row() {
    let mut g = Game::new("crane".to_string());
    g.type_letter('c').unwrap();
    assert_eq!(g.submit_guess(), Err("Not enough letters"));
    assert_eq!(g.current_row, 0);
    assert_eq!(g.current_col, 1);
}

#[test]
fn winning_game() {
    let mut g = Game::new("crane".to_string());
    let r = play(&mut g, "nacre").unwrap();
    assert_eq!(r, [Misplaced, Misplaced, Misplaced, Misplaced, Correct]);
    assert_eq!(g.phase, Phase::Playing);
    assert_eq!(g.current_row, 1);
    assert_eq!(g.results[0], r.map(Some));
    let r = play(&mut g, "crane").unwrap();
    assert_eq!(r, [Correct; 5]);
    assert_eq!(g.phase, Phase::Won);
    assert_eq!(g.type_letter('a'), Err(()));
    assert_eq!(g.submit_guess(), Err("Game is over"));
    assert_eq!(g.guesses(), vec!["nacre".to_string(), "crane".to_string()]);
}

#[test]
fn losing_game_after_six_rows() {
    let mut g = Game::new("crane".to_string());
    for i in 0..MAX_ATTEMPTS {
        assert_eq!(g.phase, Phase::Playing);
        play(&mut g, "xxxxx").unwrap();
        assert_eq!(g.current_row, i + 1);
    }
    assert_eq!(g.phase, Phase::Lost);
    assert_eq!(g.submit_guess(), Err("Game is over"));
    assert_eq!(g.guesses().len(), MAX_ATTEMPTS);
}

#[test]
fn keyboard_keeps_the_best_colour() {
    let mut g = Game::new("crane".to_string());
    play(&mut g, "acorn").unwrap();
    play(&mut g, "crane").unwrap();
    let states = g.keyboard_states();
    let get = |c: char| states.iter().find(|(k, _)| *k == c).map(|(_, s)| *s);
    assert_eq!(get('a'), Some(Correct));
    assert_eq!(get('c'), Some(Correct));
    assert_eq!(get('o'), Some(Absent));
    assert_eq!(get('r'), Some(Correct));
    assert_eq!(get('n'), Some(Correct));
    assert_eq!(get('e'), Some(Correct));
    assert_eq!(get('z'), None);
    let mut keys: Vec<char> = states.iter().map(|(k, _)| *k).collect();
    keys.sort();
    keys.dedup();
    assert_eq!(keys.len(), states.len());
}

#[test]
fn keyboard_misplaced_is_not_lowered() {
    let mut g = Game::new("abcde".to_string());
    play(&mut g, "xaxxx").unwrap();
    play(&mut g, "xxxax").unwrap();
    let states = g.keyboard_states();
    let get = |c: char| states.iter().find(|(k, _)| *k == c).map(|(_, s)| *s);
    assert_eq!(get('a'), Some(Misplaced));
    assert_eq!(get('x'), Some(Absent));
}

#[test]
fn restore_replays_the_guesses() {
    let mut g = Game::new("crane".to_string());
    play(&mut g, "acorn").unwrap();
    play(&mut g, "nacre").unwrap();
    let r = Game::restore_with_guesses(g.answer_string(), &g.guesses());
    assert_eq!(r.board, g.board);
    assert_eq!(r.results, g.results);
    assert_eq!(r.current_row, g.current_row);
    assert_eq!(r.current_col, 0);
    assert_eq!(r.phase, g.phase);
}

#[test]
fn restore_of_a_won_game() {
    let guesses = vec!["acorn".to_string(), "crane".to_string(), "zzzzz".to_string()];
    let r = Game::restore_with_guesses("crane".to_string(), &guesses);
    assert_eq!(r.phase, Phase::Won);
    assert_eq!(r.current_row, 2);
}

#[test]
fn restore_passes_over_short_and_long_guesses() {
    let guesses = vec!["ab".to_string(), "cdefgh".to_string()];
    let r = Game::restore_with_guesses("crane".to_string(), &guesses);
    assert_eq!(r.current_row, 1);
    assert_eq!(r.guesses(), vec!["abcde".to_string()]);
}

#[test]
fn evaluate_reads_only_the_first_five_letters() {
    assert_eq!(
        evaluate_guess(&chars("nacrexyz"), &chars("cranen")),
        [Misplaced, Misplaced, Misplaced, Misplaced, Correct]
    );
    assert_eq!(evaluate_guess(&chars("cranes"), &chars("crane")), [Correct; 5]);
}

#[test]
fn letters_go_into_a_hand_set_row() {
    let mut g = Game::new("crane".to_string());
    g.current_row = 2;
    assert_eq!(g.type_letter('x'), Ok(()));
    assert_eq!(g.board[2][0], Some('x'));
    g.delete_letter();
    assert_eq!((g.board[2][0], g.current_col), (None, 0));
    assert_eq!(g.guesses(), vec!["     ".to_string(), "     ".to_string()]);
}
