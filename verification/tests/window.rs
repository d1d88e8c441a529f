use pordle::db::{DailyResult, DatabaseManager};
use pordle::game::state::{Game, LetterState, Phase};
use pordle::ui::keyboard::KeyEvent;
use pordle::ui::window::{
    answer_enter, choose_answer, finish_action, first_query, generate_emoji_share, handle_key,
    pick_word, resume_daily_game, FinishAction, GameMode, KeyResponse, WordQuery,
};

fn memory_db(words: &str) -> DatabaseManager {
    let mut db = DatabaseManager::open(":memory:").unwrap();
    db.import_from_string(words);
    db
}

fn type_word(game: &mut Game, db: &DatabaseManager, word: &str) {
    for c in word.chars() {
        handle_key(game, db, GameMode::Daily, "2024-01-01", KeyEvent::Letter(c));
    }
}

#[test]
fn pick_word_by_mode() {
    let db = memory_db("");
    assert_eq!(pick_word(&db, GameMode::Daily, 5), "?????");
    assert_eq!(pick_word(&db, GameMode::Practice, 5), "?????");
    let db = memory_db("اسلام, بهاری");
    assert_eq!(pick_word(&db, GameMode::Daily, 1), "بهاری");
    let w = pick_word(&db, GameMode::Practice, 0);
    assert!(w == "اسلام" || w == "بهاری");
}

#[test]
fn resume_daily_game_only_on_same_answer() {
    let saved = DailyResult {
        date: "2024-01-01".to_string(),
        answer: "اسلام".to_string(),
        won: false,
        guesses: vec!["بهاری".to_string()],
    };
    let (g, restored) = resume_daily_game("اسلام".to_string(), Some(saved.clone()));
    assert!(restored);
    assert_eq!(g.current_row, 1);
    let (g, restored) = resume_daily_game("بهاری".to_string(), Some(saved));
    assert!(!restored);
    assert_eq!(g.current_row, 0);
    let (g, restored) = resume_daily_game("بهاری".to_string(), None);
    assert!(!restored);
    assert_eq!(g.answer_string(), "بهاری");
}

#[test]
fn keys_type_and_erase() {
    let db = memory_db("اسلام");
    let mut g = Game::new("اسلام".to_string());
    let r = handle_key(&mut g, &db, GameMode::Practice, "d", KeyEvent::Letter('ب'));
    assert!(matches!(r, KeyResponse::Typed { row: 0, col: 0, letter: 'ب' }));
    let r = handle_key(&mut g, &db, GameMode::Practice, "d", KeyEvent::Backspace);
    assert!(matches!(r, KeyResponse::Erased { row: 0, col: 0 }));
    let r = handle_key(&mut g, &db, GameMode::Practice, "d", KeyEvent::Backspace);
    assert!(matches!(r, KeyResponse::Ignored));
    let r = handle_key(&mut g, &db, GameMode::Practice, "d", KeyEvent::Enter);
    assert!(matches!(r, KeyResponse::NotEnoughLetters));
}

#[test]
fn enter_refuses_unknown_words_and_scores_known_ones() {
    let db = memory_db("اسلام, بهاری");
    let mut g = Game::new("اسلام".to_string());
    type_word(&mut g, &db, "درختی");
    let r = handle_key(&mut g, &db, GameMode::Daily, "2024-01-01", KeyEvent::Letter('x'));
    assert!(matches!(r, KeyResponse::Ignored));
    let r = handle_key(&mut g, &db, GameMode::Daily, "2024-01-01", KeyEvent::Enter);
    assert!(matches!(r, KeyResponse::UnknownWord));
    assert_eq!(g.current_row, 0);
    for _ in 0..5 {
        handle_key(&mut g, &db, GameMode::Daily, "2024-01-01", KeyEvent::Backspace);
    }
    type_word(&mut g, &db, "اسلام");
    let r = handle_key(&mut g, &db, GameMode::Daily, "2024-01-01", KeyEvent::Enter);
    match r {
        KeyResponse::Scored { row, result, phase, answer } => {
            assert_eq!(row, 0);
            assert_eq!(result, [LetterState::Correct; 5]);
            assert_eq!(phase, Phase::Won);
            assert_eq!(answer, "اسلام");
        }
        other => panic!("unexpected {:?}", other),
    }
    let stats = db.get_stats();
    assert_eq!(stats.games_played, 1);
    assert_eq!(stats.guess_distribution, [1, 0, 0, 0, 0, 0]);
    let saved = db.load_daily_result("2024-01-01").unwrap();
    assert!(saved.won);
    assert_eq!(saved.guesses, vec!["اسلام".to_string()]);
    let r = handle_key(&mut g, &db, GameMode::Daily, "2024-01-01", KeyEvent::Enter);
    assert!(matches!(r, KeyResponse::Ignored));
}

#[test]
fn losing_records_a_loss() {
    let db = memory_db("اسلام, بهاری");
    let mut g = Game::new("اسلام".to_string());
    for _ in 0..6 {
        type_word(&mut g, &db, "بهاری");
        let r = handle_key(&mut g, &db, GameMode::Practice, "day", KeyEvent::Enter);
        assert!(matches!(r, KeyResponse::Scored { .. }));
    }
    assert_eq!(g.phase, Phase::Lost);
    let stats = db.get_stats();
    assert_eq!((stats.games_played, stats.games_won), (1, 0));
    assert!(db.load_daily_result("day").is_none());
}

#[test]
fn answer_enter_decides_on_the_known_flag() {
    let mut g = Game::new("abcde".to_string());
    for c in "abcdx".chars() {
        g.type_letter(c).unwrap();
    }
    assert!(matches!(answer_enter(&mut g, false), KeyResponse::UnknownWord));
    assert_eq!(g.current_row, 0);
    match answer_enter(&mut g, true) {
        KeyResponse::Scored { row, phase, .. } => {
            assert_eq!(row, 0);
            assert_eq!(phase, Phase::Playing);
        }
        other => panic!("unexpected {:?}", other),
    }
}

#[test]
fn emoji_share_lists_rows() {
    let mut g = Game::new("crane".to_string());
    assert_eq!(generate_emoji_share(&g), "پردل\n");
    for c in "acorn".chars() {
        g.type_letter(c).unwrap();
    }
    g.submit_guess().unwrap();
    for c in "crane".chars() {
        g.type_letter(c).unwrap();
    }
    g.submit_guess().unwrap();
    assert_eq!(generate_emoji_share(&g), "پردل\n🟨🟨⬛🟨🟨\n🟩🟩🟩🟩🟩\n");
}

#[test]
fn first_query_by_mode() {
    assert_eq!(first_query(GameMode::Daily), WordQuery::WordOfDay);
    assert_eq!(first_query(GameMode::Practice), WordQuery::Random);
}

#[test]
fn choose_answer_falls_back_in_order() {
    let w = |s: &str| Some(s.to_string());
    assert_eq!(choose_answer(w("اسلام"), 0, w("بهاری")), "اسلام");
    assert_eq!(choose_answer(None, 0, w("بهاری")), "?????");
    assert_eq!(choose_answer(None, 3, w("بهاری")), "بهاری");
    assert_eq!(choose_answer(None, 3, None), "?????");
}

#[test]
fn finish_action_by_phase() {
    assert_eq!(
        finish_action(Phase::Won, 2, GameMode::Daily),
        Some(FinishAction { won: true, guess_count: 3, save_daily: true })
    );
    assert_eq!(
        finish_action(Phase::Won, 0, GameMode::Practice),
        Some(FinishAction { won: true, guess_count: 1, save_daily: false })
    );
    assert_eq!(
        finish_action(Phase::Lost, 5, GameMode::Daily),
        Some(FinishAction { won: false, guess_count: 0, save_daily: true })
    );
    assert_eq!(finish_action(Phase::Playing, 1, GameMode::Daily), None);
}

#[test]
fn daily_win_on_third_row_is_counted_and_saved() {
    let db = memory_db("اسلام, بهاری, درختی");
    let mut g = Game::new("اسلام".to_string());
    for word in ["بهاری", "درختی", "اسلام"] {
        type_word(&mut g, &db, word);
        let r = handle_key(&mut g, &db, GameMode::Daily, "2024-02-02", KeyEvent::Enter);
        assert!(matches!(r, KeyResponse::Scored { .. }));
    }
    assert_eq!(g.phase, Phase::Won);
    let stats = db.get_stats();
    assert_eq!((stats.games_played, stats.games_won, stats.current_streak), (1, 1, 1));
    assert_eq!(stats.guess_distribution, [0, 0, 1, 0, 0, 0]);
    let saved = db.load_daily_result("2024-02-02").unwrap();
    assert!(saved.won);
    assert_eq!(saved.answer, "اسلام");
    assert_eq!(saved.guesses, vec!["بهاری", "درختی", "اسلام"]);
}
