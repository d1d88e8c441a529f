use pordle::db::{
    clean_word, count_added, daily_index, daily_position, daily_row, local_day_number,
    next_seed_action, parse_word_list, AddWordResult, DailyResult, DatabaseManager, GameStats,
    SeedAction,
};

fn memory_db() -> DatabaseManager {
    DatabaseManager::open(":memory:").unwrap()
}

#[test]
fn parse_word_list_splits_lines_commas_and_brackets() {
    let words = parse_word_list("  سلام \n\n['آزادی', \"کتاب\"],\r\nدرخت ,, ]\n");
    assert_eq!(words, vec!["سلام", "آزادی", "کتاب", "درخت"]);
    assert!(parse_word_list("").is_empty());
    assert!(parse_word_list(" , [ ] \n").is_empty());
    assert_eq!(parse_word_list("a b"), vec!["a b"]);
}

#[test]
fn clean_word_trims_normalizes_and_checks() {
    assert_eq!(clean_word(" 'آزادي' "), Some("ازادی".to_string()));
    assert_eq!(clean_word("\"كتابی\""), Some("کتابی".to_string()));
    assert_eq!(clean_word("کتاب"), None);
    assert_eq!(clean_word("کتابها"), None);
    assert_eq!(clean_word("hello"), None);
    assert_eq!(clean_word("' کتابی'"), None);
}

#[test]
fn add_word_reports_added_duplicate_invalid() {
    let mut db = memory_db();
    assert_eq!(db.word_count(), 0);
    assert_eq!(db.add_word("آزادی").unwrap(), AddWordResult::Added);
    assert_eq!(db.add_word("ازادی").unwrap(), AddWordResult::Duplicate);
    assert_eq!(db.add_word("abcde").unwrap(), AddWordResult::Invalid);
    assert_eq!(db.add_word("سلام").unwrap(), AddWordResult::Invalid);
    assert_eq!(db.word_count(), 1);
    assert!(db.is_valid_word("ازادی"));
    assert!(db.is_valid_word("آزادی"));
    assert!(!db.is_valid_word("اسلام"));
}

#[test]
fn is_valid_word_normalizes_the_query() {
    let mut db = memory_db();
    db.add_word("كتابي").unwrap();
    assert!(db.is_valid_word("کتابی"));
    assert!(db.is_valid_word("كتابي"));
}

#[test]
fn import_counts_words_and_additions() {
    let mut db = memory_db();
    let (total, added) = db.import_from_string("['اسلام', 'آزادی', 'اسلام', 'bad', 'کتاب']\nدرختی\n");
    assert_eq!(total, 6);
    assert_eq!(added, 3);
    assert_eq!(db.word_count(), 3);
    assert!(db.is_valid_word("اسلام"));
    assert!(db.is_valid_word("درختی"));
}

#[test]
fn daily_word_picks_by_day_in_alphabetical_order() {
    let mut db = memory_db();
    assert_eq!(db.daily_word(3), None);
    db.import_from_string("بهاری, اسلام, درختی");
    assert_eq!(db.daily_word(0), Some("اسلام".to_string()));
    assert_eq!(db.daily_word(1), Some("بهاری".to_string()));
    assert_eq!(db.daily_word(2), Some("درختی".to_string()));
    assert_eq!(db.daily_word(4), Some("بهاری".to_string()));
}

#[test]
fn random_word_comes_from_the_list() {
    let mut db = memory_db();
    assert_eq!(db.random_word(), None);
    db.add_word("اسلام").unwrap();
    assert_eq!(db.random_word(), Some("اسلام".to_string()));
}

#[test]
fn local_day_number_counts_whole_days() {
    assert_eq!(local_day_number(0, 0), 0);
    assert_eq!(local_day_number(86399, 0), 0);
    assert_eq!(local_day_number(86400, 0), 1);
    assert_eq!(local_day_number(86000, 12600), 1);
    assert_eq!(local_day_number(1_700_000_000, 0), 19675);
    assert_eq!(local_day_number(-1, 0), 0);
    assert_eq!(local_day_number(-86400, 0), usize::MAX);
}

#[test]
fn stats_start_empty_and_record_games() {
    let db = memory_db();
    let s = db.get_stats();
    assert_eq!((s.games_played, s.games_won, s.current_streak, s.max_streak), (0, 0, 0, 0));
    assert_eq!(s.guess_distribution, [0; 6]);
    db.record_game(true, 3).unwrap();
    db.record_game(true, 1).unwrap();
    db.record_game(false, 0).unwrap();
    db.record_game(true, 3).unwrap();
    db.record_game(true, 7).unwrap();
    let s = db.get_stats();
    assert_eq!(s.games_played, 5);
    assert_eq!(s.games_won, 4);
    assert_eq!(s.current_streak, 2);
    assert_eq!(s.max_streak, 2);
    assert_eq!(s.guess_distribution, [1, 0, 2, 0, 0, 0]);
}

#[test]
fn game_stats_record_in_memory() {
    let mut s = GameStats::empty();
    s.record(true, 6);
    assert_eq!(s.guess_distribution, [0, 0, 0, 0, 0, 1]);
    assert_eq!(s.max_streak, 1);
    s.record(false, 2);
    assert_eq!(s.current_streak, 0);
    assert_eq!(s.max_streak, 1);
    assert_eq!(s.games_played, 2);
    assert!(s.fits_record(true, 1));
    let full = GameStats { games_played: i32::MAX, ..GameStats::empty() };
    assert!(!full.fits_record(false, 0));
}

#[test]
fn stats_from_row_reads_the_distribution() {
    let s = GameStats::from_row(4, 3, 1, 2, "[1,0,2,0,0,0]");
    assert_eq!(s.guess_distribution, [1, 0, 2, 0, 0, 0]);
    let s = GameStats::from_row(4, 3, 1, 2, " [ 1 , -2 ,3,4,5,6 ] ");
    assert_eq!(s.guess_distribution, [1, -2, 3, 4, 5, 6]);
    let s = GameStats::from_row(4, 3, 1, 2, "[1,2,3]");
    assert_eq!(s.guess_distribution, [0; 6]);
    let s = GameStats::from_row(4, 3, 1, 2, "not json");
    assert_eq!(s.guess_distribution, [0; 6]);
    assert_eq!((s.games_played, s.games_won, s.current_streak, s.max_streak), (4, 3, 1, 2));
}

#[test]
fn daily_result_round_trip() {
    let db = memory_db();
    assert!(db.load_daily_result("2024-01-01").is_none());
    let guesses = vec!["سلامي".to_string(), "آزادی".to_string()];
    db.save_daily_result("2024-01-01", "آزادی", true, &guesses).unwrap();
    let r = db.load_daily_result("2024-01-01").unwrap();
    assert_eq!(r.date, "2024-01-01");
    assert_eq!(r.answer, "ازادی");
    assert!(r.won);
    assert_eq!(r.guesses, vec!["سلامی".to_string(), "ازادی".to_string()]);
    db.save_daily_result("2024-01-01", "اسلام", false, &[]).unwrap();
    let r = db.load_daily_result("2024-01-01").unwrap();
    assert_eq!(r.answer, "اسلام");
    assert!(!r.won);
    assert!(r.guesses.is_empty());
}

#[test]
fn daily_result_from_row_decodes() {
    let r = DailyResult::from_row("d".to_string(), "كتابي".to_string(), 2, "[\"a\\\"b\",\"ك\"]");
    assert_eq!(r.answer, "کتابی");
    assert!(r.won);
    assert_eq!(r.guesses, vec!["a\"b".to_string(), "ک".to_string()]);
    let r = DailyResult::from_row("d".to_string(), "x".to_string(), 0, "{}");
    assert!(!r.won);
    assert!(r.guesses.is_empty());
}

#[test]
fn daily_row_flags_and_encodes() {
    let guesses = vec!["بهاری".to_string(), "a\"b".to_string()];
    assert_eq!(daily_row(true, &guesses), (1, "[\"بهاری\",\"a\\\"b\"]".to_string()));
    assert_eq!(daily_row(false, &[]), (0, "[]".to_string()));
}

#[test]
fn daily_index_wraps_by_the_count() {
    assert_eq!(daily_index(0, 3), 0);
    assert_eq!(daily_index(7, 3), 1);
    assert_eq!(daily_index(19000, 1), 0);
    assert_eq!(daily_index(19723, 100), 23);
}

#[test]
fn count_added_counts_only_added() {
    let outcomes = vec![
        Ok(AddWordResult::Added),
        Ok(AddWordResult::Duplicate),
        Err(rusqlite::Error::QueryReturnedNoRows),
        Ok(AddWordResult::Invalid),
        Ok(AddWordResult::Added),
    ];
    assert_eq!(count_added(&outcomes), 2);
    assert_eq!(count_added(&[]), 0);
}

#[test]
fn row_after_game_counts_or_refuses() {
    let s = GameStats::from_row(3, 2, 2, 2, "[0,1,1,0,0,0]");
    let (next, text) = s.row_after_game(true, 4).unwrap();
    assert_eq!((next.games_played, next.games_won, next.current_streak, next.max_streak), (4, 3, 3, 3));
    assert_eq!(next.guess_distribution, [0, 1, 1, 1, 0, 0]);
    assert_eq!(text, "[0,1,1,1,0,0]");
    let (next, text) = s.row_after_game(false, 0).unwrap();
    assert_eq!((next.games_played, next.games_won, next.current_streak, next.max_streak), (4, 2, 0, 2));
    assert_eq!(text, "[0,1,1,0,0,0]");
    let full = GameStats { current_streak: i32::MAX, ..s };
    assert!(full.row_after_game(true, 1).is_none());
    assert!(full.row_after_game(false, 0).is_some());
}

#[test]
fn record_game_after_refuses_a_full_counter() {
    let db = memory_db();
    let full = GameStats { games_played: i32::MAX, ..GameStats::empty() };
    assert!(db.record_game_after(&full, false, 0).is_err());
    assert_eq!(db.get_stats().games_played, 0);
    let read = GameStats::from_row(2, 1, 1, 1, "[1,0,0,0,0,0]");
    db.record_game_after(&read, true, 2).unwrap();
    let s = db.get_stats();
    assert_eq!((s.games_played, s.games_won, s.current_streak, s.max_streak), (3, 2, 2, 2));
    assert_eq!(s.guess_distribution, [1, 1, 0, 0, 0, 0]);
}

#[test]
fn daily_position_is_none_for_an_empty_list() {
    assert_eq!(daily_position(10, 0), None);
    assert_eq!(daily_position(10, 4), Some(2));
    assert_eq!(daily_position(3, 4), Some(3));
}

#[test]
fn record_game_returns_what_it_wrote() {
    let db = memory_db();
    let s = db.record_game(true, 3).unwrap();
    assert_eq!((s.games_played, s.games_won, s.current_streak, s.max_streak), (1, 1, 1, 1));
    assert_eq!(s.guess_distribution, [0, 0, 1, 0, 0, 0]);
    let t = db.get_stats();
    assert_eq!((t.games_played, t.games_won, t.current_streak, t.max_streak), (1, 1, 1, 1));
    assert_eq!(t.guess_distribution, [0, 0, 1, 0, 0, 0]);
    let s = db.record_game(false, 0).unwrap();
    assert_eq!((s.games_played, s.games_won, s.current_streak, s.max_streak), (2, 1, 0, 1));
    assert_eq!(s.guess_distribution, [0, 0, 1, 0, 0, 0]);
}

#[test]
fn next_seed_action_steps() {
    assert_eq!(next_seed_action(5, 0, 2), SeedAction::Stop);
    assert_eq!(next_seed_action(0, 0, 2), SeedAction::ImportFile(0));
    assert_eq!(next_seed_action(0, 1, 2), SeedAction::ImportFile(1));
    assert_eq!(next_seed_action(0, 2, 2), SeedAction::ImportEmbedded);
    assert_eq!(next_seed_action(0, 0, 0), SeedAction::ImportEmbedded);
}

#[test]
fn seeding_falls_back_to_the_built_in_list() {
    // Two word files, neither of which gives a word, then the built-in list.
    let files: [Option<&str>; 2] = [None, Some("hello, world")];
    let built_in = "آزادی\nاسلام, کتابی\n";
    let mut db = memory_db();
    let mut next = 0;
    let mut embedded_used = false;
    loop {
        match next_seed_action(db.word_count(), next, files.len()) {
            SeedAction::Stop => break,
            SeedAction::ImportFile(i) => {
                if let Some(text) = files[i] {
                    db.import_from_string(text);
                }
                next = i + 1;
            }
            SeedAction::ImportEmbedded => {
                assert_eq!(db.import_from_string(built_in), (3, 3));
                embedded_used = true;
                break;
            }
        }
    }
    assert!(embedded_used);
    assert_eq!(db.word_count(), 3);
    assert!(db.is_valid_word("آزادی"));
    assert!(db.is_valid_word("اسلام"));
    assert_eq!(next_seed_action(db.word_count(), 0, files.len()), SeedAction::Stop);
}
