use pordle::db::{AddWordResult, DatabaseManager};
use rusqlite::Connection;

/// The database in the file at `path`, emptied, and a second connection to the same file.
fn fresh(path: &str) -> (DatabaseManager, Connection) {
    let db = DatabaseManager::open(path).unwrap();
    let conn = Connection::open(path).unwrap();
    conn.execute_batch(
        "DELETE FROM words;
         DELETE FROM daily_results;
         UPDATE stats SET games_played = 0, games_won = 0, current_streak = 0,
             max_streak = 0, guess_distribution = '[0,0,0,0,0,0]';",
    )
    .unwrap();
    (db, conn)
}

fn text_of(conn: &Connection, sql: &str) -> String {
    conn.query_row(sql, [], |row| row.get::<_, String>(0)).unwrap()
}

#[test]
fn stored_distribution_is_compact_json() {
    let (db, conn) = fresh("/tmp/pordle_stored_distribution.db");
    db.record_game(true, 3).unwrap();
    db.record_game(true, 1).unwrap();
    db.record_game(false, 0).unwrap();
    assert_eq!(
        text_of(&conn, "SELECT guess_distribution FROM stats WHERE id = 1"),
        "[1,0,1,0,0,0]"
    );
    let played: i32 = conn
        .query_row("SELECT games_played FROM stats WHERE id = 1", [], |row| row.get(0))
        .unwrap();
    assert_eq!(played, 3);
}

#[test]
fn stored_guesses_are_a_json_list() {
    let (db, conn) = fresh("/tmp/pordle_stored_guesses.db");
    let guesses = vec!["a\"b\\c\n".to_string(), "سلام".to_string()];
    db.save_daily_result("2024-02-03", "اسلام", true, &guesses).unwrap();
    assert_eq!(
        text_of(&conn, "SELECT guesses FROM daily_results WHERE date = '2024-02-03'"),
        "[\"a\\\"b\\\\c\\n\",\"سلام\"]"
    );
    let won: i32 = conn
        .query_row("SELECT won FROM daily_results WHERE date = '2024-02-03'", [], |row| row.get(0))
        .unwrap();
    assert_eq!(won, 1);
    let back = db.load_daily_result("2024-02-03").unwrap();
    assert_eq!(back.guesses, guesses);
}

#[test]
fn words_are_stored_normalized() {
    let (mut db, conn) = fresh("/tmp/pordle_stored_words.db");
    assert_eq!(db.add_word(" 'آزادي' ").unwrap(), AddWordResult::Added);
    assert_eq!(text_of(&conn, "SELECT word FROM words"), "ازادی");
}

#[test]
fn distribution_that_is_not_json_reads_as_zeros() {
    let (db, conn) = fresh("/tmp/pordle_bad_distribution.db");
    conn.execute_batch("UPDATE stats SET games_played = 7, guess_distribution = 'oops' WHERE id = 1")
        .unwrap();
    let s = db.get_stats();
    assert_eq!(s.games_played, 7);
    assert_eq!(s.guess_distribution, [0; 6]);
}

#[test]
fn word_stored_elsewhere_is_read_normalized() {
    let (db, conn) = fresh("/tmp/pordle_foreign_word.db");
    conn.execute("INSERT INTO words (word) VALUES (?1)", ("كتابي",)).unwrap();
    assert_eq!(db.random_word(), Some("کتابی".to_string()));
    assert_eq!(db.daily_word(9), Some("کتابی".to_string()));
    assert_eq!(db.word_count(), 1);
}
