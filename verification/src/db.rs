use vstd::prelude::*;

use rusqlite::{Connection, Error};

use crate::json::{
    int_array_from_json, int_array_to_json, json_int_array, json_string_array, parsed_int_array6,
    parsed_string_array,
    strings_from_json, strings_to_json,
};
use crate::persian::{is_persian_letter, normalize_persian_str, spec_is_persian_letter, spec_normalize_str};
use crate::sql;
use crate::text::{chars_of, clean_chars, clean_token, lemma_split_nonempty, split_by, string_of};

verus! {

/// The characters at which a word list is cut: line ends, commas and square brackets.
pub open spec fn is_list_separator(c: char) -> bool {
    c == '\n' || c == ',' || c == '[' || c == ']'
}

pub open spec fn list_separator_pred() -> spec_fn(char) -> bool {
    |c: char| is_list_separator(c)
}

/// The cleaned pieces that are not empty, in order.
pub open spec fn kept_tokens(pieces: Seq<Seq<char>>) -> Seq<Seq<char>>
    decreases pieces.len(),
{
    if pieces.len() == 0 {
        Seq::empty()
    } else {
        let rest = kept_tokens(pieces.drop_last());
        let t = clean_token(pieces.last());
        if t.len() > 0 {
            rest.push(t)
        } else {
            rest
        }
    }
}

/// The words of a word list: its lines cut at commas and square brackets, each piece
/// stripped of surrounding whitespace and then of single and double quotes, and the
/// pieces left empty dropped. (Lines are read as `str::lines` reads them; the `\r` that
/// it drops is whitespace, which the trimming drops as well.)
pub open spec fn word_list_tokens(content: Seq<char>) -> Seq<Seq<char>> {
    kept_tokens(split_by(content, list_separator_pred()))
}

/// A word as it is stored: cleaned as a word-list token, then normalized.
pub open spec fn cleaned_word(word: Seq<char>) -> Seq<char> {
    spec_normalize_str(clean_token(word))
}

/// A stored word is made of exactly five Persian letters.
pub open spec fn is_acceptable_word(w: Seq<char>) -> bool {
    w.len() == 5 && forall|i: int| 0 <= i < w.len() ==> spec_is_persian_letter(#[trigger] w[i])
}

/// How many of `tokens` are acceptable once cleaned.
pub open spec fn acceptable_count(tokens: Seq<Seq<char>>) -> nat
    decreases tokens.len(),
{
    if tokens.len() == 0 {
        0
    } else {
        acceptable_count(tokens.drop_last()) + (if is_acceptable_word(cleaned_word(tokens.last())) {
            1nat
        } else {
            0nat
        })
    }
}

/// Every word of a word list is non-empty and free of line ends, commas and brackets.
pub proof fn lemma_word_list_tokens_clean(content: Seq<char>)
    ensures
        forall|i: int|
            0 <= i < word_list_tokens(content).len() ==> #[trigger] word_list_tokens(content)[i].len()
                > 0,
{
    lemma_kept_tokens_nonempty(split_by(content, list_separator_pred()));
}

proof fn lemma_kept_tokens_nonempty(pieces: Seq<Seq<char>>)
    ensures
        forall|i: int| 0 <= i < kept_tokens(pieces).len() ==> #[trigger] kept_tokens(pieces)[i].len() > 0,
    decreases pieces.len(),
{
    if pieces.len() > 0 {
        let rest = kept_tokens(pieces.drop_last());
        lemma_kept_tokens_nonempty(pieces.drop_last());
        assert forall|i: int| 0 <= i < kept_tokens(pieces).len() implies #[trigger] kept_tokens(
            pieces,
        )[i].len() > 0 by {
            if i < rest.len() {
                assert(kept_tokens(pieces)[i] == rest[i]);
            }
        }
    }
}

/// The words of a word list (see `word_list_tokens`), in order.
pub fn parse_word_list(content: &str) -> (r: Vec<String>)
    ensures
        r.deep_view() == word_list_tokens(content@),
{
    let chars = chars_of(content);
    let ghost sep = list_separator_pred();
    let mut tokens: Vec<String> = Vec::new();
    let mut current: Vec<char> = Vec::new();
    let mut i: usize = 0;
    proof {
        lemma_split_nonempty(chars@.take(0), sep);
        assert(chars@.take(0).len() == 0);
    }
    while i < chars.len()
        invariant
            i <= chars@.len(),
            chars@ == content@,
            sep == list_separator_pred(),
            split_by(chars@.take(i as int), sep).len() >= 1,
            current@ == split_by(chars@.take(i as int), sep).last(),
            tokens.deep_view() == kept_tokens(split_by(chars@.take(i as int), sep).drop_last()),
        decreases chars@.len() - i,
    {
        let c = chars[i];
        let ghost pre = chars@.take(i as int);
        let ghost pieces = split_by(pre, sep);
        proof {
            let next = chars@.take(i + 1);
            assert(next.drop_last() == pre);
            assert(next.last() == c);
        }
        if c == '\n' || c == ',' || c == '[' || c == ']' {
            let t = clean_chars(current.as_slice());
            let ghost before = tokens.deep_view();
            if t.len() > 0 {
                tokens.push(string_of(t.as_slice()));
                proof {
                    assert(tokens.deep_view() =~= before.push(t@));
                }
            }
            current = Vec::new();
            proof {
                let np = pieces.push(Seq::empty());
                assert(np.drop_last() == pieces);
                assert(pieces == pieces.drop_last().push(pieces.last()));
            }
        } else {
            current.push(c);
            proof {
                let np = pieces.update(pieces.len() - 1, pieces.last().push(c));
                assert(np.drop_last() == pieces.drop_last());
            }
        }
        i = i + 1;
    }
    proof {
        assert(chars@.take(chars@.len() as int) == chars@);
    }
    let ghost pieces = split_by(chars@, sep);
    let t = clean_chars(current.as_slice());
    let ghost before = tokens.deep_view();
    if t.len() > 0 {
        tokens.push(string_of(t.as_slice()));
        proof {
            assert(tokens.deep_view() =~= before.push(t@));
        }
    }
    proof {
        assert(pieces == pieces.drop_last().push(pieces.last()));
    }
    tokens
}

/// The form in which `word` would be stored: `Some` of the cleaned, normalized word when
/// that is made of five Persian letters, `None` otherwise.
pub fn clean_word(word: &str) -> (r: Option<String>)
    ensures
        match r {
            Some(w) => w@ == cleaned_word(word@) && is_acceptable_word(w@),
            None => !is_acceptable_word(cleaned_word(word@)),
        },
{
    let chars = chars_of(word);
    let cleaned = clean_chars(chars.as_slice());
    let clean = normalize_persian_str(string_of(cleaned.as_slice()).as_str());
    let letters = chars_of(clean.as_str());
    assert(clean@ == cleaned_word(word@));
    if letters.len() != 5 {
        return None;
    }
    let mut i: usize = 0;
    while i < letters.len()
        invariant
            i <= letters@.len(),
            letters@ == clean@,
            clean@ == cleaned_word(word@),
            forall|k: int| 0 <= k < i ==> spec_is_persian_letter(#[trigger] letters@[k]),
        decreases letters@.len() - i,
    {
        if !is_persian_letter(letters[i]) {
            assert(!spec_is_persian_letter(clean@[i as int]));
            return None;
        }
        i = i + 1;
    }
    Some(clean)
}

/// The outcome of adding a word: new, already there, or not a five-letter Persian word.
#[derive(Debug, Clone, Copy, PartialEq, Eq, Structural)]
pub enum AddWordResult {
    Added,
    Duplicate,
    Invalid,
}

impl AddWordResult {
    /// The outcome of inserting an acceptable word, from the number of rows the insert
    /// changed: none means the word was there already.
    pub fn from_changed_rows(changed: usize) -> (r: AddWordResult)
        ensures
            r == (if changed > 0 {
                AddWordResult::Added
            } else {
                AddWordResult::Duplicate
            }),
    {
        if changed > 0 {
            AddWordResult::Added
        } else {
            AddWordResult::Duplicate
        }
    }
}

/// The saved game of a day: its answer, whether it was won, and the guesses made.
#[derive(Debug, Clone)]
pub struct DailyResult {
    pub date: String,
    pub answer: String,
    pub won: bool,
    pub guesses: Vec<String>,
}

impl DailyResult {
    /// The saved result of a day, from the columns of its row: the answer and the
    /// guesses are normalized, the flag is read as a boolean, and guesses that are not
    /// a JSON list of strings are read as none.
    pub fn from_row(date: String, answer: String, won: i32, guesses_json: &str) -> (r: DailyResult)
        ensures
            r.date@ == date@,
            r.answer@ == spec_normalize_str(answer@),
            r.won == (won != 0),
            r.guesses.deep_view() == decoded_guesses(guesses_json@),
    {
        let guesses: Vec<String> = match strings_from_json(guesses_json) {
            Some(g) => {
                let mut out: Vec<String> = Vec::new();
                let mut i: usize = 0;
                while i < g.len()
                    invariant
                        i <= g@.len(),
                        out.deep_view() == g.deep_view().take(i as int).map_values(
                            |s: Seq<char>| spec_normalize_str(s),
                        ),
                    decreases g@.len() - i,
                {
                    let ghost before = out.deep_view();
                    let n = normalize_persian_str(g[i].as_str());
                    out.push(n);
                    proof {
                        assert(out.deep_view() =~= before.push(n@));
                        assert(g.deep_view().take(i + 1) =~= g.deep_view().take(i as int).push(
                            g[i as int]@,
                        ));
                    }
                    i = i + 1;
                }
                proof {
                    assert(g.deep_view().take(g@.len() as int) == g.deep_view());
                }
                out
            },
            None => Vec::new(),
        };
        let answer = normalize_persian_str(answer.as_str());
        DailyResult { date, answer, won: won != 0, guesses }
    }
}

/// The player's statistics: games played and won, the current and the longest winning
/// streak, and how many games were won in one, two, ... six guesses.
#[derive(Debug, Clone, Copy)]
pub struct GameStats {
    pub games_played: i32,
    pub games_won: i32,
    pub current_streak: i32,
    pub max_streak: i32,
    pub guess_distribution: [i32; 6],
}

/// The sum of the six counts of a guess distribution.
pub open spec fn distribution_total(d: Seq<i32>) -> int {
    d[0] + d[1] + d[2] + d[3] + d[4] + d[5]
}

/// The guess distribution read from a stored text: its six integers when it is a JSON
/// array of six integers, six zeros otherwise.
pub open spec fn distribution_of(text: Seq<char>) -> Seq<i32> {
    match parsed_int_array6(text) {
        Some(d) => d,
        None => seq![0i32, 0, 0, 0, 0, 0],
    }
}

impl GameStats {
    /// All counts are zero.
    pub open spec fn is_empty(self) -> bool {
        &&& self.games_played == 0
        &&& self.games_won == 0
        &&& self.current_streak == 0
        &&& self.max_streak == 0
        &&& self.guess_distribution@ == seq![0i32, 0, 0, 0, 0, 0]
    }

    /// These are the statistics stored in a row with these columns.
    pub open spec fn is_stats_of_row(
        self,
        games_played: i32,
        games_won: i32,
        current_streak: i32,
        max_streak: i32,
        distribution_text: Seq<char>,
    ) -> bool {
        &&& self.games_played == games_played
        &&& self.games_won == games_won
        &&& self.current_streak == current_streak
        &&& self.max_streak == max_streak
        &&& self.guess_distribution@ == distribution_of(distribution_text)
    }

    /// Statistics as `DatabaseManager::get_stats` reads them: those of some stored row,
    /// or the empty ones.
    pub open spec fn is_read_stats(self) -> bool {
        ||| self.is_empty()
        ||| exists|p: i32, w: i32, c: i32, m: i32, t: Seq<char>| self.is_stats_of_row(p, w, c, m, t)
    }

    /// `self` is `prev` with one more game counted (see `record`).
    pub open spec fn is_recorded(self, prev: GameStats, won: bool, guess_count: int) -> bool {
        &&& self.games_played == prev.games_played + 1
        &&& self.games_won == prev.games_won + (if won {
            1int
        } else {
            0int
        })
        &&& self.current_streak == (if won {
            prev.current_streak + 1
        } else {
            0
        })
        &&& self.max_streak == (if won && prev.current_streak + 1 > prev.max_streak {
            prev.current_streak + 1
        } else {
            prev.max_streak as int
        })
        &&& self.guess_distribution@ == (if won && 1 <= guess_count <= 6 {
            prev.guess_distribution@.update(
                guess_count - 1,
                (prev.guess_distribution@[guess_count - 1] + 1) as i32,
            )
        } else {
            prev.guess_distribution@
        })
    }

    /// The statistics of a player who has not played yet.
    pub fn empty() -> (r: GameStats)
        ensures
            r.games_played == 0,
            r.games_won == 0,
            r.current_streak == 0,
            r.max_streak == 0,
            r.guess_distribution@ == seq![0i32, 0, 0, 0, 0, 0],
    {
        let r = GameStats {
            games_played: 0,
            games_won: 0,
            current_streak: 0,
            max_streak: 0,
            guess_distribution: [0;6],
        };
        assert(r.guess_distribution@ =~= seq![0i32, 0, 0, 0, 0, 0]);
        r
    }

    /// The statistics stored in a row; a guess distribution that is not a JSON array of
    /// six integers is read as six zeros.
    pub fn from_row(
        games_played: i32,
        games_won: i32,
        current_streak: i32,
        max_streak: i32,
        distribution_json: &str,
    ) -> (r: GameStats)
        ensures
            r.games_played == games_played,
            r.games_won == games_won,
            r.current_streak == current_streak,
            r.max_streak == max_streak,
            r.is_stats_of_row(
                games_played,
                games_won,
                current_streak,
                max_streak,
                distribution_json@,
            ),
    {
        let dist = match int_array_from_json(distribution_json) {
            Some(d) => d,
            None => [0;6],
        };
        assert(parsed_int_array6(distribution_json@) is None ==> dist@ =~= seq![0i32, 0, 0, 0, 0, 0]);
        GameStats {
            games_played,
            games_won,
            current_streak,
            max_streak,
            guess_distribution: dist,
        }
    }

    /// Recording a game moves no counter past `i32::MAX`.
    pub open spec fn can_record(self, won: bool, guess_count: int) -> bool {
        &&& self.games_played < i32::MAX
        &&& won ==> self.games_won < i32::MAX && self.current_streak < i32::MAX
        &&& won && 1 <= guess_count <= 6 ==> self.guess_distribution@[guess_count - 1] < i32::MAX
    }

    /// Counts that a record of games can have: no more wins than games, a streak no
    /// longer than the longest one, which is no longer than the wins, and no more wins
    /// in the distribution than there are wins.
    pub open spec fn consistent(self) -> bool {
        &&& 0 <= self.games_won <= self.games_played
        &&& 0 <= self.current_streak <= self.max_streak <= self.games_won
        &&& forall|i: int| 0 <= i < 6 ==> 0 <= #[trigger] self.guess_distribution@[i]
        &&& distribution_total(self.guess_distribution@) <= self.games_won
    }

    /// Whether `record` can count this game (see `can_record`).
    pub fn fits_record(&self, won: bool, guess_count: usize) -> (r: bool)
        ensures
            r == self.can_record(won, guess_count as int),
    {
        if self.games_played == i32::MAX {
            return false;
        }
        if won {
            if self.games_won == i32::MAX || self.current_streak == i32::MAX {
                return false;
            }
            if guess_count > 0 && guess_count <= 6 && self.guess_distribution[guess_count - 1]
                == i32::MAX {
                return false;
            }
        }
        true
    }

    /// Counts one more game: a win adds to the wins and the streak (raising the longest
    /// streak when it is passed) and, for one to six guesses, to that bar of the
    /// distribution; a loss ends the streak.
    pub fn record(&mut self, won: bool, guess_count: usize)
        requires
            old(self).can_record(won, guess_count as int),
        ensures
            final(self).games_played == old(self).games_played + 1,
            final(self).games_won == old(self).games_won + (if won {
                1int
            } else {
                0int
            }),
            final(self).current_streak == (if won {
                old(self).current_streak + 1
            } else {
                0
            }),
            final(self).max_streak == (if won && old(self).current_streak + 1
                > old(self).max_streak {
                old(self).current_streak + 1
            } else {
                old(self).max_streak as int
            }),
            final(self).guess_distribution@ == (if won && 1 <= guess_count <= 6 {
                old(self).guess_distribution@.update(
                    guess_count - 1,
                    (old(self).guess_distribution@[guess_count - 1] + 1) as i32,
                )
            } else {
                old(self).guess_distribution@
            }),
            final(self).is_recorded(*old(self), won, guess_count as int),
            old(self).consistent() ==> final(self).consistent(),
    {
        self.games_played += 1;
        if won {
            self.games_won += 1;
            self.current_streak += 1;
            if self.current_streak > self.max_streak {
                self.max_streak = self.current_streak;
            }
            if guess_count > 0 && guess_count <= 6 {
                self.guess_distribution[guess_count - 1] += 1;
            }
        } else {
            self.current_streak = 0;
        }
    }

    /// What `DatabaseManager::record_game_after` writes for these statistics: the
    /// statistics with the game counted and their distribution as JSON, or `None` when a
    /// counter is already at `i32::MAX`.
    pub fn row_after_game(&self, won: bool, guess_count: usize) -> (r: Option<(GameStats, String)>)
        ensures
            r is None <==> !self.can_record(won, guess_count as int),
            r matches Some((s, text)) ==> s.is_recorded(*self, won, guess_count as int) && text@
                == json_int_array(s.guess_distribution@),
    {
        if !self.fits_record(won, guess_count) {
            return None;
        }
        let mut stats = *self;
        stats.record(won, guess_count);
        let text = int_array_to_json(&stats.guess_distribution);
        Some((stats, text))
    }
}

/// The `won` flag and the guesses as `DatabaseManager::save_daily_result` stores them: 1
/// for a win and 0 for a loss, and the guesses as a compact JSON list of strings, which
/// reads back as the same guesses.
pub fn daily_row(won: bool, guesses: &[String]) -> (r: (i32, String))
    ensures
        r.0 == (if won {
            1i32
        } else {
            0i32
        }),
        r.1@ == json_string_array(guesses.deep_view()),
        parsed_string_array(r.1@) == Some(guesses.deep_view()),
{
    let won_flag: i32 = if won {
        1
    } else {
        0
    };
    (won_flag, strings_to_json(guesses))
}

/// The guesses read back from a stored JSON text, normalized; none when the text is not
/// a JSON list of strings.
pub open spec fn decoded_guesses(text: Seq<char>) -> Seq<Seq<char>> {
    match parsed_string_array(text) {
        Some(g) => g.map_values(|s: Seq<char>| spec_normalize_str(s)),
        None => Seq::<Seq<char>>::empty(),
    }
}

/// Saving and reading back a day's result, as far as the row goes: the stored flag reads
/// back as `won`, and the stored guesses read back as the guesses, normalized.
pub proof fn lemma_daily_row_round_trip(won: bool, flag: i32, text: Seq<char>, guesses: Seq<Seq<char>>)
    requires
        flag == (if won {
            1i32
        } else {
            0i32
        }),
        parsed_string_array(text) == Some(guesses),
    ensures
        (flag != 0) == won,
        decoded_guesses(text) == guesses.map_values(|s: Seq<char>| spec_normalize_str(s)),
{
}

/// The position of the word of day `day` among `count` words in alphabetical order.
pub fn daily_index(day: usize, count: usize) -> (r: usize)
    requires
        count > 0,
    ensures
        r == day % count,
{
    day % count
}

/// The position of the word of day `day` in a list of `count` words in alphabetical
/// order: `day` modulo `count`, or none when the list is empty.
pub fn daily_position(day: usize, count: usize) -> (r: Option<usize>)
    ensures
        r == (if count == 0 {
            None
        } else {
            Some((day % count) as usize)
        }),
{
    if count == 0 {
        None
    } else {
        Some(daily_index(day, count))
    }
}

/// What filling an empty word list does next: stop once the list has words, else import
/// the next word file, and once every file has been tried, the word list built into the
/// program.
#[derive(Clone, Copy, Debug, PartialEq, Eq, Structural)]
pub enum SeedAction {
    Stop,
    ImportFile(usize),
    ImportEmbedded,
}

/// The next step of filling the word list, when it holds `words_now` words and the word
/// files before `next_file` (of `n_files`) have been tried.
pub fn next_seed_action(words_now: usize, next_file: usize, n_files: usize) -> (r: SeedAction)
    ensures
        r == (if words_now > 0 {
            SeedAction::Stop
        } else if next_file < n_files {
            SeedAction::ImportFile(next_file)
        } else {
            SeedAction::ImportEmbedded
        }),
{
    if words_now > 0 {
        SeedAction::Stop
    } else if next_file < n_files {
        SeedAction::ImportFile(next_file)
    } else {
        SeedAction::ImportEmbedded
    }
}

/// How many of the outcomes are `Ok(Added)`.
pub open spec fn added_count(outcomes: Seq<Result<AddWordResult, Error>>) -> nat
    decreases outcomes.len(),
{
    if outcomes.len() == 0 {
        0
    } else {
        added_count(outcomes.drop_last()) + (if outcomes.last() matches Ok(
            AddWordResult::Added,
        ) {
            1nat
        } else {
            0nat
        })
    }
}

/// The number of words added, from the outcomes of adding the words of a list.
pub fn count_added(outcomes: &[Result<AddWordResult, Error>]) -> (r: usize)
    ensures
        r == added_count(outcomes@),
{
    let mut n: usize = 0;
    let mut i: usize = 0;
    while i < outcomes.len()
        invariant
            i <= outcomes@.len(),
            n == added_count(outcomes@.take(i as int)),
            n <= i,
        decreases outcomes@.len() - i,
    {
        proof {
            assert(outcomes@.take(i + 1).drop_last() == outcomes@.take(i as int));
        }
        if let Ok(AddWordResult::Added) = &outcomes[i] {
            n = n + 1;
        }
        i = i + 1;
    }
    proof {
        assert(outcomes@.take(outcomes@.len() as int) == outcomes@);
    }
    n
}

proof fn lemma_added_at_most_acceptable(
    outcomes: Seq<Result<AddWordResult, Error>>,
    tokens: Seq<Seq<char>>,
)
    requires
        outcomes.len() == tokens.len(),
        forall|i: int|
            0 <= i < outcomes.len() && (#[trigger] outcomes[i] matches Ok(AddWordResult::Added))
                ==> is_acceptable_word(cleaned_word(tokens[i])),
    ensures
        added_count(outcomes) <= acceptable_count(tokens),
        added_count(outcomes) <= outcomes.len(),
    decreases outcomes.len(),
{
    if outcomes.len() > 0 {
        let o = outcomes.drop_last();
        let t = tokens.drop_last();
        assert forall|i: int| 0 <= i < o.len() && (#[trigger] o[i] matches Ok(AddWordResult::Added))
            implies is_acceptable_word(cleaned_word(t[i])) by {
            assert(outcomes[i] == o[i]);
        }
        lemma_added_at_most_acceptable(o, t);
        if outcomes.last() matches Ok(AddWordResult::Added) {
            assert(outcomes[outcomes.len() - 1] == outcomes.last());
        }
    }
}

/// Integer division rounded toward zero, as Rust's `/` on signed integers does.
pub open spec fn div_toward_zero(a: int, b: int) -> int {
    if a >= 0 {
        a / b
    } else {
        -((-a) / b)
    }
}

/// The number of the local day at the UTC time `utc_secs` (seconds since the epoch) in a
/// time zone `offset_secs` seconds ahead of UTC, as a word index: the whole days since the
/// epoch, wrapped into `usize` as `as` does.
pub fn local_day_number(utc_secs: i64, offset_secs: i64) -> (r: usize)
    requires
        i64::MIN <= utc_secs + offset_secs <= i64::MAX,
    ensures
        r == div_toward_zero(utc_secs + offset_secs, 86400) as usize,
{
    let local: i64 = utc_secs + offset_secs;
    let days: i64 = local / 86400;
    days as usize
}

/// The word database: the accepted words, the statistics and the saved daily results.
pub struct DatabaseManager {
    conn: Connection,
}

impl DatabaseManager {
    /// Opens the database at `db_path` (creating it when it does not exist) and creates
    /// its tables when they are missing. The path `":memory:"` opens a fresh database
    /// held in memory.
    pub fn open(db_path: &str) -> (r: Result<DatabaseManager, Error>) {
        let conn = sql::open_connection(db_path)?;
        let mut db = DatabaseManager { conn };
        db.migrate()?;
        Ok(db)
    }

    fn migrate(&mut self) -> (r: Result<(), Error>) {
        sql::execute_batch(
            &self.conn,
            "CREATE TABLE IF NOT EXISTS words (
                word TEXT PRIMARY KEY CHECK(length(word) = 5),
                added_at TEXT DEFAULT (datetime('now'))
            );

            CREATE TABLE IF NOT EXISTS stats (
                id INTEGER PRIMARY KEY CHECK(id = 1),
                games_played INTEGER NOT NULL DEFAULT 0,
                games_won INTEGER NOT NULL DEFAULT 0,
                current_streak INTEGER NOT NULL DEFAULT 0,
                max_streak INTEGER NOT NULL DEFAULT 0,
                guess_distribution TEXT NOT NULL DEFAULT '[0,0,0,0,0,0]'
            );

            CREATE TABLE IF NOT EXISTS daily_results (
                date TEXT PRIMARY KEY,
                answer TEXT NOT NULL,
                won INTEGER NOT NULL,
                guesses TEXT NOT NULL
            );

            INSERT OR IGNORE INTO stats (id) VALUES (1);",
        )
    }

    /// Adds a word to the list. The word is cleaned and normalized (see `clean_word`);
    /// when it is not five Persian letters the answer is `Invalid` and the database is
    /// not touched, otherwise it is inserted and the answer says whether it was new.
    pub fn add_word(&mut self, word: &str) -> (r: Result<AddWordResult, Error>)
        ensures
            !is_acceptable_word(cleaned_word(word@)) ==> r == Ok::<AddWordResult, Error>(
                AddWordResult::Invalid,
            ),
            is_acceptable_word(cleaned_word(word@)) ==> r != Ok::<AddWordResult, Error>(
                AddWordResult::Invalid,
            ),
    {
        match clean_word(word) {
            None => Ok(AddWordResult::Invalid),
            Some(clean) => {
                let changed: usize = sql::execute_text(
                    &self.conn,
                    "INSERT OR IGNORE INTO words (word) VALUES (?1)",
                    clean.as_str(),
                )?;
                Ok(AddWordResult::from_changed_rows(changed))
            },
        }
    }

    /// Whether the normalized form of `word` is in the list.
    pub fn is_valid_word(&self, word: &str) -> bool {
        let word_norm = normalize_persian_str(word);
        match sql::query_any_row(&self.conn, "SELECT 1 FROM words WHERE word = ?1", word_norm.as_str()) {
            Ok(()) => true,
            Err(_) => false,
        }
    }

    /// The number of words in the list, or 0 when it cannot be read.
    pub fn word_count(&self) -> usize {
        match sql::query_count(&self.conn, "SELECT COUNT(*) FROM words") {
            Ok(n) => n,
            Err(_) => 0,
        }
    }

    /// A word of the list picked at random, normalized.
    pub fn random_word(&self) -> (r: Option<String>)
        ensures
            r matches Some(w) ==> w@ == spec_normalize_str(w@),
    {
        match sql::query_text(&self.conn, "SELECT word FROM words ORDER BY RANDOM() LIMIT 1") {
            Ok(w) => Some(normalized(&w)),
            Err(_) => None,
        }
    }

    /// The word of the day numbered `day`: the words are taken in alphabetical order and
    /// the day picks the one at `day` modulo their number; `None` when the list is empty.
    pub fn daily_word(&self, day: usize) -> (r: Option<String>)
        ensures
            r matches Some(w) ==> w@ == spec_normalize_str(w@),
    {
        let count: usize = self.word_count();
        match daily_position(day, count) {
            None => None,
            Some(index) => self.word_at_index(index),
        }
    }

    fn word_at_index(&self, index: usize) -> (r: Option<String>)
        ensures
            r matches Some(w) ==> w@ == spec_normalize_str(w@),
    {
        match sql::query_text_by_int(
            &self.conn,
            "SELECT word FROM words ORDER BY word ASC LIMIT 1 OFFSET ?1",
            index as i64,
        ) {
            Ok(w) => Some(normalized(&w)),
            Err(_) => None,
        }
    }

    /// Adds every word of a word list (see `parse_word_list`); returns how many words
    /// the list has and how many of them were added.
    pub fn import_from_string(&mut self, content: &str) -> (r: (usize, usize))
        ensures
            r.0 == word_list_tokens(content@).len(),
            r.1 <= acceptable_count(word_list_tokens(content@)),
            r.1 <= r.0,
            exists|o: Seq<Result<AddWordResult, Error>>|
                #![trigger added_count(o)]
                o.len() == r.0 && r.1 == added_count(o) && forall|k: int|
                    0 <= k < o.len() && (#[trigger] o[k] matches Ok(AddWordResult::Added))
                        ==> is_acceptable_word(cleaned_word(word_list_tokens(content@)[k])),
    {
        let tokens = parse_word_list(content);
        let ghost ts = tokens.deep_view();
        let mut outcomes: Vec<Result<AddWordResult, Error>> = Vec::new();
        let mut i: usize = 0;
        while i < tokens.len()
            invariant
                i <= tokens@.len(),
                ts == tokens.deep_view(),
                ts == word_list_tokens(content@),
                outcomes@.len() == i,
                forall|k: int|
                    0 <= k < i && (#[trigger] outcomes@[k] matches Ok(AddWordResult::Added))
                        ==> is_acceptable_word(cleaned_word(ts[k])),
            decreases tokens@.len() - i,
        {
            let outcome = self.add_word(tokens[i].as_str());
            assert(tokens[i as int]@ == ts[i as int]);
            outcomes.push(outcome);
            i = i + 1;
        }
        let added = count_added(outcomes.as_slice());
        proof {
            lemma_added_at_most_acceptable(outcomes@, ts);
            assert(outcomes@.len() == tokens.len() && added == added_count(outcomes@));
        }
        (tokens.len(), added)
    }

    /// The statistics, or those of a player who has not played when they cannot be read.
    pub fn get_stats(&self) -> (r: GameStats)
        ensures
            r.is_read_stats(),
    {
        match sql::query_ints_text(
            &self.conn,
            "SELECT games_played, games_won, current_streak, max_streak, guess_distribution FROM stats WHERE id = 1",
        ) {
            Ok((played, won, streak, max_streak, dist)) => GameStats::from_row(
                played,
                won,
                streak,
                max_streak,
                dist.as_str(),
            ),
            Err(_) => GameStats::empty(),
        }
    }

    /// Counts a finished game in the statistics (see `GameStats::record`): reads them,
    /// then writes them back with the game counted (see `record_game_after`), and
    /// returns the statistics written.
    pub fn record_game(&self, won: bool, guess_count: usize) -> (r: Result<GameStats, Error>)
        ensures
            r matches Ok(s) ==> exists|read: GameStats|
                #![trigger read.is_read_stats()]
                read.is_read_stats() && read.can_record(won, guess_count as int) && s.is_recorded(
                    read,
                    won,
                    guess_count as int,
                ),
    {
        let stats = self.get_stats();
        let r = self.record_game_after(&stats, won, guess_count);
        proof {
            if let Ok(s) = r {
                assert(stats.is_read_stats() && stats.can_record(won, guess_count as int)
                    && s.is_recorded(stats, won, guess_count as int));
            }
        }
        r
    }

    /// Writes the statistics `read` with one more game counted, the row that
    /// `GameStats::row_after_game` gives, and returns them. When a counter of `read` is
    /// already at `i32::MAX`, nothing is written and the answer is an out-of-range error.
    pub fn record_game_after(&self, read: &GameStats, won: bool, guess_count: usize) -> (r:
        Result<GameStats, Error>)
        ensures
            !read.can_record(won, guess_count as int) ==> r is Err,
            r matches Ok(s) ==> read.can_record(won, guess_count as int) && s.is_recorded(
                *read,
                won,
                guess_count as int,
            ),
    {
        match read.row_after_game(won, guess_count) {
            None => Err(sql::out_of_range_error(0, 2147483647)),
            Some((updated, dist_json)) => {
                sql::execute_ints_text(
                    &self.conn,
                    "UPDATE stats SET games_played = ?1, games_won = ?2, current_streak = ?3, max_streak = ?4, guess_distribution = ?5 WHERE id = 1",
                    updated.games_played,
                    updated.games_won,
                    updated.current_streak,
                    updated.max_streak,
                    dist_json.as_str(),
                )?;
                Ok(updated)
            },
        }
    }

    /// Saves (or replaces) the result of the day `date`, the guesses kept as a JSON list.
    pub fn save_daily_result(&self, date: &str, answer: &str, won: bool, guesses: &[String]) -> (r:
        Result<(), Error>) {
        let (won_flag, guesses_json) = daily_row(won, guesses);
        sql::execute_texts_int_text(
            &self.conn,
            "INSERT OR REPLACE INTO daily_results (date, answer, won, guesses) VALUES (?1, ?2, ?3, ?4)",
            date,
            answer,
            won_flag,
            guesses_json.as_str(),
        )?;
        Ok(())
    }

    /// The saved result of the day `date` (see `DailyResult::from_row`), if there is one;
    /// its answer and guesses are normalized.
    pub fn load_daily_result(&self, date: &str) -> (r: Option<DailyResult>)
        ensures
            r matches Some(d) ==> d.answer@ == spec_normalize_str(d.answer@) && forall|i: int|
                0 <= i < d.guesses@.len() ==> #[trigger] d.guesses@[i]@ == spec_normalize_str(
                    d.guesses@[i]@,
                ),
    {
        match sql::query_texts_int_text(
            &self.conn,
            "SELECT date, answer, won, guesses FROM daily_results WHERE date = ?1",
            date,
        ) {
            Ok((d, answer, won, guesses_json)) => {
                let r = DailyResult::from_row(d, answer, won, guesses_json.as_str());
                proof {
                    crate::persian::lemma_normalize_str_idempotent(answer@);
                    assert forall|i: int| 0 <= i < r.guesses@.len() implies #[trigger] r.guesses@[i]@
                        == spec_normalize_str(r.guesses@[i]@) by {
                        assert(r.guesses.deep_view()[i] == r.guesses@[i]@);
                        match parsed_string_array(guesses_json@) {
                            Some(g) => {
                                assert(r.guesses.deep_view().len() == g.len());
                                assert(r.guesses.deep_view()[i] == spec_normalize_str(g[i]));
                                crate::persian::lemma_normalize_str_idempotent(g[i]);
                            },
                            None => {
                                assert(r.guesses.deep_view().len() == 0);
                            },
                        }
                    }
                }
                Some(r)
            },
            Err(_) => None,
        }
    }
}

fn normalized(w: &String) -> (r: String)
    ensures
        r@ == spec_normalize_str(w@),
        r@ == spec_normalize_str(r@),
{
    let r = normalize_persian_str(w.as_str());
    proof {
        crate::persian::lemma_normalize_str_idempotent(w@);
    }
    r
}

} // verus!
