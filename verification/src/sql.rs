use vstd::prelude::*;

use rusqlite::{Connection, Error};

verus! {

/// A connection to an SQLite database. Verus sees nothing inside it.
#[verifier::external_type_specification]
#[verifier::external_body]
pub struct ExConnection(rusqlite::Connection);

/// An error reported by SQLite or by the conversion of a value. Verus sees nothing
/// inside it.
#[verifier::external_type_specification]
#[verifier::external_body]
pub struct ExError(rusqlite::Error);

// What these calls return depends on the database file, which other processes may
// change as well; so none of them promises anything of its result.
/// `Connection::open`: opens (or creates) the database at `path`.
#[verifier::external_body]
pub(crate) fn open_connection(path: &str) -> Result<Connection, Error> {
    Connection::open(path)
}

/// `Connection::execute_batch`: runs the statements of `sql` one after the other.
#[verifier::external_body]
pub(crate) fn execute_batch(conn: &Connection, sql: &str) -> Result<(), Error> {
    conn.execute_batch(sql)
}

/// `Connection::execute` with one text parameter: the number of rows it changed.
#[verifier::external_body]
pub(crate) fn execute_text(conn: &Connection, sql: &str, p1: &str) -> Result<usize, Error> {
    conn.execute(sql, (p1,))
}

/// `Connection::execute` with four integers and a text: the number of rows it changed.
#[verifier::external_body]
pub(crate) fn execute_ints_text(
    conn: &Connection,
    sql: &str,
    p1: i32,
    p2: i32,
    p3: i32,
    p4: i32,
    p5: &str,
) -> Result<usize, Error> {
    conn.execute(sql, (p1, p2, p3, p4, p5))
}

/// `Connection::execute` with two texts, an integer and a text: the number of rows it
/// changed.
#[verifier::external_body]
pub(crate) fn execute_texts_int_text(
    conn: &Connection,
    sql: &str,
    p1: &str,
    p2: &str,
    p3: i32,
    p4: &str,
) -> Result<usize, Error> {
    conn.execute(sql, (p1, p2, p3, p4))
}

/// `Connection::query_row` with one text parameter, reading nothing of the row: `Ok`
/// when the query yields a row.
#[verifier::external_body]
pub(crate) fn query_any_row(conn: &Connection, sql: &str, p1: &str) -> Result<(), Error> {
    conn.query_row(sql, (p1,), |_| Ok(()))
}

/// `Connection::query_row` without parameters, reading the first column as a count.
#[verifier::external_body]
pub(crate) fn query_count(conn: &Connection, sql: &str) -> Result<usize, Error> {
    conn.query_row(sql, [], |row| row.get::<_, usize>(0))
}

/// `Connection::query_row` without parameters, reading the first column as text.
#[verifier::external_body]
pub(crate) fn query_text(conn: &Connection, sql: &str) -> Result<String, Error> {
    conn.query_row(sql, [], |row| row.get::<_, String>(0))
}

/// `Connection::query_row` with one integer parameter, reading the first column as text.
#[verifier::external_body]
pub(crate) fn query_text_by_int(conn: &Connection, sql: &str, p1: i64) -> Result<String, Error> {
    conn.query_row(sql, (p1,), |row| row.get::<_, String>(0))
}

/// `Connection::query_row` without parameters, reading four integer columns and a text.
#[verifier::external_body]
pub(crate) fn query_ints_text(conn: &Connection, sql: &str) -> Result<
    (i32, i32, i32, i32, String),
    Error,
> {
    conn.query_row(sql, [], |row| Ok((row.get(0)?, row.get(1)?, row.get(2)?, row.get(3)?, row.get(4)?)))
}

/// `Connection::query_row` with one text parameter, reading two texts, an integer and a
/// text.
#[verifier::external_body]
pub(crate) fn query_texts_int_text(conn: &Connection, sql: &str, p1: &str) -> Result<
    (String, String, i32, String),
    Error,
> {
    conn.query_row(sql, (p1,), |row| Ok((row.get(0)?, row.get(1)?, row.get(2)?, row.get(3)?)))
}

/// `Error::IntegralValueOutOfRange`: the error for an integer value of column `column`
/// that does not fit the type it is read or computed as.
#[verifier::external_body]
pub(crate) fn out_of_range_error(column: usize, value: i64) -> Error {
    Error::IntegralValueOutOfRange(column, value)
}

} // verus!
