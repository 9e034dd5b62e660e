//! How many rows a statement may return.

use vstd::prelude::*;

verus! {

/// What can go wrong with the rows that a statement returns.
#[derive(Debug, Clone, Copy, PartialEq, Eq, Structural)]
pub enum Error {
    /// The statement returned another number of rows than was asked for.
    RowCount,
}

/// The row of a statement that returns at most one: none where there is none, and an
/// error where there are more.
pub fn at_most_one<R>(rows: Vec<R>) -> (result: Result<Option<R>, Error>)
    ensures
        rows@.len() == 0 ==> result == Ok::<Option<R>, Error>(None),
        rows@.len() == 1 ==> result == Ok::<Option<R>, Error>(Some(rows@[0])),
        rows@.len() > 1 ==> result == Err::<Option<R>, Error>(Error::RowCount),
{
    let mut rows = rows;
    if rows.len() > 1 {
        return Err(Error::RowCount);
    }
    Ok(rows.pop())
}

/// The row of a statement that returns exactly one: an error where there is none.
pub fn exactly_one<R>(row: Option<R>) -> (result: Result<R, Error>)
    ensures
        result == (match row {
            Some(found) => Ok::<R, Error>(found),
            None => Err::<R, Error>(Error::RowCount),
        }),
{
    match row {
        Some(found) => Ok(found),
        None => Err(Error::RowCount),
    }
}

} // verus!
