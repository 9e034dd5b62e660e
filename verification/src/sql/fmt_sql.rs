//! Values that have a form in SQL.

use crate::sql::formatter::{Error, Formatter};
use vstd::prelude::*;

verus! {

/// A value that has a form in SQL.
pub trait FmtSql {
    /// The SQL text that the value stands for.
    spec fn sql(&self) -> Seq<char>;

    /// Writes the value's SQL text behind what the formatter holds.
    fn fmt_sql(&self, formatter: &mut Formatter) -> (result: Result<(), Error>)
        ensures
            result is Ok,
            final(formatter)@ == old(formatter)@ + self.sql(),
    ;

    /// Returns the value's SQL text.
    fn to_sql_string(&self) -> (result: Result<String, Error>)
        ensures
            result matches Ok(text) && text@ == self.sql(),
    {
        let mut formatter = Formatter::new();
        match self.fmt_sql(&mut formatter) {
            Ok(()) => {
                let text = formatter.finish();
                assert(text@ =~= self.sql());
                Ok(text)
            },
            Err(error) => Err(error),
        }
    }
}

impl<'a> FmtSql for &'a str {
    open spec fn sql(&self) -> Seq<char> {
        (*self)@
    }

    fn fmt_sql(&self, formatter: &mut Formatter) -> (result: Result<(), Error>) {
        formatter.write_str(self)
    }
}

impl<T: FmtSql> FmtSql for Option<T> {
    open spec fn sql(&self) -> Seq<char> {
        match self {
            Some(inner) => inner.sql(),
            None => Seq::empty(),
        }
    }

    fn fmt_sql(&self, formatter: &mut Formatter) -> (result: Result<(), Error>) {
        if let Some(inner) = self {
            inner.fmt_sql(formatter)?;
        } else {
            assert(formatter@ =~= old(formatter)@ + Seq::<char>::empty());
        }
        Ok(())
    }
}

} // verus!
