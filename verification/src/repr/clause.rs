//! The clauses of a `select` statement.

use crate::sql::fmt_sql::FmtSql;
use crate::sql::formatter::{Error, Formatter};
use vstd::prelude::*;

verus! {

/// A part of a statement that is carried as the SQL text it stands for.
#[derive(Debug, Clone, Copy)]
pub struct Clause<'a> {
    /// The SQL text of the part.
    pub text: &'a str,
}

/// An expression.
pub type Expr<'a> = Clause<'a>;

/// The list of fields that a statement returns.
pub type Fields<'a> = Clause<'a>;

/// The `from` clause of a statement.
pub type From<'a> = Clause<'a>;

/// The `where` clause of a statement.
pub type Where<'a> = Clause<'a>;

/// The `group by` clause of a statement.
pub type GroupBy<'a> = Clause<'a>;

/// The `having` clause of a statement.
pub type Having<'a> = Clause<'a>;

/// The `order by` clause of a statement.
pub type OrderBy<'a> = Clause<'a>;

/// The `limit` clause of a statement.
pub type Limit<'a> = Clause<'a>;

/// The `offset` clause of a statement.
pub type Offset<'a> = Clause<'a>;

impl FmtSql for Clause<'_> {
    open spec fn sql(&self) -> Seq<char> {
        self.text@
    }

    fn fmt_sql(&self, formatter: &mut Formatter) -> (result: Result<(), Error>) {
        formatter.write_str(self.text)
    }
}

/// The `select` clause of a statement.
pub struct Select<'a> {
    fields: Fields<'a>,
}

impl<'a> View for Select<'a> {
    type V = Fields<'a>;

    /// The fields that the clause selects.
    closed spec fn view(&self) -> Fields<'a> {
        self.fields
    }
}

impl<'a> Select<'a> {
    /// A `select` clause over the given fields.
    #[inline]
    #[must_use]
    pub fn new(fields: Fields<'a>) -> (select: Select<'a>)
        ensures
            select@ == fields,
    {
        Self { fields }
    }

    /// The fields that the clause selects.
    #[inline]
    #[must_use]
    pub fn fields(&self) -> (fields: &Fields<'a>)
        ensures
            *fields == self@,
    {
        &self.fields
    }
}

impl FmtSql for Select<'_> {
    open spec fn sql(&self) -> Seq<char> {
        "select "@ + self@.sql()
    }

    fn fmt_sql(&self, formatter: &mut Formatter) -> (result: Result<(), Error>) {
        formatter.write_str("select ")?;
        self.fields.fmt_sql(formatter)?;
        assert(formatter@ =~= old(formatter)@ + self.sql());
        Ok(())
    }
}

/// The parts of the core of a `select` statement.
pub struct SelectCoreView<'a> {
    pub select: Select<'a>,
    pub from: Option<From<'a>>,
    pub filter: Option<Where<'a>>,
    pub group_by: Option<GroupBy<'a>>,
    pub having: Option<Having<'a>>,
}

/// The core of a `select` statement: what it selects, from where, and how the rows are
/// filtered and grouped.
pub struct SelectCore<'a> {
    select: Select<'a>,
    from: Option<From<'a>>,
    filter: Option<Where<'a>>,
    group_by: Option<GroupBy<'a>>,
    having: Option<Having<'a>>,
}

impl<'a> View for SelectCore<'a> {
    type V = SelectCoreView<'a>;

    closed spec fn view(&self) -> SelectCoreView<'a> {
        SelectCoreView {
            select: self.select,
            from: self.from,
            filter: self.filter,
            group_by: self.group_by,
            having: self.having,
        }
    }
}

impl<'a> SelectCore<'a> {
    /// Puts the core of a `select` statement together from its parts.
    #[inline]
    #[must_use]
    pub fn new(
        select: Select<'a>,
        from: Option<From<'a>>,
        filter: Option<Where<'a>>,
        group_by: Option<GroupBy<'a>>,
        having: Option<Having<'a>>,
    ) -> (core: SelectCore<'a>)
        ensures
            core@ == (SelectCoreView { select, from, filter, group_by, having }),
    {
        Self { select, from, filter, group_by, having }
    }

    /// The `select` clause.
    #[inline]
    #[must_use]
    pub fn select(&self) -> (select: &Select<'a>)
        ensures
            *select == self@.select,
    {
        &self.select
    }

    /// The `from` clause, if the statement has one.
    #[inline]
    #[must_use]
    pub fn from(&self) -> (from: Option<&From<'a>>)
        ensures
            from matches Some(inner) ==> self@.from == Some(*inner),
            from is None ==> self@.from is None,
    {
        self.from.as_ref()
    }

    /// The `where` clause, if the statement has one.
    #[inline]
    #[must_use]
    pub fn where_clause(&self) -> (filter: Option<&Where<'a>>)
        ensures
            filter matches Some(inner) ==> self@.filter == Some(*inner),
            filter is None ==> self@.filter is None,
    {
        self.filter.as_ref()
    }

    /// The `group by` clause, if the statement has one.
    #[inline]
    #[must_use]
    pub fn group_by(&self) -> (group_by: Option<&GroupBy<'a>>)
        ensures
            group_by matches Some(inner) ==> self@.group_by == Some(*inner),
            group_by is None ==> self@.group_by is None,
    {
        self.group_by.as_ref()
    }

    /// The `having` clause, if the statement has one.
    #[inline]
    #[must_use]
    pub fn having(&self) -> (having: Option<&Having<'a>>)
        ensures
            having matches Some(inner) ==> self@.having == Some(*inner),
            having is None ==> self@.having is None,
    {
        self.having.as_ref()
    }
}

impl FmtSql for SelectCore<'_> {
    open spec fn sql(&self) -> Seq<char> {
        self@.select.sql() + self@.from.sql() + self@.filter.sql() + self@.group_by.sql()
            + self@.having.sql()
    }

    fn fmt_sql(&self, formatter: &mut Formatter) -> (result: Result<(), Error>) {
        self.select.fmt_sql(formatter)?;
        self.from.fmt_sql(formatter)?;
        self.filter.fmt_sql(formatter)?;
        self.group_by.fmt_sql(formatter)?;
        self.having.fmt_sql(formatter)?;
        assert(formatter@ =~= old(formatter)@ + self.sql());
        Ok(())
    }
}

} // verus!
