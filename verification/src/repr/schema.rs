//! Tables, their columns and the relations between them.

use crate::repr::clause::Expr;
use vstd::prelude::*;

verus! {

/// A column of a table.
pub struct Column<'a> {
    /// The column's name.
    pub name: &'a str,
    /// The name of the column's type in the database.
    pub data_type: &'a str,
    /// Whether the column belongs to the table's primary key.
    pub primary_key: bool,
    /// Whether the column refuses `null`.
    pub not_null: bool,
    /// The value that the column takes when none is given.
    pub default: Option<&'a Expr<'a>>,
}

impl<'a> Column<'a> {
    /// The column's name.
    #[inline]
    #[must_use]
    pub fn name(&self) -> (name: &'a str)
        ensures
            name == self.name,
    {
        self.name
    }

    /// The name of the column's type in the database.
    #[inline]
    #[must_use]
    pub fn data_type(&self) -> (data_type: &'a str)
        ensures
            data_type == self.data_type,
    {
        self.data_type
    }

    /// Whether the column belongs to the table's primary key.
    #[inline]
    #[must_use]
    pub fn primary_key(&self) -> (primary_key: bool)
        ensures
            primary_key == self.primary_key,
    {
        self.primary_key
    }

    /// Whether the column refuses `null`.
    #[inline]
    #[must_use]
    pub fn not_null(&self) -> (not_null: bool)
        ensures
            not_null == self.not_null,
    {
        self.not_null
    }

    /// The value that the column takes when none is given.
    #[inline]
    #[must_use]
    pub fn default(&self) -> (default: Option<&'a Expr<'a>>)
        ensures
            default == self.default,
    {
        self.default
    }
}

/// What a relation holds.
pub struct RelationView<'a> {
    pub name: &'a str,
    pub source_table: &'a str,
    pub source_columns: Seq<&'a Column<'a>>,
    pub target_table: &'a str,
    pub target_columns: Seq<&'a Column<'a>>,
}

impl<'a> RelationView<'a> {
    /// The columns of the source paired with those of the target, as far as both reach.
    pub open spec fn column_pairs(self) -> Seq<(&'a Column<'a>, &'a Column<'a>)> {
        Seq::new(
            if self.source_columns.len() <= self.target_columns.len() {
                self.source_columns.len()
            } else {
                self.target_columns.len()
            },
            |i: int| (self.source_columns[i], self.target_columns[i]),
        )
    }
}

/// A relation between two tables: columns of the source table that refer to columns of
/// the target table.
pub struct Relation<'a> {
    name: &'a str,
    source_table: &'a str,
    source_columns: &'a [&'a Column<'a>],
    target_table: &'a str,
    target_columns: &'a [&'a Column<'a>],
}

impl<'a> View for Relation<'a> {
    type V = RelationView<'a>;

    closed spec fn view(&self) -> RelationView<'a> {
        RelationView {
            name: self.name,
            source_table: self.source_table,
            source_columns: self.source_columns@,
            target_table: self.target_table,
            target_columns: self.target_columns@,
        }
    }
}

impl<'a> Relation<'a> {
    /// A relation with the given name between the given columns of two tables.
    #[inline]
    #[must_use]
    pub fn new(
        name: &'a str,
        source_table: &'a str,
        source_columns: &'a [&'a Column<'a>],
        target_table: &'a str,
        target_columns: &'a [&'a Column<'a>],
    ) -> (relation: Relation<'a>)
        ensures
            relation@ == (RelationView {
                name,
                source_table,
                source_columns: source_columns@,
                target_table,
                target_columns: target_columns@,
            }),
    {
        Self { name, source_table, source_columns, target_table, target_columns }
    }

    /// The relation's name.
    #[inline]
    #[must_use]
    pub fn name(&self) -> (name: &'a str)
        ensures
            name == self@.name,
    {
        self.name
    }

    /// The name of the table that refers.
    #[inline]
    #[must_use]
    pub fn source_table(&self) -> (table: &'a str)
        ensures
            table == self@.source_table,
    {
        self.source_table
    }

    /// The columns that refer.
    #[inline]
    #[must_use]
    pub fn source_columns(&self) -> (columns: &'a [&'a Column<'a>])
        ensures
            columns@ == self@.source_columns,
    {
        self.source_columns
    }

    /// The name of the table referred to.
    #[inline]
    #[must_use]
    pub fn target_table(&self) -> (table: &'a str)
        ensures
            table == self@.target_table,
    {
        self.target_table
    }

    /// The columns referred to.
    #[inline]
    #[must_use]
    pub fn target_columns(&self) -> (columns: &'a [&'a Column<'a>])
        ensures
            columns@ == self@.target_columns,
    {
        self.target_columns
    }

    /// The columns of the source, each with the column of the target at the same place.
    /// Where one side has more columns than the other, the rest of it is left out.
    #[inline]
    pub fn column_pairs(&self) -> (pairs: Vec<(&'a Column<'a>, &'a Column<'a>)>)
        ensures
            pairs@ == self@.column_pairs(),
    {
        let mut pairs: Vec<(&'a Column<'a>, &'a Column<'a>)> = Vec::new();
        let mut i: usize = 0;
        while i < self.source_columns.len() && i < self.target_columns.len()
            invariant
                i <= self.source_columns@.len(),
                i <= self.target_columns@.len(),
                pairs@.len() == i,
                forall|k: int|
                    0 <= k < i ==> pairs@[k] == (self.source_columns@[k], self.target_columns@[k]),
            decreases self.source_columns@.len() - i,
        {
            pairs.push((self.source_columns[i], self.target_columns[i]));
            i += 1;
        }
        assert(pairs@ =~= self@.column_pairs());
        pairs
    }
}

/// What a table holds.
pub struct TableView<'a> {
    pub name: &'a str,
    pub columns: Seq<&'a Column<'a>>,
    pub relations: Seq<&'a Relation<'a>>,
}

/// A table of the database: its name, its columns and its relations to other tables.
pub struct Table<'a> {
    name: &'a str,
    columns: &'a [&'a Column<'a>],
    relations: &'a [&'a Relation<'a>],
}

impl<'a> View for Table<'a> {
    type V = TableView<'a>;

    closed spec fn view(&self) -> TableView<'a> {
        TableView { name: self.name, columns: self.columns@, relations: self.relations@ }
    }
}

impl<'a> Table<'a> {
    /// A table with the given name, columns and relations.
    #[inline]
    #[must_use]
    pub fn new(
        name: &'a str,
        columns: &'a [&'a Column<'a>],
        relations: &'a [&'a Relation<'a>],
    ) -> (table: Table<'a>)
        ensures
            table@ == (TableView { name, columns: columns@, relations: relations@ }),
    {
        Self { name, columns, relations }
    }

    /// The table's name.
    #[inline]
    #[must_use]
    pub fn name(&self) -> (name: &'a str)
        ensures
            name == self@.name,
    {
        self.name
    }

    /// The table's columns.
    #[inline]
    #[must_use]
    pub fn columns(&self) -> (columns: &'a [&'a Column<'a>])
        ensures
            columns@ == self@.columns,
    {
        self.columns
    }

    /// The table's relations to other tables.
    #[inline]
    #[must_use]
    pub fn relations(&self) -> (relations: &'a [&'a Relation<'a>])
        ensures
            relations@ == self@.relations,
    {
        self.relations
    }
}

} // verus!
