//! Query nodes.

use crate::repr::clause::{Clause, Limit, Offset, OrderBy, Where};
use crate::repr::schema::Table;
use vstd::prelude::*;

verus! {

/// A field that a query returns.
pub type Field<'a> = Clause<'a>;

/// What a query node holds.
pub struct NodeView<'a> {
    pub table: &'a Table<'a>,
    pub star: bool,
    pub fields: Seq<Field<'a>>,
    pub filter: Option<Where<'a>>,
    pub order_by: Option<OrderBy<'a>>,
    pub limit: Option<Limit<'a>>,
    pub offset: Option<Offset<'a>>,
}

/// A node of a query: the table that it reads, the fields that it returns, and how the
/// rows are filtered, ordered and cut.
pub struct Node<'a> {
    table: &'a Table<'a>,
    star: bool,
    fields: &'a [Field<'a>],
    filter: Option<Where<'a>>,
    order_by: Option<OrderBy<'a>>,
    limit: Option<Limit<'a>>,
    offset: Option<Offset<'a>>,
}

impl<'a> View for Node<'a> {
    type V = NodeView<'a>;

    closed spec fn view(&self) -> NodeView<'a> {
        NodeView {
            table: self.table,
            star: self.star,
            fields: self.fields@,
            filter: self.filter,
            order_by: self.order_by,
            limit: self.limit,
            offset: self.offset,
        }
    }
}

impl<'a> Node<'a> {
    /// Puts a query node together from its parts.
    #[inline]
    #[must_use]
    pub fn new(
        table: &'a Table<'a>,
        star: bool,
        fields: &'a [Field<'a>],
        filter: Option<Where<'a>>,
        order_by: Option<OrderBy<'a>>,
        limit: Option<Limit<'a>>,
        offset: Option<Offset<'a>>,
    ) -> (node: Node<'a>)
        ensures
            node@ == (NodeView {
                table,
                star,
                fields: fields@,
                filter,
                order_by,
                limit,
                offset,
            }),
    {
        Self { table, star, fields, filter, order_by, limit, offset }
    }

    /// The table that the node reads.
    #[inline]
    #[must_use]
    pub fn table(&self) -> (table: &Table<'a>)
        ensures
            table == self@.table,
    {
        self.table
    }

    /// Whether the node returns all columns of its table.
    #[inline]
    #[must_use]
    pub fn star(&self) -> (star: bool)
        ensures
            star == self@.star,
    {
        self.star
    }

    /// The fields that the node returns.
    #[inline]
    #[must_use]
    pub fn fields(&self) -> (fields: &[Field<'a>])
        ensures
            fields@ == self@.fields,
    {
        self.fields
    }

    /// The `where` clause, if the node has one.
    #[inline]
    #[must_use]
    pub fn where_clause(&self) -> (filter: Option<&Where<'a>>)
        ensures
            filter matches Some(inner) ==> self@.filter == Some(*inner),
            filter is None ==> self@.filter is None,
    {
        self.filter.as_ref()
    }

    /// The `order by` clause, if the node has one.
    #[inline]
    #[must_use]
    pub fn order_by(&self) -> (order_by: Option<&OrderBy<'a>>)
        ensures
            order_by matches Some(inner) ==> self@.order_by == Some(*inner),
            order_by is None ==> self@.order_by is None,
    {
        self.order_by.as_ref()
    }

    /// The `limit` clause, if the node has one.
    #[inline]
    #[must_use]
    pub fn limit(&self) -> (limit: Option<&Limit<'a>>)
        ensures
            limit matches Some(inner) ==> self@.limit == Some(*inner),
            limit is None ==> self@.limit is None,
    {
        self.limit.as_ref()
    }

    /// The `offset` clause, if the node has one.
    #[inline]
    #[must_use]
    pub fn offset(&self) -> (offset: Option<&Offset<'a>>)
        ensures
            offset matches Some(inner) ==> self@.offset == Some(*inner),
            offset is None ==> self@.offset is None,
    {
        self.offset.as_ref()
    }
}

} // verus!
