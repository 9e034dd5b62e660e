use kosame::repr::clause::{Clause, Select, SelectCore};
use kosame::repr::query::Node;
use kosame::repr::schema::{Column, Relation, Table};
use kosame::sql::fmt_sql::FmtSql;
use kosame::sql::formatter::Formatter;

fn column(name: &'static str, primary_key: bool) -> Column<'static> {
    Column { name, data_type: "int", primary_key, not_null: primary_key, default: None }
}

#[test]
fn column_hands_out_its_parts() {
    let zero = Clause { text: "0" };
    let plain =
        Column { name: "age", data_type: "int", primary_key: false, not_null: true, default: Some(&zero) };
    assert_eq!(plain.name(), "age");
    assert_eq!(plain.data_type(), "int");
    assert!(!plain.primary_key());
    assert!(plain.not_null());
    assert_eq!(plain.default().unwrap().text, "0");
    let key = column("id", true);
    assert!(key.primary_key());
    assert!(key.default().is_none());
}

#[test]
fn relation_hands_out_its_parts() {
    let (a, b, c) = (column("a", false), column("b", false), column("c", true));
    let source = [&a, &b];
    let target = [&c];
    let relation = Relation::new("owner", "pets", &source, "people", &target);
    assert_eq!(relation.name(), "owner");
    assert_eq!(relation.source_table(), "pets");
    assert_eq!(relation.target_table(), "people");
    assert_eq!(relation.source_columns().len(), 2);
    assert_eq!(relation.source_columns()[1].name, "b");
    assert_eq!(relation.target_columns().len(), 1);
    assert_eq!(relation.target_columns()[0].name, "c");
}

#[test]
fn column_pairs_go_as_far_as_both_sides() {
    let (a, b, c, d) = (column("a", false), column("b", false), column("c", true), column("d", true));
    let source = [&a, &b];
    let target = [&c, &d];
    let relation = Relation::new("r", "s", &source, "t", &target);
    let pairs = relation.column_pairs();
    assert_eq!(pairs.len(), 2);
    assert_eq!((pairs[0].0.name, pairs[0].1.name), ("a", "c"));
    assert_eq!((pairs[1].0.name, pairs[1].1.name), ("b", "d"));

    let short = [&c];
    let uneven = Relation::new("r", "s", &source, "t", &short);
    let pairs = uneven.column_pairs();
    assert_eq!(pairs.len(), 1);
    assert_eq!((pairs[0].0.name, pairs[0].1.name), ("a", "c"));

    let none: [&Column; 0] = [];
    assert!(Relation::new("r", "s", &none, "t", &target).column_pairs().is_empty());
}

#[test]
fn table_hands_out_its_parts() {
    let (a, b) = (column("a", true), column("b", false));
    let columns = [&a, &b];
    let source = [&b];
    let target = [&a];
    let relation = Relation::new("parent", "nodes", &source, "nodes", &target);
    let relations = [&relation];
    let table = Table::new("nodes", &columns, &relations);
    assert_eq!(table.name(), "nodes");
    assert_eq!(table.columns().len(), 2);
    assert_eq!(table.columns()[0].name, "a");
    assert_eq!(table.relations().len(), 1);
    assert_eq!(table.relations()[0].name(), "parent");
}

#[test]
fn query_node_hands_out_its_parts() {
    let table = Table::new("nodes", &[], &[]);
    let fields = [Clause { text: "a" }, Clause { text: "b" }];
    let node = Node::new(
        &table,
        true,
        &fields,
        Some(Clause { text: "a > 1" }),
        None,
        Some(Clause { text: "10" }),
        Some(Clause { text: "20" }),
    );
    assert_eq!(node.table().name(), "nodes");
    assert!(node.star());
    assert_eq!(node.fields().len(), 2);
    assert_eq!(node.fields()[1].text, "b");
    assert_eq!(node.where_clause().unwrap().text, "a > 1");
    assert!(node.order_by().is_none());
    assert_eq!(node.limit().unwrap().text, "10");
    assert_eq!(node.offset().unwrap().text, "20");
}

#[test]
fn select_hands_out_its_parts() {
    let select = Select::new(Clause { text: "a, b" });
    assert_eq!(select.fields().text, "a, b");
    let core = SelectCore::new(
        select,
        Some(Clause { text: " from t" }),
        None,
        Some(Clause { text: " group by a" }),
        None,
    );
    assert_eq!(core.select().fields().text, "a, b");
    assert_eq!(core.from().unwrap().text, " from t");
    assert!(core.where_clause().is_none());
    assert_eq!(core.group_by().unwrap().text, " group by a");
    assert!(core.having().is_none());
}

#[test]
fn select_writes_its_sql() {
    let select = Select::new(Clause { text: "a, b" });
    assert_eq!(select.to_sql_string(), Ok(String::from("select a, b")));
    let core = SelectCore::new(
        select,
        Some(Clause { text: " from t" }),
        Some(Clause { text: " where a > 1" }),
        None,
        Some(Clause { text: " having b" }),
    );
    assert_eq!(core.to_sql_string(), Ok(String::from("select a, b from t where a > 1 having b")));
}

#[test]
fn text_and_option_write_their_sql() {
    let mut formatter = Formatter::new();
    assert_eq!("select".fmt_sql(&mut formatter), Ok(()));
    assert_eq!(Some(" 1").fmt_sql(&mut formatter), Ok(()));
    assert_eq!(None::<&str>.fmt_sql(&mut formatter), Ok(()));
    assert_eq!(formatter.write_str(";"), Ok(()));
    assert_eq!(formatter.finish(), "select 1;");
    assert_eq!(Some("x").to_sql_string(), Ok(String::from("x")));
    assert_eq!(None::<&str>.to_sql_string(), Ok(String::new()));
}
