use relalg::eval::project;
use relalg::eval::renaming;
use relalg::eval::select;
use relalg::optimize::rename_in_condition;
use relalg::table::Table;
use relalg::types::Condition;
use relalg::types::Entry;
use relalg::types::Value;

fn names(list: &[&str]) -> Vec<String> {
    list.iter().map(|s| String::from(*s)).collect()
}

fn num(i: i64) -> Value {
    Value::Int(i)
}

fn column(s: &str) -> Value {
    Value::Column(String::from(s))
}

fn rows() -> Vec<Entry> {
    vec![
        vec![num(1), num(10), num(7)],
        vec![num(2), num(20), num(7)],
        vec![num(3), num(30), num(8)],
        vec![num(2), num(20), num(7)],
    ]
}

fn table() -> Table {
    Table::new(names(&["a", "b", "c"]), rows()).unwrap()
}

#[test]
fn projecting_onto_all_columns_in_order_changes_nothing() {
    let r = project(table(), names(&["a", "b", "c"])).unwrap();
    assert_eq!(r.schema().keys(), names(&["a", "b", "c"]));
    assert_eq!(*r.entries(), rows());
}

#[test]
fn selecting_twice_is_selecting_by_the_conjunction() {
    let c1 = Condition::More(column("a"), num(1));
    let c2 = Condition::Equal(column("c"), num(7));
    let twice = select(select(table(), &c1).unwrap(), &c2).unwrap();
    let once = select(table(), &Condition::And(Box::new(c1), Box::new(c2))).unwrap();
    assert_eq!(*twice.entries(), *once.entries());
    assert_eq!(*once.entries(), vec![vec![num(2), num(20), num(7)], vec![num(2), num(20), num(7)]]);
}

#[test]
fn selecting_twice_fails_where_the_conjunction_fails() {
    let c1 = Condition::More(column("a"), num(1));
    let c2 = Condition::Equal(column("z"), num(7));
    let twice = select(select(table(), &c1).unwrap(), &c2).err();
    let once = select(table(), &Condition::And(Box::new(c1), Box::new(c2))).err();
    assert_eq!(twice, once);
    assert!(once.is_some());
}

#[test]
fn selection_commutes_with_renaming() {
    let old = names(&["a", "c"]);
    let new = names(&["x", "z"]);
    let above = Condition::And(
        Box::new(Condition::More(column("x"), num(1))),
        Box::new(Condition::Equal(column("z"), num(7))),
    );
    let below = rename_in_condition(Box::new(above.clone()), &old, &new);
    let left = select(renaming(table(), &old, &new).unwrap(), &above).unwrap();
    let right = renaming(select(table(), &below).unwrap(), &old, &new).unwrap();
    assert_eq!(left.schema().keys(), names(&["x", "b", "z"]));
    assert_eq!(left.schema().keys(), right.schema().keys());
    assert_eq!(*left.entries(), *right.entries());
    assert_eq!(left.entries().len(), 2);
}
