use relalg::eval::eval;
use relalg::error::Error;
use relalg::table::Catalog;
use relalg::table::Table;
use relalg::types::Condition;
use relalg::types::Entry;
use relalg::types::Expression;
use relalg::types::Value;

fn names(list: &[&str]) -> Vec<String> {
    list.iter().map(|s| String::from(*s)).collect()
}

fn num(i: i64) -> Value {
    Value::Int(i)
}

fn text(s: &str) -> Value {
    Value::Str(String::from(s))
}

fn column(s: &str) -> Value {
    Value::Column(String::from(s))
}

fn load(name: &str) -> Box<Expression> {
    Box::new(Expression::Load(String::from(name), None))
}

fn table(columns: &[&str], rows: Vec<Entry>) -> Table {
    Table::new(names(columns), rows).unwrap()
}

fn employees() -> Catalog {
    let mut catalog = Catalog::new();
    catalog.insert(
        String::from("Employee"),
        table(
            &["Id", "Name", "Dept"],
            vec![
                vec![num(5), text("Ann"), text("X")],
                vec![num(12), text("Bo"), text("Y")],
                vec![num(23), text("Cy"), text("X")],
            ],
        ),
    );
    catalog
}

#[test]
fn scenario_select_by_id() {
    let plan = Box::new(Expression::Select(
        load("Employee"),
        Box::new(Condition::Equal(column("Id"), num(12))),
    ));
    let result = eval(plan, &employees()).unwrap();
    assert_eq!(result.schema().keys(), names(&["Id", "Name", "Dept"]));
    assert_eq!(*result.entries(), vec![vec![num(12), text("Bo"), text("Y")]]);
}

#[test]
fn scenario_union_realigns_right_rows() {
    let mut catalog = Catalog::new();
    catalog.insert(String::from("T1"), table(&["A", "B"], vec![vec![num(1), num(2)]]));
    catalog.insert(String::from("T2"), table(&["B", "A"], vec![vec![num(9), num(8)]]));
    let result = eval(Box::new(Expression::Union(load("T1"), load("T2"))), &catalog).unwrap();
    assert_eq!(result.schema().keys(), names(&["A", "B"]));
    assert_eq!(*result.entries(), vec![vec![num(1), num(2)], vec![num(8), num(9)]]);
}

#[test]
fn scenario_except_removes_both_duplicates() {
    let mut catalog = Catalog::new();
    catalog.insert(
        String::from("T1"),
        table(
            &["n", "s"],
            vec![vec![num(1), text("a")], vec![num(1), text("a")], vec![num(2), text("b")]],
        ),
    );
    catalog.insert(String::from("T2"), table(&["n", "s"], vec![vec![num(1), text("a")]]));
    let result = eval(Box::new(Expression::Except(load("T1"), load("T2"))), &catalog).unwrap();
    assert_eq!(*result.entries(), vec![vec![num(2), text("b")]]);
}

#[test]
fn load_of_unknown_relation_is_source_access_error() {
    let result = eval(load("Nobody"), &employees());
    assert_eq!(result.err(), Some(Error::SourceAccess));
}

#[test]
fn later_relation_shadows_earlier_one() {
    let mut catalog = employees();
    catalog.insert(String::from("Employee"), table(&["Id"], vec![vec![num(1)]]));
    let result = eval(load("Employee"), &catalog).unwrap();
    assert_eq!(result.schema().keys(), names(&["Id"]));
    assert_eq!(*result.entries(), vec![vec![num(1)]]);
}

#[test]
fn evaluation_of_a_copy_leaves_the_plan_usable() {
    let plan = Box::new(Expression::Project(load("Employee"), names(&["Name"])));
    let first = eval(plan.clone(), &employees()).unwrap();
    let second = eval(plan, &employees()).unwrap();
    assert_eq!(*first.entries(), *second.entries());
    assert_eq!(*first.entries(), vec![vec![text("Ann")], vec![text("Bo")], vec![text("Cy")]]);
}

#[test]
fn table_with_column_reference_in_a_row_is_refused() {
    assert!(Table::new(names(&["a"]), vec![vec![column("a")]]).is_none());
}

#[test]
fn table_with_ragged_row_is_refused() {
    assert!(Table::new(names(&["a", "b"]), vec![vec![num(1)]]).is_none());
}

#[test]
fn table_with_repeated_column_is_refused() {
    assert!(Table::new(names(&["a", "a"]), vec![]).is_none());
}
