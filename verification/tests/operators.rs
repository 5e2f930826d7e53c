use relalg::eval::eval_condition;
use relalg::eval::get_value;
use relalg::eval::join_project_rename;
use relalg::eval::minus;
use relalg::eval::product;
use relalg::eval::project;
use relalg::eval::read_select_project_rename;
use relalg::eval::rename_columns;
use relalg::eval::renaming;
use relalg::eval::select;
use relalg::eval::swap_truncate;
use relalg::eval::swaps_for_projection;
use relalg::eval::union;
use relalg::join::collect_pairs;
use relalg::join::residual_condition;
use relalg::error::Error;
use relalg::table::Catalog;
use relalg::table::Schema;
use relalg::table::Table;
use relalg::types::Condition;
use relalg::types::Entry;
use relalg::types::Value;

fn names(list: &[&str]) -> Vec<String> {
    list.iter().map(|s| String::from(*s)).collect()
}

fn num(i: i64) -> Value {
    Value::Int(i)
}

fn text(s: &str) -> Value {
    Value::Str(String::from(s))
}

fn column(s: &str) -> Value {
    Value::Column(String::from(s))
}

fn schema(columns: &[&str]) -> Schema {
    Schema::new(names(columns)).unwrap()
}

fn table(columns: &[&str], rows: Vec<Entry>) -> Table {
    Table::new(names(columns), rows).unwrap()
}

fn equal(a: Value, b: Value) -> Condition {
    Condition::Equal(a, b)
}

fn and(a: Condition, b: Condition) -> Condition {
    Condition::And(Box::new(a), Box::new(b))
}

fn or(a: Condition, b: Condition) -> Condition {
    Condition::Or(Box::new(a), Box::new(b))
}

fn sorted(rows: &Vec<Entry>) -> Vec<String> {
    let mut out: Vec<String> = rows.iter().map(|r| format!("{:?}", r)).collect();
    out.sort();
    out
}

#[test]
fn operand_resolves_column_and_keeps_literal() {
    let s = schema(&["a", "b"]);
    let row = vec![num(1), text("x")];
    assert_eq!(get_value(&row, &s, &column("b")), Ok(text("x")));
    assert_eq!(get_value(&row, &s, &num(7)), Ok(num(7)));
    assert_eq!(get_value(&row, &s, &column("z")), Err(Error::Schema));
}

#[test]
fn equality_is_by_value_and_false_across_types() {
    let s = schema(&["a", "b"]);
    let row = vec![num(1), text("1")];
    assert_eq!(eval_condition(&row, &s, &equal(column("a"), num(1))), Ok(true));
    assert_eq!(eval_condition(&row, &s, &equal(column("b"), text("1"))), Ok(true));
    assert_eq!(eval_condition(&row, &s, &equal(column("a"), column("b"))), Ok(false));
    assert_eq!(eval_condition(&row, &s, &equal(column("a"), num(2))), Ok(false));
}

#[test]
fn order_is_defined_between_integers_only() {
    let s = schema(&["a", "b"]);
    let row = vec![num(1), text("x")];
    assert_eq!(eval_condition(&row, &s, &Condition::Less(column("a"), num(2))), Ok(true));
    assert_eq!(eval_condition(&row, &s, &Condition::Less(num(2), column("a"))), Ok(false));
    assert_eq!(eval_condition(&row, &s, &Condition::More(num(2), column("a"))), Ok(true));
    assert_eq!(eval_condition(&row, &s, &Condition::More(column("a"), num(1))), Ok(false));
    assert_eq!(eval_condition(&row, &s, &Condition::Less(column("b"), text("y"))), Ok(false));
    assert_eq!(eval_condition(&row, &s, &Condition::More(text("y"), column("b"))), Ok(false));
}

#[test]
fn logical_operators_short_circuit_left_to_right() {
    let s = schema(&["a"]);
    let row = vec![num(1)];
    let absent = equal(column("z"), num(1));
    let yes = equal(column("a"), num(1));
    let no = equal(column("a"), num(2));
    assert_eq!(eval_condition(&row, &s, &and(no.clone(), absent.clone())), Ok(false));
    assert_eq!(eval_condition(&row, &s, &and(yes.clone(), absent.clone())), Err(Error::Schema));
    assert_eq!(eval_condition(&row, &s, &and(absent.clone(), no.clone())), Err(Error::Schema));
    assert_eq!(eval_condition(&row, &s, &or(yes.clone(), absent.clone())), Ok(true));
    assert_eq!(eval_condition(&row, &s, &or(no.clone(), absent.clone())), Err(Error::Schema));
    assert_eq!(eval_condition(&row, &s, &or(no.clone(), yes.clone())), Ok(true));
    assert_eq!(eval_condition(&row, &s, &Condition::Not(Box::new(no))), Ok(true));
    assert_eq!(eval_condition(&row, &s, &Condition::Not(Box::new(absent))), Err(Error::Schema));
    assert_eq!(eval_condition(&row, &s, &Condition::True), Ok(true));
    assert_eq!(eval_condition(&row, &s, &Condition::False), Ok(false));
}

#[test]
fn selection_is_stable_and_keeps_the_schema() {
    let t = table(&["a", "b"], vec![vec![num(3), num(0)], vec![num(1), num(1)], vec![num(2), num(2)]]);
    let r = select(t, &Condition::More(column("a"), num(1))).unwrap();
    assert_eq!(r.schema().keys(), names(&["a", "b"]));
    assert_eq!(*r.entries(), vec![vec![num(3), num(0)], vec![num(2), num(2)]]);
}

#[test]
fn selection_on_absent_column_is_schema_error() {
    let t = table(&["a"], vec![vec![num(3)]]);
    assert_eq!(select(t, &equal(column("z"), num(1))).err(), Some(Error::Schema));
}

#[test]
fn selection_on_absent_column_of_empty_table_succeeds() {
    let t = table(&["a"], vec![]);
    assert!(select(t, &equal(column("z"), num(1))).is_ok());
}

#[test]
fn swaps_bring_targets_to_the_front_in_target_order() {
    let s = schema(&["a", "b", "c", "d"]);
    let (swaps, projected) = swaps_for_projection(&s, &names(&["c", "a"])).ok().unwrap();
    assert_eq!(swaps, vec![(2, 0), (2, 1)]);
    assert_eq!(projected.keys(), names(&["c", "a"]));
    let mut row = vec![text("A"), text("B"), text("C"), text("D")];
    swap_truncate(&mut row, &swaps, 2);
    assert_eq!(row, vec![text("C"), text("A")]);
}

#[test]
fn swaps_are_empty_where_columns_are_in_place() {
    let s = schema(&["a", "b", "c"]);
    let (swaps, projected) = swaps_for_projection(&s, &names(&["a", "b"])).ok().unwrap();
    assert_eq!(swaps, vec![]);
    assert_eq!(projected.keys(), names(&["a", "b"]));
}

#[test]
fn one_swap_places_two_columns() {
    let s = schema(&["a", "b"]);
    let (swaps, _) = swaps_for_projection(&s, &names(&["b", "a"])).ok().unwrap();
    assert_eq!(swaps, vec![(1, 0)]);
}

#[test]
fn swaps_for_absent_or_repeated_column_are_refused() {
    let s = schema(&["a", "b"]);
    assert_eq!(swaps_for_projection(&s, &names(&["z"])).err(), Some(Error::Schema));
    assert_eq!(swaps_for_projection(&s, &names(&["a", "a"])).err(), Some(Error::Schema));
}

#[test]
fn projection_maps_columns_to_their_index_in_the_list() {
    let t = table(
        &["a", "b", "c"],
        vec![vec![num(1), num(2), num(3)], vec![num(4), num(5), num(6)]],
    );
    let r = project(t, names(&["c", "a"])).unwrap();
    assert_eq!(r.schema().keys(), names(&["c", "a"]));
    assert_eq!(r.schema().get(&String::from("c")), Some(0));
    assert_eq!(r.schema().get(&String::from("a")), Some(1));
    assert_eq!(*r.entries(), vec![vec![num(3), num(1)], vec![num(6), num(4)]]);
}

#[test]
fn projection_onto_unknown_column_is_schema_error() {
    let t = table(&["a"], vec![vec![num(1)]]);
    assert_eq!(project(t, names(&["b"])).err(), Some(Error::Schema));
}

#[test]
fn renaming_changes_the_schema_only() {
    let t = table(&["a", "b"], vec![vec![num(1), num(2)]]);
    let r = renaming(t, &names(&["a"]), &names(&["x"])).unwrap();
    assert_eq!(r.schema().keys(), names(&["x", "b"]));
    assert_eq!(*r.entries(), vec![vec![num(1), num(2)]]);
}

#[test]
fn renaming_applies_pairs_in_order() {
    let mut s = schema(&["a", "b"]);
    assert_eq!(rename_columns(&mut s, &names(&["a", "x"]), &names(&["x", "y"])), Ok(()));
    assert_eq!(s.keys(), names(&["y", "b"]));
}

#[test]
fn renaming_of_absent_column_is_schema_error_and_keeps_the_schema() {
    let mut s = schema(&["a", "b"]);
    assert_eq!(rename_columns(&mut s, &names(&["a", "z"]), &names(&["x", "y"])), Err(Error::Schema));
    assert_eq!(s.keys(), names(&["a", "b"]));
}

#[test]
fn renaming_onto_taken_name_is_schema_error() {
    let t = table(&["a", "b"], vec![]);
    assert_eq!(renaming(t, &names(&["a"]), &names(&["b"])).err(), Some(Error::Schema));
}

#[test]
fn product_pairs_each_left_row_with_all_right_rows() {
    let left = table(&["a"], vec![vec![num(1)], vec![num(2)]]);
    let right = table(&["b", "c"], vec![vec![num(7), text("x")], vec![num(8), text("y")]]);
    let r = product(left, right).unwrap();
    assert_eq!(r.schema().keys(), names(&["a", "b", "c"]));
    assert_eq!(r.schema().get(&String::from("b")), Some(1));
    assert_eq!(
        *r.entries(),
        vec![
            vec![num(1), num(7), text("x")],
            vec![num(1), num(8), text("y")],
            vec![num(2), num(7), text("x")],
            vec![num(2), num(8), text("y")],
        ]
    );
}

#[test]
fn product_of_tables_with_common_column_is_schema_error() {
    let left = table(&["a"], vec![]);
    let right = table(&["a"], vec![]);
    assert_eq!(product(left, right).err(), Some(Error::Schema));
}

#[test]
fn difference_compares_rows_by_position() {
    let left = table(&["a", "b"], vec![vec![num(1), num(2)], vec![num(2), num(1)]]);
    let right = table(&["x", "y"], vec![vec![num(2), num(1)]]);
    let r = minus(left, right);
    assert_eq!(r.schema().keys(), names(&["a", "b"]));
    assert_eq!(*r.entries(), vec![vec![num(1), num(2)]]);
}

#[test]
fn union_keeps_duplicates() {
    let left = table(&["a"], vec![vec![num(1)]]);
    let right = table(&["a"], vec![vec![num(1)]]);
    let r = union(left, right).unwrap();
    assert_eq!(*r.entries(), vec![vec![num(1)], vec![num(1)]]);
}

#[test]
fn union_realigns_a_cycle_of_three_columns() {
    let left = table(&["a", "b", "c"], vec![]);
    let right = table(&["c", "a", "b"], vec![vec![text("C"), text("A"), text("B")]]);
    let r = union(left, right).unwrap();
    assert_eq!(*r.entries(), vec![vec![text("A"), text("B"), text("C")]]);
}

#[test]
fn union_of_tables_with_other_columns_is_schema_error() {
    let left = table(&["a", "b"], vec![]);
    let right = table(&["a", "c"], vec![]);
    assert_eq!(union(left, right).err(), Some(Error::Schema));
    let left = table(&["a"], vec![]);
    let right = table(&["a", "c"], vec![]);
    assert_eq!(union(left, right).err(), Some(Error::Schema));
}

#[test]
fn fused_read_is_the_chain_of_its_parts() {
    let rows = vec![
        vec![num(5), text("Ann"), text("X")],
        vec![num(12), text("Bo"), text("Y")],
        vec![num(23), text("Cy"), text("X")],
    ];
    let mut catalog = Catalog::new();
    catalog.insert(String::from("E"), table(&["Id", "Name", "Dept"], rows.clone()));
    let condition = equal(column("Dept"), text("X"));
    let fused = read_select_project_rename(
        &String::from("E"),
        &condition,
        &names(&["Name", "Id"]),
        &names(&["Who", "Num"]),
        &catalog,
    )
    .unwrap();
    let chain = renaming(
        project(
            select(table(&["Id", "Name", "Dept"], rows), &condition).unwrap(),
            names(&["Name", "Id"]),
        )
        .unwrap(),
        &names(&["Name", "Id"]),
        &names(&["Who", "Num"]),
    )
    .unwrap();
    assert_eq!(fused.schema().keys(), names(&["Who", "Num"]));
    assert_eq!(fused.schema().keys(), chain.schema().keys());
    assert_eq!(*fused.entries(), *chain.entries());
    assert_eq!(*fused.entries(), vec![vec![text("Ann"), num(5)], vec![text("Cy"), num(23)]]);
}

#[test]
fn fused_read_of_unknown_relation_is_source_access_error() {
    let r = read_select_project_rename(
        &String::from("E"),
        &Condition::True,
        &names(&[]),
        &names(&[]),
        &Catalog::new(),
    );
    assert_eq!(r.err(), Some(Error::SourceAccess));
}

#[test]
fn equi_pairs_are_oriented_left_first() {
    let left = schema(&["a", "b"]);
    let right = schema(&["c", "d"]);
    let condition = and(
        equal(column("d"), column("a")),
        and(equal(column("b"), column("c")), equal(column("a"), column("b"))),
    );
    let mut pairs = Vec::new();
    collect_pairs(&condition, &left, &right, &mut pairs);
    assert_eq!(pairs, vec![(0, 1), (1, 0)]);
}

#[test]
fn residual_replaces_equi_pairs_by_true() {
    let left = schema(&["a", "b"]);
    let right = schema(&["c", "d"]);
    let same_side = equal(column("a"), column("b"));
    let either = or(equal(column("a"), column("c")), Condition::False);
    let condition = and(equal(column("d"), column("a")), and(same_side.clone(), either.clone()));
    let rest = residual_condition(&condition, &left, &right);
    assert_eq!(rest, and(Condition::True, and(same_side, either)));
}

#[test]
fn hash_join_matches_on_keys_and_filters_by_the_residual() {
    let left = table(
        &["id", "name"],
        vec![vec![num(1), text("a")], vec![num(-2), text("b")], vec![num(1), text("c")]],
    );
    let right = table(
        &["ref", "size"],
        vec![vec![num(1), num(10)], vec![num(-2), num(20)], vec![num(3), num(30)], vec![num(1), num(5)]],
    );
    let condition = and(
        equal(column("ref"), column("id")),
        Condition::More(column("size"), num(7)),
    );
    let r = join_project_rename(
        left,
        right,
        &condition,
        &names(&["name", "size"]),
        &names(&["who", "size"]),
    )
    .unwrap();
    assert_eq!(r.schema().keys(), names(&["who", "size"]));
    assert_eq!(
        *r.entries(),
        vec![
            vec![text("a"), num(10)],
            vec![text("c"), num(10)],
            vec![text("b"), num(20)],
        ]
    );
}

#[test]
fn hash_join_on_text_keys() {
    let left = table(&["k"], vec![vec![text("x")], vec![text("y")], vec![num(1)]]);
    let right = table(&["j"], vec![vec![text("y")], vec![text("1")], vec![text("x")]]);
    let r = join_project_rename(
        left,
        right,
        &equal(column("k"), column("j")),
        &names(&["k", "j"]),
        &names(&["k", "j"]),
    )
    .unwrap();
    assert_eq!(*r.entries(), vec![vec![text("y"), text("y")], vec![text("x"), text("x")]]);
}

#[test]
fn hash_join_without_equi_pair_is_a_filtered_cross_product() {
    let rows1 = vec![vec![num(1)], vec![num(2)], vec![num(3)]];
    let rows2 = vec![vec![num(2)], vec![num(3)]];
    let condition = Condition::Less(column("a"), column("b"));
    let joined = join_project_rename(
        table(&["a"], rows1.clone()),
        table(&["b"], rows2.clone()),
        &condition,
        &names(&["a", "b"]),
        &names(&["a", "b"]),
    )
    .unwrap();
    let oracle = select(product(table(&["a"], rows1), table(&["b"], rows2)).unwrap(), &condition).unwrap();
    assert_eq!(joined.schema().keys(), oracle.schema().keys());
    assert_eq!(sorted(joined.entries()), sorted(oracle.entries()));
    assert_eq!(joined.entries().len(), 3);
}

#[test]
fn hash_join_of_tables_with_common_column_is_schema_error() {
    let r = join_project_rename(
        table(&["a"], vec![]),
        table(&["a"], vec![]),
        &Condition::True,
        &names(&["a"]),
        &names(&["a"]),
    );
    assert_eq!(r.err(), Some(Error::Schema));
}
