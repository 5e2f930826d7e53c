use relalg::eval::eval;
use relalg::error::Error;
use relalg::optimize::apply_projections_early;
use relalg::optimize::columns_used_in_condition;
use relalg::optimize::get_exposed_columns;
use relalg::optimize::opti_from_string;
use relalg::optimize::push_down_selections;
use relalg::optimize::rename_in_condition;
use relalg::optimize::rename_value;
use relalg::optimize::unfold_complex_expressions;
use relalg::optimize::visit_children;
use relalg::optimize::ApplyProjectionsEarlyOptimizer;
use relalg::optimize::ChainOptimizer;
use relalg::optimize::DetectLoadColumnsOptimizer;
use relalg::optimize::FoldComplexExpressionsOptimizer;
use relalg::optimize::Optimizer;
use relalg::optimize::Pass;
use relalg::optimize::PushDownSelectionsOptimizer;
use relalg::optimize::Seen;
use relalg::optimize::UnfoldComplexExpressionsOptimizer;
use relalg::source::sources;
use relalg::table::Catalog;
use relalg::table::Table;
use relalg::types::Condition;
use relalg::types::Entry;
use relalg::types::Expression;
use relalg::types::Value;

fn names(list: &[&str]) -> Vec<String> {
    list.iter().map(|s| String::from(*s)).collect()
}

fn num(i: i64) -> Value {
    Value::Int(i)
}

fn text(s: &str) -> Value {
    Value::Str(String::from(s))
}

fn column(s: &str) -> Value {
    Value::Column(String::from(s))
}

fn load(name: &str) -> Box<Expression> {
    Box::new(Expression::Load(String::from(name), None))
}

fn found(name: &str, columns: &[&str]) -> Box<Expression> {
    Box::new(Expression::Load(String::from(name), Some(names(columns))))
}

fn select(p: Box<Expression>, c: Condition) -> Box<Expression> {
    Box::new(Expression::Select(p, Box::new(c)))
}

fn project(p: Box<Expression>, columns: &[&str]) -> Box<Expression> {
    Box::new(Expression::Project(p, names(columns)))
}

fn rename(p: Box<Expression>, old: &[&str], new: &[&str]) -> Box<Expression> {
    Box::new(Expression::Rename(p, names(old), names(new)))
}

fn product(p: Box<Expression>, q: Box<Expression>) -> Box<Expression> {
    Box::new(Expression::Product(p, q))
}

fn equal(a: Value, b: Value) -> Condition {
    Condition::Equal(a, b)
}

fn catalog() -> Catalog {
    let mut catalog = Catalog::new();
    catalog.insert(
        String::from("emp"),
        Table::new(
            names(&["id", "name", "dept"]),
            vec![
                vec![num(5), text("Ann"), num(1)],
                vec![num(12), text("Bo"), num(2)],
                vec![num(23), text("Cy"), num(1)],
                vec![num(23), text("Cy"), num(1)],
            ],
        )
        .unwrap(),
    );
    catalog.insert(
        String::from("dep"),
        Table::new(
            names(&["num", "title"]),
            vec![vec![num(1), text("R")], vec![num(2), text("S")], vec![num(3), text("T")]],
        )
        .unwrap(),
    );
    catalog
}

/// The rows of a table as name-value lists sorted by name, themselves
/// sorted: equal for tables with the same columns and the same rows.
fn bag(table: &Table) -> (Vec<String>, Vec<String>) {
    let keys = table.schema().keys();
    let mut order: Vec<usize> = (0..keys.len()).collect();
    order.sort_by(|a, b| keys[*a].cmp(&keys[*b]));
    let mut columns = keys.clone();
    columns.sort();
    let mut rows: Vec<String> = table
        .entries()
        .iter()
        .map(|row: &Entry| {
            let cells: Vec<String> = order.iter().map(|i| format!("{:?}", row[*i])).collect();
            cells.join("|")
        })
        .collect();
    rows.sort();
    (columns, rows)
}

fn sample_plan() -> Box<Expression> {
    project(
        select(
            product(rename(load("emp"), &["dept"], &["unit"]), load("dep")),
            Condition::And(
                Box::new(equal(column("unit"), column("num"))),
                Box::new(Condition::More(column("id"), num(6))),
            ),
        ),
        &["name", "title"],
    )
}

fn assert_same_result(pass: &dyn Optimizer, plan: Box<Expression>) {
    let before = eval(plan.clone(), &catalog()).unwrap();
    let after = eval(pass.optimize(plan, &catalog()).unwrap(), &catalog()).unwrap();
    assert_eq!(bag(&before), bag(&after));
}

#[test]
fn discovery_fills_the_columns_of_each_load_once() {
    let plan = product(load("emp"), found("dep", &["kept"]));
    let r = DetectLoadColumnsOptimizer {}.optimize(plan, &catalog()).unwrap();
    match *r {
        Expression::Product(a, b) => {
            match *a {
                Expression::Load(name, columns) => {
                    assert_eq!(name, "emp");
                    assert_eq!(columns, Some(names(&["id", "name", "dept"])));
                }
                other => panic!("{:?}", other),
            }
            match *b {
                Expression::Load(_, columns) => assert_eq!(columns, Some(names(&["kept"]))),
                other => panic!("{:?}", other),
            }
        }
        other => panic!("{:?}", other),
    }
}

#[test]
fn discovery_of_unknown_relation_is_source_access_error() {
    assert_eq!(DetectLoadColumnsOptimizer {}.optimize(load("ghost"), &catalog()).err(), Some(Error::SourceAccess));
}

#[test]
fn passes_refuse_fused_nodes() {
    let fused = || {
        Box::new(Expression::ReadSelectProjectRename(
            String::from("emp"),
            Box::new(Condition::True),
            names(&["id"]),
            names(&["id"]),
        ))
    };
    assert_eq!(DetectLoadColumnsOptimizer {}.optimize(fused(), &catalog()).err(), Some(Error::Precedence));
    assert_eq!(apply_projections_early(fused(), None).err(), Some(Error::Precedence));
    assert_eq!(push_down_selections(fused(), Vec::new()).err(), Some(Error::Precedence));
    assert_eq!(FoldComplexExpressionsOptimizer {}.fold(fused(), Seen::new(), &catalog()).err(), Some(Error::Precedence));
    assert_eq!(get_exposed_columns(&fused()).err(), Some(Error::Precedence));
    let pass = DetectLoadColumnsOptimizer {};
    assert_eq!(visit_children(&pass, fused(), &catalog()).err(), Some(Error::Precedence));
}

#[test]
fn passes_that_read_columns_refuse_undiscovered_loads() {
    assert_eq!(
        apply_projections_early(project(load("emp"), &["id"]), None).err(),
        Some(Error::Precedence)
    );
    assert_eq!(
        push_down_selections(product(load("emp"), load("dep")), Vec::new()).err(),
        Some(Error::Precedence)
    );
    assert_eq!(
        FoldComplexExpressionsOptimizer {}.fold(select(load("emp"), Condition::True), Seen::new(), &catalog()).err(),
        Some(Error::Precedence)
    );
    assert_eq!(get_exposed_columns(&load("emp")).err(), Some(Error::Precedence));
}

#[test]
fn default_visit_rebuilds_the_node_around_rewritten_children() {
    let pass = DetectLoadColumnsOptimizer {};
    let r = visit_children(&pass, select(load("dep"), Condition::True), &catalog()).unwrap();
    assert_eq!(*r, *select(load("dep"), Condition::True));
    match *r {
        Expression::Select(p, _) => match *p {
            Expression::Load(_, columns) => assert_eq!(columns, Some(names(&["num", "title"]))),
            other => panic!("{:?}", other),
        },
        other => panic!("{:?}", other),
    }
    let leaf = visit_children(&pass, load("dep"), &catalog()).unwrap();
    match *leaf {
        Expression::Load(_, columns) => assert_eq!(columns, None),
        other => panic!("{:?}", other),
    }
}

#[test]
fn exposed_columns_follow_the_plan() {
    let plan = rename(
        product(project(found("emp", &["id", "name", "dept"]), &["name", "id"]), found("dep", &["num", "title"])),
        &["id", "title"],
        &["key", "label"],
    );
    assert_eq!(get_exposed_columns(&plan), Ok(names(&["name", "num", "key", "label"])));
    let left_only = Box::new(Expression::Except(found("emp", &["id"]), found("dep", &["num"])));
    assert_eq!(get_exposed_columns(&left_only), Ok(names(&["id"])));
}

#[test]
fn columns_of_a_condition_are_collected_once_each() {
    let c = Condition::Or(
        Box::new(equal(column("a"), column("b"))),
        Box::new(Condition::Not(Box::new(Condition::Less(column("b"), num(1))))),
    );
    let mut fields = names(&["z"]);
    columns_used_in_condition(&c, &mut fields);
    assert_eq!(fields, names(&["z", "a", "b"]));
}

#[test]
fn renaming_a_condition_backwards_keeps_its_shape() {
    let c = Box::new(Condition::Or(
        Box::new(equal(column("x"), num(1))),
        Box::new(Condition::More(column("y"), column("x"))),
    ));
    let r = rename_in_condition(c, &names(&["a"]), &names(&["x"]));
    assert_eq!(
        *r,
        Condition::Or(
            Box::new(equal(column("a"), num(1))),
            Box::new(Condition::More(column("y"), column("a"))),
        )
    );
    assert_eq!(rename_value(num(3), &names(&["a"]), &names(&["x"])), num(3));
    assert_eq!(rename_value(column("x"), &names(&["a", "b"]), &names(&["x", "x"])), column("b"));
}

#[test]
fn projection_pushdown_projects_above_a_selection_that_needs_more() {
    let plan = project(
        select(found("emp", &["id", "name", "dept"]), equal(column("dept"), num(1))),
        &["name"],
    );
    let r = apply_projections_early(plan, None).unwrap();
    let expected = project(
        select(
            project(found("emp", &["id", "name", "dept"]), &["name", "dept"]),
            equal(column("dept"), num(1)),
        ),
        &["name"],
    );
    assert_eq!(*r, *expected);
}

#[test]
fn projection_pushdown_adds_no_projection_where_all_columns_are_needed() {
    let plan = project(found("dep", &["num", "title"]), &["title", "num"]);
    let r = apply_projections_early(plan, None).unwrap();
    assert_eq!(*r, *found("dep", &["num", "title"]));
}

#[test]
fn selection_pushdown_partitions_at_a_product() {
    let left = equal(column("id"), num(5));
    let right = equal(column("num"), num(1));
    let both = equal(column("dept"), column("num"));
    let plan = select(
        select(
            select(
                product(found("emp", &["id", "name", "dept"]), found("dep", &["num", "title"])),
                both.clone(),
            ),
            right.clone(),
        ),
        left.clone(),
    );
    let r = push_down_selections(plan, Vec::new()).unwrap();
    let expected = select(
        product(
            select(found("emp", &["id", "name", "dept"]), left),
            select(found("dep", &["num", "title"]), right),
        ),
        both,
    );
    assert_eq!(*r, *expected);
}

#[test]
fn fusion_collapses_a_chain_over_a_load() {
    let c = equal(column("dept"), num(1));
    let plan = rename(
        project(select(found("emp", &["id", "name", "dept"]), c.clone()), &["name", "id"]),
        &["id"],
        &["key"],
    );
    let r = FoldComplexExpressionsOptimizer {}.fold(plan, Seen::new(), &catalog()).unwrap();
    let expected = Expression::ReadSelectProjectRename(
        String::from("emp"),
        Box::new(c),
        names(&["id", "name"]),
        names(&["key", "name"]),
    );
    assert_eq!(*r, expected);
}

#[test]
fn fusion_without_selection_puts_the_chain_back() {
    let plan = rename(project(found("emp", &["id", "name", "dept"]), &["name"]), &["name"], &["who"]);
    let r = FoldComplexExpressionsOptimizer {}.fold(plan.clone(), Seen::new(), &catalog()).unwrap();
    assert_eq!(*r, *plan);
}

#[test]
fn fusion_reaches_the_children_of_a_product() {
    let c = equal(column("id"), num(5));
    let plan = product(select(found("emp", &["id", "name", "dept"]), c.clone()), found("dep", &["num", "title"]));
    let r = FoldComplexExpressionsOptimizer {}.fold(plan, Seen::new(), &catalog()).unwrap();
    let expected = product(
        Box::new(Expression::ReadSelectProjectRename(
            String::from("emp"),
            Box::new(c),
            names(&["id", "name", "dept"]),
            names(&["id", "name", "dept"]),
        )),
        found("dep", &["num", "title"]),
    );
    assert_eq!(*r, *expected);
}

#[test]
fn unfusing_expands_a_fused_read() {
    let c = equal(column("id"), num(5));
    let fused = Box::new(Expression::ReadSelectProjectRename(
        String::from("emp"),
        Box::new(c.clone()),
        names(&["id"]),
        names(&["key"]),
    ));
    let r = unfold_complex_expressions(fused);
    assert_eq!(*r, *rename(project(select(load("emp"), c), &["id"]), &["id"], &["key"]));
}

#[test]
fn unfusing_expands_a_fused_join() {
    let c = equal(column("dept"), column("num"));
    let fused = Box::new(Expression::JoinProjectRename(
        load("emp"),
        load("dep"),
        Box::new(c.clone()),
        names(&["name", "title"]),
        names(&["who", "what"]),
    ));
    let r = unfold_complex_expressions(fused.clone());
    let expected = rename(
        project(select(product(load("emp"), load("dep")), c), &["name", "title"]),
        &["name", "title"],
        &["who", "what"],
    );
    assert_eq!(*r, *expected);
    let before = eval(fused, &catalog()).unwrap();
    let after = eval(r, &catalog()).unwrap();
    assert_eq!(bag(&before), bag(&after));
    assert_eq!(before.entries().len(), 4);
}

#[test]
fn each_pass_keeps_the_result_of_a_plan() {
    let discovered = DetectLoadColumnsOptimizer {}.optimize(sample_plan(), &catalog()).unwrap();
    assert_same_result(&UnfoldComplexExpressionsOptimizer {}, sample_plan());
    assert_same_result(&DetectLoadColumnsOptimizer {}, sample_plan());
    assert_same_result(&PushDownSelectionsOptimizer {}, discovered.clone());
    assert_same_result(&ApplyProjectionsEarlyOptimizer {}, discovered.clone());
    assert_same_result(&FoldComplexExpressionsOptimizer {}, discovered);
}

#[test]
fn the_full_chain_keeps_the_result_of_a_plan() {
    let chain = ChainOptimizer {
        optimizers: vec![
            Box::new(UnfoldComplexExpressionsOptimizer {}),
            Box::new(DetectLoadColumnsOptimizer {}),
            Box::new(PushDownSelectionsOptimizer {}),
            Box::new(ApplyProjectionsEarlyOptimizer {}),
            Box::new(FoldComplexExpressionsOptimizer {}),
        ],
    };
    assert_same_result(&chain, sample_plan());
    let before = eval(sample_plan(), &catalog()).unwrap();
    assert_eq!(
        bag(&before),
        (
            names(&["name", "title"]),
            vec![
                String::from("Str(\"Bo\")|Str(\"S\")"),
                String::from("Str(\"Cy\")|Str(\"R\")"),
                String::from("Str(\"Cy\")|Str(\"R\")"),
            ]
        )
    );
}

#[test]
fn a_chain_stops_at_the_first_error() {
    let chain = ChainOptimizer {
        optimizers: vec![
            Box::new(ApplyProjectionsEarlyOptimizer {}),
            Box::new(DetectLoadColumnsOptimizer {}),
        ],
    };
    assert_eq!(
        chain.optimize(project(load("emp"), &["id"]), &catalog()).err(),
        Some(Error::Precedence)
    );
}

#[test]
fn unfusing_then_fusing_gives_back_the_fused_read() {
    let c = equal(column("dept"), num(1));
    let chain = || ChainOptimizer {
        optimizers: vec![
            Box::new(UnfoldComplexExpressionsOptimizer {}),
            Box::new(DetectLoadColumnsOptimizer {}),
            Box::new(PushDownSelectionsOptimizer {}),
            Box::new(ApplyProjectionsEarlyOptimizer {}),
            Box::new(FoldComplexExpressionsOptimizer {}),
        ],
    };
    // the condition needs a column that the projection keeps
    let fused = Box::new(Expression::ReadSelectProjectRename(
        String::from("emp"),
        Box::new(c.clone()),
        names(&["name", "dept"]),
        names(&["who", "dept"]),
    ));
    let again = chain().optimize(fused.clone(), &catalog()).unwrap();
    assert_eq!(*again, *fused);
    let before = eval(fused, &catalog()).unwrap();
    let after = eval(again, &catalog()).unwrap();
    assert_eq!(bag(&before), bag(&after));
    assert_eq!(before.entries().len(), 3);
    // the condition needs a column that the projection drops
    let fused = Box::new(Expression::ReadSelectProjectRename(
        String::from("emp"),
        Box::new(c),
        names(&["name"]),
        names(&["who"]),
    ));
    let again = chain().optimize(fused.clone(), &catalog()).unwrap();
    assert_eq!(*again, *fused);
    // every column is kept
    let fused = Box::new(Expression::ReadSelectProjectRename(
        String::from("dep"),
        Box::new(Condition::True),
        names(&["title", "num"]),
        names(&["t", "n"]),
    ));
    let again = chain().optimize(fused.clone(), &catalog()).unwrap();
    assert_eq!(*again, *fused);
}

#[test]
fn passes_are_found_by_their_short_names() {
    assert_eq!(opti_from_string(String::from("UCE")), Some(Pass::Unfold));
    assert_eq!(opti_from_string(String::from("DLC")), Some(Pass::DetectLoadColumns));
    assert_eq!(opti_from_string(String::from("PDS")), Some(Pass::PushDownSelections));
    assert_eq!(opti_from_string(String::from("APE")), Some(Pass::ApplyProjectionsEarly));
    assert_eq!(opti_from_string(String::from("FCE")), Some(Pass::Fold));
    assert_eq!(opti_from_string(String::from("XYZ")), None);
}

#[test]
fn a_pass_value_runs_its_pass() {
    let plan = select(found("emp", &["id", "name", "dept"]), Condition::True);
    let r = Pass::Fold.optimize(plan, &catalog()).unwrap();
    assert_eq!(
        *r,
        Expression::ReadSelectProjectRename(
            String::from("emp"),
            Box::new(Condition::True),
            names(&["id", "name", "dept"]),
            names(&["id", "name", "dept"]),
        )
    );
}

#[test]
fn sources_of_a_plan_are_listed_in_order() {
    let plan = Box::new(Expression::Union(
        select(load("a"), Condition::True),
        Box::new(Expression::JoinProjectRename(
            load("b"),
            Box::new(Expression::ReadSelectProjectRename(
                String::from("c"),
                Box::new(Condition::True),
                Vec::new(),
                Vec::new(),
            )),
            Box::new(Condition::True),
            Vec::new(),
            Vec::new(),
        )),
    ));
    assert_eq!(sources(&plan), names(&["a", "b", "c"]));
}

#[test]
fn plans_are_equal_up_to_projection_order_and_discovered_columns() {
    assert_eq!(*project(load("a"), &["x", "y"]), *project(found("a", &["x"]), &["y", "x"]));
    assert_ne!(*project(load("a"), &["x", "y"]), *project(load("a"), &["x", "x"]));
    assert_ne!(*project(load("a"), &["x", "y", "y"]), *project(load("a"), &["x", "x", "y"]));
    assert_ne!(*rename(load("a"), &["x", "y"], &["u", "v"]), *rename(load("a"), &["y", "x"], &["v", "u"]));
    assert_ne!(*load("a"), *load("b"));
    assert_ne!(*load("a"), *select(load("a"), Condition::True));
}
