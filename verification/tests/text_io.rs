use relalg::error::Error;
use relalg::output::get_string_for_value;
use relalg::output::table_records;
use relalg::output::write_table;
use relalg::parser::ConditionParse;
use relalg::parser::ExpressionParse;
use relalg::source::read_table;
use relalg::source::table_from_records;
use relalg::table::Table;
use relalg::text::attribute_value;
use relalg::text::cell_value;
use relalg::text::typed_attribute;
use relalg::text::typed_cell;
use relalg::types::Condition;
use relalg::types::Expression;
use relalg::types::Value;

fn names(list: &[&str]) -> Vec<String> {
    list.iter().map(|s| String::from(*s)).collect()
}

fn num(i: i64) -> Value {
    Value::Int(i)
}

fn text(s: &str) -> Value {
    Value::Str(String::from(s))
}

fn column(s: &str) -> Value {
    Value::Column(String::from(s))
}

fn comparison(comparator: &str, attribute1: &str, attribute2: &str) -> ConditionParse {
    ConditionParse::Comp {
        comparator: String::from(comparator),
        attribute1: String::from(attribute1),
        attribute2: String::from(attribute2),
    }
}

#[test]
fn a_cell_is_an_integer_where_its_text_is_a_literal_of_one() {
    assert_eq!(cell_value(String::from("42")), num(42));
    assert_eq!(cell_value(String::from("-7")), num(-7));
    assert_eq!(cell_value(String::from("+5")), num(5));
    assert_eq!(cell_value(String::from("007")), num(7));
    assert_eq!(cell_value(String::from("9223372036854775807")), num(i64::MAX));
    assert_eq!(cell_value(String::from("-9223372036854775808")), num(i64::MIN));
    assert_eq!(cell_value(String::from("9223372036854775808")), text("9223372036854775808"));
    assert_eq!(cell_value(String::from("4x")), text("4x"));
    assert_eq!(cell_value(String::from(" 4")), text(" 4"));
    assert_eq!(cell_value(String::from("")), text(""));
    assert_eq!(cell_value(String::from("1.5")), text("1.5"));
    assert_eq!(cell_value(String::from("-")), text("-"));
    assert_eq!(cell_value(String::from("+")), text("+"));
    assert_eq!(cell_value(String::from("--5")), text("--5"));
    assert_eq!(cell_value(String::from("+-5")), text("+-5"));
    assert_eq!(cell_value(String::from("5-")), text("5-"));
    assert_eq!(cell_value(String::from("1_000")), text("1_000"));
    assert_eq!(cell_value(String::from("-0")), num(0));
    assert_eq!(cell_value(String::from("-9223372036854775809")), text("-9223372036854775809"));
    assert_eq!(cell_value(String::from("\u{664}")), text("\u{664}"));
}

#[test]
fn what_is_written_as_an_integer_is_read_as_that_integer() {
    for i in [0, 1, -1, 9, 10, -10, 12345, i64::MAX, i64::MIN] {
        assert_eq!(cell_value(get_string_for_value(num(i))), num(i));
    }
}

#[test]
fn an_operand_is_an_integer_or_a_column() {
    assert_eq!(attribute_value(String::from("12")), num(12));
    assert_eq!(attribute_value(String::from("idp")), column("idp"));
}

#[test]
fn typing_follows_the_parse_result() {
    assert_eq!(typed_cell(String::from("x"), Some(3)), num(3));
    assert_eq!(typed_cell(String::from("x"), None), text("x"));
    assert_eq!(typed_attribute(String::from("x"), Some(3)), num(3));
    assert_eq!(typed_attribute(String::from("x"), None), column("x"));
}

#[test]
fn the_text_of_a_cell_is_decimal_or_verbatim() {
    assert_eq!(get_string_for_value(num(-12)), "-12");
    assert_eq!(get_string_for_value(num(0)), "0");
    assert_eq!(get_string_for_value(num(i64::MIN)), "-9223372036854775808");
    assert_eq!(get_string_for_value(text("a b")), "a b");
}

#[test]
fn a_relation_is_read_from_delimited_text() {
    let t = read_table(b"id,name\n1,Ann\n02,\"B,o\"\nx,3\n").unwrap();
    assert_eq!(t.schema().keys(), names(&["id", "name"]));
    assert_eq!(
        *t.entries(),
        vec![vec![num(1), text("Ann")], vec![num(2), text("B,o")], vec![text("x"), num(3)]]
    );
}

#[test]
fn a_header_alone_is_a_relation_without_rows() {
    let t = read_table(b"id,name\n").unwrap();
    assert_eq!(t.schema().keys(), names(&["id", "name"]));
    assert_eq!(t.entries().len(), 0);
}

#[test]
fn an_empty_text_is_a_relation_without_columns() {
    let t = read_table(b"").unwrap();
    assert_eq!(t.schema().len(), 0);
    assert_eq!(t.entries().len(), 0);
}

#[test]
fn a_ragged_text_is_unreadable() {
    assert_eq!(read_table(b"a,b\n1\n").err(), Some(Error::SourceAccess));
}

#[test]
fn a_text_that_is_not_utf8_is_unreadable() {
    assert_eq!(read_table(b"a,b\n1,\xff\n").err(), Some(Error::SourceAccess));
}

#[test]
fn a_repeated_column_name_is_a_schema_error() {
    assert_eq!(read_table(b"a,a\n1,2\n").err(), Some(Error::Schema));
}

#[test]
fn records_become_a_table() {
    let t = table_from_records(vec![names(&["a", "b"]), names(&["1", "x"])]).unwrap();
    assert_eq!(t.schema().keys(), names(&["a", "b"]));
    assert_eq!(*t.entries(), vec![vec![num(1), text("x")]]);
    assert_eq!(table_from_records(Vec::new()).unwrap().schema().len(), 0);
    assert_eq!(
        table_from_records(vec![names(&["a", "b"]), names(&["1"])]).err(),
        Some(Error::SourceAccess)
    );
    assert_eq!(
        table_from_records(vec![names(&["a", "a"]), names(&["1"])]).err(),
        Some(Error::Schema)
    );
}

#[test]
fn a_table_is_written_header_first() {
    let t = Table::new(
        names(&["id", "name"]),
        vec![vec![num(-1), text("Ann")], vec![num(2), text("B,o")]],
    )
    .unwrap();
    assert_eq!(
        table_records(&t),
        vec![names(&["id", "name"]), names(&["-1", "Ann"]), names(&["2", "B,o"])]
    );
    assert_eq!(write_table(&t), Some(b"id,name\n-1,Ann\n2,\"B,o\"\n".to_vec()));
}

#[test]
fn what_is_written_can_be_read_again() {
    let t = Table::new(
        names(&["k", "v"]),
        vec![vec![num(1), text("x y")], vec![num(2), text("")]],
    )
    .unwrap();
    let written = write_table(&t).unwrap();
    let again = read_table(&written).unwrap();
    assert_eq!(again.schema().keys(), t.schema().keys());
    assert_eq!(*again.entries(), *t.entries());
}

#[test]
fn parsed_conditions_become_conditions() {
    let parsed = ConditionParse::Log2 {
        logical: String::from("and"),
        condition1: Box::new(ConditionParse::Log1 {
            logical: String::from("not"),
            condition: Box::new(comparison("=", "a", "12")),
        }),
        condition2: Box::new(ConditionParse::Log2 {
            logical: String::from("or"),
            condition1: Box::new(comparison("<", "-3", "b")),
            condition2: Box::new(comparison(">", "a", "b")),
        }),
    };
    let expected = Condition::And(
        Box::new(Condition::Not(Box::new(Condition::Equal(column("a"), num(12))))),
        Box::new(Condition::Or(
            Box::new(Condition::Less(num(-3), column("b"))),
            Box::new(Condition::More(column("a"), column("b"))),
        )),
    );
    assert_eq!(Condition::from(parsed), Ok(expected));
    assert_eq!(Condition::from(ConditionParse::True), Ok(Condition::True));
    assert_eq!(Condition::from(ConditionParse::False), Ok(Condition::False));
}

#[test]
fn unknown_operators_are_refused() {
    assert_eq!(Condition::from(comparison("<=", "a", "b")), Err(Error::UnsupportedOperator));
    assert_eq!(
        Condition::from(ConditionParse::Log1 {
            logical: String::from("nor"),
            condition: Box::new(ConditionParse::True),
        }),
        Err(Error::UnsupportedOperator)
    );
    assert_eq!(
        Condition::from(ConditionParse::Log2 {
            logical: String::from("xor"),
            condition1: Box::new(ConditionParse::True),
            condition2: Box::new(ConditionParse::True),
        }),
        Err(Error::UnsupportedOperator)
    );
    let plan = ExpressionParse::Select {
        object: Box::new(ExpressionParse::Read { filename: String::from("f") }),
        condition: Box::new(comparison("!", "a", "b")),
    };
    assert_eq!(Expression::from(plan).err(), Some(Error::UnsupportedOperator));
}

#[test]
fn parsed_plans_become_plans() {
    let read = || Box::new(ExpressionParse::Read { filename: String::from("f") });
    let load = || Box::new(Expression::Load(String::from("f"), None));
    let parsed = ExpressionParse::Except {
        object1: Box::new(ExpressionParse::Union { object1: read(), object2: read() }),
        object2: Box::new(ExpressionParse::JoinProjectRename {
            object1: read(),
            object2: Box::new(ExpressionParse::ReadSelectProjectRename {
                filename: String::from("g"),
                condition: Box::new(ConditionParse::True),
                old_attributes: names(&["a"]),
                new_attributes: names(&["b"]),
            }),
            condition: Box::new(comparison("=", "a", "b")),
            old_attributes: names(&["a"]),
            new_attributes: names(&["c"]),
        }),
    };
    let expected = Expression::Except(
        Box::new(Expression::Union(load(), load())),
        Box::new(Expression::JoinProjectRename(
            load(),
            Box::new(Expression::ReadSelectProjectRename(
                String::from("g"),
                Box::new(Condition::True),
                names(&["a"]),
                names(&["b"]),
            )),
            Box::new(Condition::Equal(column("a"), column("b"))),
            names(&["a"]),
            names(&["c"]),
        )),
    );
    assert_eq!(Expression::from(parsed), Ok(expected));
}
