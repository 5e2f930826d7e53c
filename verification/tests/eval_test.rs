use relalg::eval::eval;
use relalg::source::read_table;
use relalg::table::Catalog;
use relalg::types::Expression;

const PROJETS: &str = "titre,idp,responsable\nApollo,1,12\nGemini,2,5\nMercury,3,12\n";

#[test]
fn test_load() {
    let mut catalog = Catalog::new();
    catalog.insert(
        String::from("project_spec/samples/projets.csv"),
        read_table(PROJETS.as_bytes()).unwrap(),
    );

    let table = eval(
        Box::new(Expression::Load(String::from("project_spec/samples/projets.csv"), None)),
        &catalog,
    )
    .unwrap();
    let entries = table.entries();

    let mut columns = table.schema().keys();
    columns.sort();

    assert_eq!(columns, vec!["idp", "responsable", "titre"]);
    assert_eq!(entries[0].len(), 3);
}
