use relalg::optimize::ApplyProjectionsEarlyOptimizer;
use relalg::optimize::ChainOptimizer;
use relalg::optimize::DetectLoadColumnsOptimizer;
use relalg::optimize::FoldComplexExpressionsOptimizer;
use relalg::optimize::Optimizer;
use relalg::optimize::PushDownSelectionsOptimizer;
use relalg::parser::ConditionParse;
use relalg::parser::ExpressionParse;
use relalg::source::read_table;
use relalg::table::Catalog;
use relalg::types::Expression;

const PROJETS: &str = "titre,idp,responsable\nApollo,1,12\nGemini,2,5\nMercury,3,12\n";

const DEPARTEMENTS: &str = "idd,nomd\n1,Recherche\n2,Ventes\n";

fn samples() -> Catalog {
    let mut catalog = Catalog::new();
    catalog.insert(
        String::from("project_spec/samples/projets.csv"),
        read_table(PROJETS.as_bytes()).unwrap(),
    );
    catalog.insert(
        String::from("project_spec/samples/departements.csv"),
        read_table(DEPARTEMENTS.as_bytes()).unwrap(),
    );
    catalog
}

fn load(filename: &str) -> Box<ExpressionParse> {
    Box::new(ExpressionParse::Read { filename: String::from(filename) })
}

fn comparison(comparator: &str, attribute1: &str, attribute2: &str) -> Box<ConditionParse> {
    Box::new(ConditionParse::Comp {
        comparator: String::from(comparator),
        attribute1: String::from(attribute1),
        attribute2: String::from(attribute2),
    })
}

fn names(list: &[&str]) -> Vec<String> {
    list.iter().map(|s| String::from(*s)).collect()
}

#[test]
fn test_apply_projections_early() {
    let expression = Box::new(
        Expression::from(ExpressionParse::Project {
            attributes: names(&["truc", "responsable"]),
            object: Box::new(ExpressionParse::Rename {
                old_attributes: names(&["idp"]),
                new_attributes: names(&["truc"]),
                object: load("project_spec/samples/projets.csv"),
            }),
        })
        .unwrap(),
    );

    // optimize this expression
    let optimizer = ChainOptimizer {
        optimizers: vec![
            Box::new(DetectLoadColumnsOptimizer {}),
            Box::new(ApplyProjectionsEarlyOptimizer {}),
        ],
    };
    let expression = optimizer.optimize(expression, &samples()).unwrap();

    let expected = Expression::from(ExpressionParse::Rename {
        old_attributes: names(&["idp"]),
        new_attributes: names(&["truc"]),
        object: Box::new(ExpressionParse::Project {
            attributes: names(&["idp", "responsable"]),
            object: load("project_spec/samples/projets.csv"),
        }),
    })
    .unwrap();

    assert_eq!(*expression, expected);
}

#[test]
fn test_push_down_selections() {
    let expression = Box::new(
        Expression::from(ExpressionParse::Select {
            condition: comparison("<", "truc", "truc"),
            object: Box::new(ExpressionParse::Rename {
                old_attributes: names(&["idp"]),
                new_attributes: names(&["truc"]),
                object: load("project_spec/samples/projets.csv"),
            }),
        })
        .unwrap(),
    );

    // optimize this expression
    let optimizer = ChainOptimizer {
        optimizers: vec![
            Box::new(DetectLoadColumnsOptimizer {}),
            Box::new(PushDownSelectionsOptimizer {}),
        ],
    };
    let expression = optimizer.optimize(expression, &samples()).unwrap();

    let expected = Expression::from(ExpressionParse::Rename {
        old_attributes: names(&["idp"]),
        new_attributes: names(&["truc"]),
        object: Box::new(ExpressionParse::Select {
            condition: comparison("<", "idp", "idp"),
            object: load("project_spec/samples/projets.csv"),
        }),
    })
    .unwrap();

    assert_eq!(*expression, expected);
}

#[test]
fn test_push_down_selections_with_products() {
    let expression = Box::new(
        Expression::from(ExpressionParse::Select {
            condition: comparison("=", "idp", "idp"),
            object: Box::new(ExpressionParse::Product {
                object1: load("project_spec/samples/projets.csv"),
                object2: load("project_spec/samples/departements.csv"),
            }),
        })
        .unwrap(),
    );

    // optimize this expression
    let optimizer = ChainOptimizer {
        optimizers: vec![
            Box::new(DetectLoadColumnsOptimizer {}),
            Box::new(PushDownSelectionsOptimizer {}),
        ],
    };
    let expression = optimizer.optimize(expression, &samples()).unwrap();

    let expected = Expression::from(ExpressionParse::Product {
        object2: load("project_spec/samples/departements.csv"),
        object1: Box::new(ExpressionParse::Select {
            condition: comparison("=", "idp", "idp"),
            object: load("project_spec/samples/projets.csv"),
        }),
    })
    .unwrap();

    assert_eq!(*expression, expected);
}

#[test]
fn test_read_select_project_rename_fold() {
    let expression = Box::new(
        Expression::from(ExpressionParse::Select {
            condition: comparison("=", "idp", "idp"),
            object: load("project_spec/samples/projets.csv"),
        })
        .unwrap(),
    );

    // optimize this expression
    let optimizer = ChainOptimizer {
        optimizers: vec![
            Box::new(DetectLoadColumnsOptimizer {}),
            Box::new(FoldComplexExpressionsOptimizer {}),
        ],
    };
    let expression = optimizer.optimize(expression, &samples()).unwrap();

    let expected = Expression::from(ExpressionParse::ReadSelectProjectRename {
        filename: String::from("project_spec/samples/projets.csv"),
        condition: comparison("=", "idp", "idp"),
        old_attributes: names(&["titre", "idp", "responsable"]),
        new_attributes: names(&["titre", "idp", "responsable"]),
    })
    .unwrap();

    assert_eq!(*expression, expected);
}
