use wooridb::ast::{AlgebraFunctions, Clause, Function, ToSelect, Value, Wql};
use wooridb::select::where_selector_exec;
use wooridb::types::Types;

fn where_selector(name: &str, arg: ToSelect, text: &str) -> Result<Wql, String> {
    let chars: Vec<char> = text.chars().collect();
    let name: Vec<char> = name.chars().collect();
    where_selector_exec(&chars, 0, &name, arg)
}

fn none() -> AlgebraFunctions {
    AlgebraFunctions::none()
}

#[test]
fn test_error_open() {
    let wql = where_selector("hello", ToSelect::All, " [");

    assert_eq!(
        wql.err(),
        Some(String::from("WHERE clauses must be contained inside ` {...}`"))
    );
}

#[test]
fn simple_equality() {
    let wql = where_selector(
        "my_entity",
        ToSelect::All,
        " {
            ?* my_entity:name \"julia\",
            ?* my_entity:id 349875325,
        }",
    );

    assert_eq!(
        wql.unwrap(),
        Wql::SelectWhere(
            "my_entity".to_string(),
            ToSelect::All,
            vec![
                Clause::ContainsKeyValue(
                    "my_entity".to_string(),
                    "name".to_string(),
                    Types::String("julia".to_string())
                ),
                Clause::ContainsKeyValue(
                    "my_entity".to_string(),
                    "id".to_string(),
                    Types::Integer(349875325)
                ),
            ],
            none()
        )
    )
}

#[test]
fn simple_comparison() {
    let wql = where_selector(
        "my_entity",
        ToSelect::All,
        " {
            ?* my_entity:age ?age,
            (>= ?age 30),
            (> ?age 30),
            (== ?age 30),
            (<= ?age 30),
            (< ?age 30),
            (like ?name \"%uli%\"),
        }",
    );

    assert_eq!(
        wql.unwrap(),
        Wql::SelectWhere(
            "my_entity".to_string(),
            ToSelect::All,
            vec![
                Clause::ValueAttribution(
                    "my_entity".to_string(),
                    "age".to_string(),
                    Value("?age".to_string())
                ),
                Clause::SimpleComparisonFunction(Function::GEq, "?age".to_string(), Types::Integer(30)),
                Clause::SimpleComparisonFunction(Function::G, "?age".to_string(), Types::Integer(30)),
                Clause::SimpleComparisonFunction(Function::Eq, "?age".to_string(), Types::Integer(30)),
                Clause::SimpleComparisonFunction(Function::LEq, "?age".to_string(), Types::Integer(30)),
                Clause::SimpleComparisonFunction(Function::L, "?age".to_string(), Types::Integer(30)),
                Clause::SimpleComparisonFunction(
                    Function::Like,
                    "?name".to_string(),
                    Types::String("%uli%".to_string())
                ),
            ],
            none()
        )
    )
}

#[test]
fn complex_comp_func() {
    let wql = where_selector(
        "my_entity",
        ToSelect::All,
        " {
            (in ?id 32434 45345 345346436),
            (between ?age 30 35),
        }",
    );

    assert_eq!(
        wql.unwrap(),
        Wql::SelectWhere(
            "my_entity".to_string(),
            ToSelect::All,
            vec![
                Clause::ComplexComparisonFunctions(
                    Function::In,
                    "?id".to_string(),
                    vec![
                        Types::Integer(32434),
                        Types::Integer(45345),
                        Types::Integer(345346436),
                    ]
                ),
                Clause::ComplexComparisonFunctions(
                    Function::Between,
                    "?age".to_string(),
                    vec![Types::Integer(30), Types::Integer(35)]
                )
            ],
            none()
        )
    )
}

#[test]
fn between_err() {
    let wql = where_selector(
        "my_entity",
        ToSelect::All,
        " {
            (between ?id 32434),
            (between ?age 30 35 34),
        }",
    );

    assert_eq!(
        wql.unwrap(),
        Wql::SelectWhere(
            "my_entity".to_string(),
            ToSelect::All,
            vec![Clause::Error, Clause::Error,],
            none()
        )
    )
}

#[test]
fn or() {
    let wql = where_selector(
        "my_entity",
        ToSelect::All,
        " {
            ?* my_entity:age ?age,
            ?* my_entity:name ?name,
            (or 
                (>= ?age 30)
                (like ?name \"%uli%\")
            ),
        }",
    );

    assert_eq!(
        wql.unwrap(),
        Wql::SelectWhere(
            "my_entity".to_string(),
            ToSelect::All,
            vec![
                Clause::ValueAttribution(
                    "my_entity".to_string(),
                    "age".to_string(),
                    Value("?age".to_string())
                ),
                Clause::ValueAttribution(
                    "my_entity".to_string(),
                    "name".to_string(),
                    Value("?name".to_string())
                ),
                Clause::Or(
                    Function::Or,
                    vec![
                        Clause::SimpleComparisonFunction(
                            Function::GEq,
                            "?age".to_string(),
                            Types::Integer(30)
                        ),
                        Clause::SimpleComparisonFunction(
                            Function::Like,
                            "?name".to_string(),
                            Types::String("%uli%".to_string())
                        ),
                    ]
                ),
            ],
            none()
        )
    )
}
