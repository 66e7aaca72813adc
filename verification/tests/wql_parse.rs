use std::str::FromStr;
use wooridb::ast::{AlgebraFunctions, Clause, Function, MatchCondition, Order, Relation, RelationType, TextMap, ToSelect, Value, Wql};
use wooridb::types::{Entity, Types};

fn id(s: &str) -> u128 {
    uuid::Uuid::parse_str(s).unwrap().as_u128()
}

fn entity(pairs: Vec<(&str, Types)>) -> Entity {
    let mut keys = Vec::new();
    let mut values = Vec::new();
    for (k, v) in pairs {
        keys.push(k.to_string());
        values.push(v);
    }
    Entity { keys, values }
}

fn float(s: &str) -> Types {
    Types::Float(s.to_string(), None)
}

fn none() -> AlgebraFunctions {
    AlgebraFunctions { dedup: None, group_by: None, order_by: None, limit: None, offset: None, count: false }
}

fn strings(v: &[&str]) -> Vec<String> {
    v.iter().map(|s| s.to_string()).collect()
}

#[test]
fn empty_wql() {
    let wql = Wql::from_str("");
    assert_eq!(wql.err(), Some(String::from("Empty WQL")));
}

#[test]
fn create_shit() {
    let wql = Wql::from_str("CREATE SHIT oh_yeah");
    assert_eq!(wql.err(), Some(String::from("Keyword ENTITY is required for CREATE")));
}

#[test]
fn create_mispelled() {
    let wql = Wql::from_str("KREATE ENTITY mispelled");
    assert_eq!(wql.err(), Some(String::from("Symbol `KREATE` not implemented")));
}

#[test]
fn create_entity() {
    let wql = Wql::from_str("CREATE ENTITY entity");
    assert_eq!(wql.unwrap(), Wql::CreateEntity(String::from("entity"), Vec::new(), Vec::new()));
}

#[test]
fn create_entity_with_uniques() {
    let wql = Wql::from_str("CREATE ENTITY entity UNIQUES #{name, ssn,something,}");
    assert_eq!(
        wql.unwrap(),
        Wql::CreateEntity(String::from("entity"), strings(&["name", "ssn", "something"]), Vec::new())
    );
}

#[test]
fn create_entity_with_encrypt() {
    let wql = Wql::from_str("CREATE ENTITY entity ENCRYPT #{name, ssn,something,}");
    assert_eq!(
        wql.unwrap(),
        Wql::CreateEntity(String::from("entity"), Vec::new(), strings(&["name", "ssn", "something"]))
    );
}

#[test]
fn create_entity_with_encrypt_and_uniques() {
    let wql = Wql::from_str("CREATE ENTITY entity ENCRYPT #{password,something,} UNIQUES #{name, ssn,}");
    assert_eq!(
        wql.unwrap(),
        Wql::CreateEntity(String::from("entity"), strings(&["name", "ssn"]), strings(&["password", "something"]))
    );
}

#[test]
fn create_uniques_in_encrypt() {
    let wql = Wql::from_str("CREATE ENTITY entity ENCRYPT #{password,something,} UNIQUES #{name, something,}");
    assert_eq!(wql.err(), Some(String::from("Encrypted arguments cannot be set to UNIQUE")));
}

#[test]
fn create_encrypts_in_uniques() {
    let wql = Wql::from_str("CREATE ENTITY entity UNIQUES #{name, something,} ENCRYPT #{password,something,}");
    assert_eq!(wql.err(), Some(String::from("Encrypted arguments cannot be set to UNIQUE")));
}

#[test]
fn create_entity_with_uniques_and_encrypt() {
    let wql = Wql::from_str("CREATE ENTITY entity UNIQUES #{name, ssn,} ENCRYPT #{password,something,}");
    assert_eq!(
        wql.unwrap(),
        Wql::CreateEntity(String::from("entity"), strings(&["name", "ssn"]), strings(&["password", "something"]))
    );
}

#[test]
fn delete_id() {
    let wql = Wql::from_str("DELETE this-is-an-uuid FROM my_entity");
    assert_eq!(wql.unwrap(), Wql::Delete("my_entity".to_string(), "this-is-an-uuid".to_string()))
}

#[test]
fn delete_missing_id() {
    let wql = Wql::from_str("DELETE FROM my_entity");
    assert_eq!(wql.err(), Some(String::from("Entity UUID is required for DELETE")));
}

#[test]
fn delete_missing_keyword_from() {
    let wql = Wql::from_str("DELETE this-is-an-uuid my_entity");
    assert_eq!(wql.err(), Some(String::from("Keyword FROM is required for DELETE")));
}

#[test]
fn delete_missing_entity() {
    let wql = Wql::from_str("DELETE this-is-an-uuid FROM");
    assert_eq!(wql.err(), Some(String::from("Entity name is required after FROM")));
}

fn insert_hashmap() -> Entity {
    entity(vec![
        ("a", Types::Integer(123)),
        ("b", float("12.3")),
        ("c", Types::Char('d')),
        ("d", Types::Boolean(true)),
        ("e", Types::Boolean(false)),
        ("f", Types::String("hello".to_string())),
        ("g", Types::Nil),
    ])
}

#[test]
fn insert_entity() {
    let wql = Wql::from_str(
        "INSERT {
            a: 123,
            b: 12.3,
            c: 'd' ,
            d: true ,
            e: false,
            f: \"hello\",
            g: NiL
        } INTO my_entity",
    );
    assert_eq!(wql.unwrap(), Wql::Insert("my_entity".to_string(), insert_hashmap(), None));
}

#[test]
fn insert_precise() {
    let wql = Wql::from_str(
        "INSERT {
            a: 98347883122138743294728345738925783257325789353593473247832493483478935673.9347324783249348347893567393473247832493483478935673P,
        } INTO my_entity",
    );
    let hm = entity(vec![("a", Types::Precise("98347883122138743294728345738925783257325789353593473247832493483478935673.9347324783249348347893567393473247832493483478935673".to_string()))]);
    assert_eq!(wql.unwrap(), Wql::Insert("my_entity".to_string(), hm, None));
}

#[test]
fn insert_missing_into() {
    let wql = Wql::from_str(
        "INSERT {
            a: 123,
        } INTRO my_entity",
    );
    assert_eq!(wql.err(), Some(String::from("Keyword INTO is required for INSERT")));
}

#[test]
fn insert_missing_entity_name() {
    let wql = Wql::from_str(
        "INSERT {
            a: 123,
        } INTO ",
    );
    assert_eq!(wql.err(), Some(String::from("Entity name is required after INTO")));
}

fn update_hashmap() -> Entity {
    entity(vec![("a", Types::Integer(123)), ("g", Types::Nil)])
}

#[test]
fn update_set_entity() {
    let wql = Wql::from_str(
        "UPDATE this_entity 
        SET {
            a: 123,
            g: NiL
        } 
        INTO d6ca73c0-41ff-4975-8a60-fc4a061ce536",
    );
    assert_eq!(
        wql.unwrap(),
        Wql::UpdateSet("this_entity".to_string(), update_hashmap(), id("d6ca73c0-41ff-4975-8a60-fc4a061ce536"))
    );
}

#[test]
fn update_content_entity() {
    let wql = Wql::from_str(
        "UPDATE this_entity 
        Content {
            a: 123,
            g: NiL
        } 
        INTO d6ca73c0-41ff-4975-8a60-fc4a061ce536",
    );
    assert_eq!(
        wql.unwrap(),
        Wql::UpdateContent("this_entity".to_string(), update_hashmap(), id("d6ca73c0-41ff-4975-8a60-fc4a061ce536"))
    );
}

#[test]
fn update_set_missing_entity() {
    let wql = Wql::from_str(
        "UPDATE 
        SET {
            a: 123,
            g: NiL
        } 
        INTO d6ca73c0-41ff-4975-8a60-fc4a061ce536",
    );
    assert_eq!(wql.err(), Some(String::from("Entity name is required for UPDATE")));
}

#[test]
fn update_entity_mispelled_action() {
    let wql = Wql::from_str(
        "UPDATE this_entity 
        TO {
            a: 123,
            g: NiL
        } 
        INTO d6ca73c0-41ff-4975-8a60-fc4a061ce536",
    );
    assert_eq!(
        wql.err(),
        Some(String::from("UPDATE type is required after entity. Keywords are SET or CONTENT"))
    );
}

#[test]
fn update_entity_missing_into() {
    let wql = Wql::from_str(
        "UPDATE this_entity 
        SET {
            a: 123,
            g: NiL
        } 
        to d6ca73c0-41ff-4975-8a60-fc4a061ce536",
    );
    assert_eq!(wql.err(), Some(String::from("Keyword INTO is required for UPDATE")));
}

#[test]
fn update_entity_missing_uuid() {
    let wql = Wql::from_str(
        "UPDATE this_entity 
        SET {
            a: 123,
            g: NiL
        } 
        into Some-crazy-id",
    );
    assert!(wql.err().unwrap().starts_with("Couldn\'t create uuid from Some-crazy-id"));
}

#[test]
fn test_read_match_args() {
    let args: Vec<char> = "(a == 1, b != 2, c > 3, d >= 4, e < 5, f <= 6)".chars().collect();
    let (actual, _) = wooridb::statements::read_match_args_exec(&args, 0).unwrap();
    let expected = vec![
        MatchCondition::Eq("a".to_string(), Types::Integer(1)),
        MatchCondition::NotEq("b".to_string(), Types::Integer(2)),
        MatchCondition::G("c".to_string(), Types::Integer(3)),
        MatchCondition::GEq("d".to_string(), Types::Integer(4)),
        MatchCondition::L("e".to_string(), Types::Integer(5)),
        MatchCondition::LEq("f".to_string(), Types::Integer(6)),
    ];
    assert_eq!(actual, expected);
}

#[test]
fn match_update_set_entity() {
    let wql = Wql::from_str(
        " MATCH ALL(a == 1, b >= 3, c != \"hello\", d < 7,)
        UPDATE this_entity 
        SET {
            a: 123,
            g: NiL
        } 
        INTO d6ca73c0-41ff-4975-8a60-fc4a061ce536",
    );
    assert_eq!(
        wql.unwrap(),
        Wql::MatchUpdate(
            "this_entity".to_string(),
            update_hashmap(),
            id("d6ca73c0-41ff-4975-8a60-fc4a061ce536"),
            MatchCondition::All(vec![
                MatchCondition::Eq("a".to_string(), Types::Integer(1)),
                MatchCondition::GEq("b".to_string(), Types::Integer(3)),
                MatchCondition::NotEq("c".to_string(), Types::String("hello".to_string())),
                MatchCondition::L("d".to_string(), Types::Integer(7)),
            ])
        )
    );
}

#[test]
fn match_update_missing_logical_arg() {
    let wql = Wql::from_str(
        " MATCH (a == 1, b >= 3, c != \"hello\", d < 7)
        UPDATE this_entity 
        SET {
            a: 123,
            g: NiL
        } 
        INTO d6ca73c0-41ff-4975-8a60-fc4a061ce536",
    );
    assert_eq!(wql.err().unwrap(), String::from("MATCH requires ALL or ANY symbols"));
}

#[test]
fn match_update_missing_update_key() {
    let wql = Wql::from_str(
        " MATCH Any(a == 1, b >= 3, c != \"hello\", d < 7)
        this_entity 
        SET {
            a: 123,
            g: NiL
        } 
        INTO d6ca73c0-41ff-4975-8a60-fc4a061ce536",
    );
    assert_eq!(wql.err().unwrap(), String::from("UPDATE keyword is required for MATCH UPDATE"));
}

#[test]
fn match_update_missing_entity_name() {
    let wql = Wql::from_str(
        " MATCH All(a == 1, b >= 3, c != \"hello\", d < 7)
        UPDATE 
        SET {
            a: 123,
            g: NiL
        } 
        INTO d6ca73c0-41ff-4975-8a60-fc4a061ce536",
    );
    assert_eq!(wql.err().unwrap(), String::from("Entity name is required for MATCH UPDATE"));
}

#[test]
fn match_update_missing_set() {
    let wql = Wql::from_str(
        " MATCH All(a == 1, b >= 3, c != \"hello\", d < 7)
        UPDATE this_entity 
        {
            a: 123,
            g: NiL
        } 
        INTO d6ca73c0-41ff-4975-8a60-fc4a061ce536",
    );
    assert_eq!(
        wql.err().unwrap(),
        String::from("MATCH UPDATE type is required after entity. Keyword is SET")
    );
}

#[test]
fn match_update_missing_content() {
    let wql = Wql::from_str(
        " MATCH All(a == 1, b >= 3, c != \"hello\", d < 7)
        UPDATE this_entity 
        SET 
        INTO d6ca73c0-41ff-4975-8a60-fc4a061ce536",
    );
    assert_eq!(
        wql.err().unwrap(),
        String::from("Entity map should start with `{` and end with `}`")
    );
}

#[test]
fn match_update_missing_into() {
    let wql = Wql::from_str(
        " MATCH All(a == 1, b >= 3, c != \"hello\", d < 7)
        UPDATE this_entity 
        SET {
            a: 123,
            g: NiL
        } 
        d6ca73c0-41ff-4975-8a60-fc4a061ce536",
    );
    assert_eq!(wql.err().unwrap(), String::from("Keyword INTO is required for MATCH UPDATE"));
}

#[test]
fn match_update_missing_id() {
    let wql = Wql::from_str(
        " MATCH All(a == 1, b >= 3, c != \"hello\", d < 7)
        UPDATE this_entity 
        SET {
            a: 123,
            g: NiL
        } 
        INTO",
    );
    assert!(wql.err().unwrap().starts_with("Couldn\'t create uuid from "));
}

#[test]
fn evict_entity() {
    let wql = Wql::from_str("EVICT my_entity");
    assert_eq!(wql.unwrap(), Wql::Evict(String::from("my_entity"), None));
}

#[test]
fn evict_entity_with_dash() {
    let wql = Wql::from_str("EVICT my-entity");
    assert_eq!(wql.err(), Some(String::from("Entity name cannot contain `-`")));
}

#[test]
fn evict_entity_from_id() {
    let wql = Wql::from_str("EVICT d6ca73c0-41ff-4975-8a60-fc4a061ce536 FROM my_entity");
    assert_eq!(
        wql.unwrap(),
        Wql::Evict(String::from("my_entity"), Some(id("d6ca73c0-41ff-4975-8a60-fc4a061ce536")))
    );
}

#[test]
fn evict_entity_without_from() {
    let wql = Wql::from_str("EVICT d6ca73c0-41ff-4975-8a60-fc4a061ce536 my_entity");
    assert_eq!(wql.err(), Some(String::from("Keyword FROM is required to EVICT an UUID")));
}

#[test]
fn evict_entity_without_entity_name() {
    let wql = Wql::from_str("EVICT d6ca73c0-41ff-4975-8a60-fc4a061ce536 FROM");
    assert_eq!(wql.err(), Some(String::from("Entity name is required for EVICT")));
}

fn vec_hashmap() -> Entity {
    entity(vec![
        ("a", Types::Integer(123)),
        ("b", Types::Vector(vec![float("12.3"), Types::Integer(34), Types::String("hello".to_string())])),
    ])
}

#[test]
fn insert_vec() {
    let wql = Wql::from_str(
        "INSERT {
            a: 123,
            b: [12.3, 34, \"hello\",]
        } INTO my_entity",
    );
    assert_eq!(wql.unwrap(), Wql::Insert("my_entity".to_string(), vec_hashmap(), None));
}

#[test]
fn insert_time() {
    let wql = Wql::from_str(
        "INSERT {
            time: 2014-11-28T12:00:09Z,
        } INTO my_entity",
    );
    let d = "2014-11-28T12:00:09Z".parse::<chrono::DateTime<chrono::Utc>>().unwrap();
    let hm = entity(vec![("time", Types::DateTime(d.timestamp(), d.timestamp_subsec_nanos()))]);
    assert_eq!(wql.unwrap(), Wql::Insert("my_entity".to_string(), hm, None));
}

#[test]
fn insert_vec_in_vec() {
    let wql = Wql::from_str(
        "INSERT {
            a: 123,
            b: [12.3, 34, [\"hello\"]]
        } INTO my_entity",
    );
    let hm = entity(vec![
        ("a", Types::Integer(123)),
        (
            "b",
            Types::Vector(vec![
                float("12.3"),
                Types::Integer(34),
                Types::Vector(vec![Types::String("hello".to_string())]),
            ]),
        ),
    ]);
    assert_eq!(wql.unwrap(), Wql::Insert("my_entity".to_string(), hm, None));
}

#[test]
fn insert_vec_err() {
    let wql = Wql::from_str(
        "INSERT {
            a: 123,
            b: [12.3, 34, \"hello\", nkjsld,]
        } INTO my_entity",
    );
    assert_eq!(wql.err(), Some(String::from("Value Type could not be created from nkjsld")));
}

#[test]
fn insert_with_err() {
    let wql = Wql::from_str(
        "INSERT {
            a: 123,
            b: [12.3, 34, \"hello\",]
        } INTO my_entity
        ID 555555-5555-444444",
    );
    assert_eq!(wql.err(), Some(String::from("Keyword WITH is required for INSERT with Uuid")));
}

fn map_hashmap() -> Entity {
    entity(vec![
        ("a", Types::Integer(123)),
        ("b", Types::Mapping(entity(vec![("a", float("12.3")), ("b", Types::Integer(34))]))),
    ])
}

#[test]
fn insert_vec_with_map() {
    let wql = Wql::from_str(
        "INSERT {
            a: 123,
            b: { a: 12.3, b: 34, }
        } INTO my_entity",
    );
    assert_eq!(wql.unwrap(), Wql::Insert("my_entity".to_string(), map_hashmap(), None));
}

#[test]
fn insert_vec_with_map_and_id() {
    let wql = Wql::from_str(
        "INSERT {
            a: 123,
            b: { a: 12.3, b: 34, }
        } INTO my_entity
          WITH 13ca62fc-241b-4af6-87c3-0ae4015f9967",
    );
    assert_eq!(
        wql.unwrap(),
        Wql::Insert("my_entity".to_string(), map_hashmap(), Some(id("13ca62fc-241b-4af6-87c3-0ae4015f9967")))
    );
}

#[test]
fn check_encrypt_values() {
    let wql = Wql::from_str(
        "CHECK {
            ssn: 123,
            pswd: \"my-password\"
        } FROM my_entity ID d6ca73c0-41ff-4975-8a60-fc4a061ce536",
    );
    let hm = TextMap { keys: strings(&["ssn", "pswd"]), values: strings(&["123", "my-password"]) };
    assert_eq!(
        wql.unwrap(),
        Wql::CheckValue("my_entity".to_string(), id("d6ca73c0-41ff-4975-8a60-fc4a061ce536"), hm)
    );
}

#[test]
fn where_ok() {
    let query = "Select * FROM my_entity WherE {
            (in ?id 32434 45345 345346436),
            (between ?age 30 35),
        }";
    let wql = Wql::from_str(query);
    assert_eq!(
        wql.unwrap(),
        Wql::SelectWhere(
            "my_entity".to_string(),
            ToSelect::All,
            vec![
                Clause::ComplexComparisonFunctions(
                    Function::In,
                    "?id".to_string(),
                    vec![Types::Integer(32434), Types::Integer(45345), Types::Integer(345346436)]
                ),
                Clause::ComplexComparisonFunctions(
                    Function::Between,
                    "?age".to_string(),
                    vec![Types::Integer(30), Types::Integer(35)]
                )
            ],
            none()
        )
    )
}

#[test]
fn or_clause() {
    let query = "Select * FROM my_entity WherE {
            ?* my_entity:a ?a,
            ?* my_entity:c ?c,
            (== ?a 123),
            (or
                (>= c 4300.0)
                (< c 6.9)
            ),
        }";
    let wql = Wql::from_str(query);
    assert_eq!(
        wql.unwrap(),
        Wql::SelectWhere(
            "my_entity".to_string(),
            ToSelect::All,
            vec![
                Clause::ValueAttribution("my_entity".to_string(), "a".to_string(), Value("?a".to_string())),
                Clause::ValueAttribution("my_entity".to_string(), "c".to_string(), Value("?c".to_string())),
                Clause::SimpleComparisonFunction(Function::Eq, "?a".to_string(), Types::Integer(123)),
                Clause::Or(
                    Function::Or,
                    vec![
                        Clause::SimpleComparisonFunction(Function::GEq, "c".to_string(), float("4300.0")),
                        Clause::SimpleComparisonFunction(Function::L, "c".to_string(), float("6.9"))
                    ]
                )
            ],
            none()
        )
    )
}

#[test]
fn select_where_groupby() {
    let query = "Select * FROM my_entity WHERE {
            ?* my_entity:name \"julia\",
            ?* my_entity:id 349875325,
        } GROUP BY amazing_key";
    let wql = Wql::from_str(query);
    let mut hm = none();
    hm.group_by = Some(String::from("amazing_key"));
    assert_eq!(
        wql.unwrap(),
        Wql::SelectWhere(
            "my_entity".to_string(),
            ToSelect::All,
            vec![
                Clause::ContainsKeyValue("my_entity".to_string(), "name".to_string(), Types::String("julia".to_string())),
                Clause::ContainsKeyValue("my_entity".to_string(), "id".to_string(), Types::Integer(349875325)),
            ],
            hm
        )
    )
}

#[test]
fn intersect_key() {
    let query = "INTERSECT KEY SelEct * FROM my_entity ID 2df2b8cf-49da-474d-8a00-c596c0bb6fd1 | SelEct * FROM my_entity ID 49dab8cf-2df2-474d-6fd1-c596c0bb8a00";
    let wql = Wql::from_str(query);
    assert_eq!(
        wql.unwrap(),
        Wql::RelationQuery(
            vec![
                Wql::Select("my_entity".to_string(), ToSelect::All, Some(id("2df2b8cf-49da-474d-8a00-c596c0bb6fd1")), none()),
                Wql::Select("my_entity".to_string(), ToSelect::All, Some(id("49dab8cf-2df2-474d-6fd1-c596c0bb8a00")), none()),
            ],
            Relation::Intersect,
            RelationType::Key
        )
    );
}

#[test]
fn diff_key_value() {
    let query = "DIFFERENCE KEY-VALUE SelEct * FROM my_entity ID 2df2b8cf-49da-474d-8a00-c596c0bb6fd1 | SelEct * FROM my_entity ID 49dab8cf-2df2-474d-6fd1-c596c0bb8a00 WHEN AT 2020-01-01T00:00:00Z";
    let wql = Wql::from_str(query);
    assert_eq!(
        wql.unwrap(),
        Wql::RelationQuery(
            vec![
                Wql::Select("my_entity".to_string(), ToSelect::All, Some(id("2df2b8cf-49da-474d-8a00-c596c0bb6fd1")), none()),
                Wql::SelectWhen(
                    "my_entity".to_string(),
                    ToSelect::All,
                    Some(id("49dab8cf-2df2-474d-6fd1-c596c0bb8a00")),
                    "2020-01-01T00:00:00Z".to_string()
                ),
            ],
            Relation::Difference,
            RelationType::KeyValue
        )
    );
}

#[test]
fn union_key() {
    let query = "UNION KEY SelEct * FROM my_entity ID 2df2b8cf-49da-474d-8a00-c596c0bb6fd1 | SelEct * FROM my_entity ID 49dab8cf-2df2-474d-6fd1-c596c0bb8a00 WHEN AT 2020-01-01T00:00:00Z";
    let wql = Wql::from_str(query);
    assert_eq!(
        wql.unwrap(),
        Wql::RelationQuery(
            vec![
                Wql::Select("my_entity".to_string(), ToSelect::All, Some(id("2df2b8cf-49da-474d-8a00-c596c0bb6fd1")), none()),
                Wql::SelectWhen(
                    "my_entity".to_string(),
                    ToSelect::All,
                    Some(id("49dab8cf-2df2-474d-6fd1-c596c0bb8a00")),
                    "2020-01-01T00:00:00Z".to_string()
                ),
            ],
            Relation::Union,
            RelationType::Key
        )
    );
}

#[test]
fn join_test_join() {
    let wql = Wql::from_str("JOIN (entity_A:c, entity_B:c) Select * FROM entity_A | Select * FROM entity_B");
    assert_eq!(
        wql.unwrap(),
        Wql::Join(
            ("entity_A".to_string(), "c".to_string()),
            ("entity_B".to_string(), "c".to_string()),
            vec![
                Wql::Select("entity_A".to_string(), ToSelect::All, None, none()),
                Wql::Select("entity_B".to_string(), ToSelect::All, None, none())
            ]
        )
    )
}

#[test]
fn select_all() {
    let wql = Wql::from_str("SelEct * FROM my_entity");
    assert_eq!(wql.unwrap(), Wql::Select("my_entity".to_string(), ToSelect::All, None, none()));
}

#[test]
fn select_all_from_missing() {
    let wql = Wql::from_str("SelEct * my_entity");
    assert_eq!(wql.err(), Some(String::from("Keyword FROM is required for SELECT")));
}

#[test]
fn select_all_from_entity() {
    let wql = Wql::from_str("SelEct * FROM");
    assert_eq!(wql.err(), Some(String::from("Entity name is required for SELECT")));
}

#[test]
fn select_arg() {
    let wql = Wql::from_str("SelEct #{hello,} FROM my_entity");
    assert_eq!(
        wql.unwrap(),
        Wql::Select("my_entity".to_string(), ToSelect::Keys(strings(&["hello"])), None, none())
    );
}

#[test]
fn select_args() {
    let wql = Wql::from_str("SelEct #{hello,world, by_me,} FROM my_entity");
    assert_eq!(
        wql.unwrap(),
        Wql::Select("my_entity".to_string(), ToSelect::Keys(strings(&["hello", "world", "by_me"])), None, none())
    );
}

#[test]
fn select_all_id() {
    let wql = Wql::from_str("SelEct * FROM my_entity ID 2df2b8cf-49da-474d-8a00-c596c0bb6fd1");
    assert_eq!(
        wql.unwrap(),
        Wql::Select("my_entity".to_string(), ToSelect::All, Some(id("2df2b8cf-49da-474d-8a00-c596c0bb6fd1")), none())
    );
}

#[test]
fn select_all_id_missing() {
    let wql = Wql::from_str("SelEct * FROM my_entity ID ");
    assert_eq!(wql.err(), Some(String::from("Field ID must be a UUID v4")));
}

#[test]
fn select_all_id_key_missing() {
    let wql = Wql::from_str("SelEct * FROM my_entity 2df2b8cf-49da-474d-8a00-c596c0bb6fd1 ");
    assert_eq!(wql.err(), Some(String::from("ID/IDS keyword is required to set an uuid in SELECT")));
}

#[test]
fn select_all_ids() {
    let wql = Wql::from_str("SelEct * FROM my_entity IDS IN #{2df2b8cf-49da-474d-8a00-c596c0bb6fd1, 53315090-e14d-4738-a4d2-f1ec2a93664c,}");
    assert_eq!(
        wql.unwrap(),
        Wql::SelectIds(
            "my_entity".to_string(),
            ToSelect::All,
            vec![id("2df2b8cf-49da-474d-8a00-c596c0bb6fd1"), id("53315090-e14d-4738-a4d2-f1ec2a93664c")],
            none()
        )
    );
}

#[test]
fn select_keys_ids() {
    let wql = Wql::from_str("SelEct #{a, b, c,} FROM my_entity IDS IN #{2df2b8cf-49da-474d-8a00-c596c0bb6fd1, 53315090-e14d-4738-a4d2-f1ec2a93664c,}");
    assert_eq!(
        wql.unwrap(),
        Wql::SelectIds(
            "my_entity".to_string(),
            ToSelect::Keys(strings(&["a", "b", "c"])),
            vec![id("2df2b8cf-49da-474d-8a00-c596c0bb6fd1"), id("53315090-e14d-4738-a4d2-f1ec2a93664c")],
            none()
        )
    );
}

#[test]
fn select_all_ids_missing_in() {
    let wql = Wql::from_str("SelEct * FROM my_entity IDS #{2df2b8cf-49da-474d-8a00-c596c0bb6fd1, 53315090-e14d-4738-a4d2-f1ec2a93664c,}");
    assert_eq!(
        wql.err(),
        Some(String::from("IN keyword is required after IDS to define a set of uuids"))
    );
}

#[test]
fn when_at() {
    let wql = Wql::from_str("SelEct * FROM my_entity ID 2df2b8cf-49da-474d-8a00-c596c0bb6fd1 WHEN AT 2020-01-01T00:00:00Z");
    assert_eq!(
        wql.unwrap(),
        Wql::SelectWhen(
            "my_entity".to_string(),
            ToSelect::All,
            Some(id("2df2b8cf-49da-474d-8a00-c596c0bb6fd1")),
            "2020-01-01T00:00:00Z".to_string()
        )
    );
}

#[test]
fn when_at_args() {
    let wql = Wql::from_str("SelEct #{a,b,c,} FROM my_entity ID 2df2b8cf-49da-474d-8a00-c596c0bb6fd1 WHEN AT 2020-01-01T00:00:00Z");
    assert_eq!(
        wql.unwrap(),
        Wql::SelectWhen(
            "my_entity".to_string(),
            ToSelect::Keys(strings(&["a", "b", "c"])),
            Some(id("2df2b8cf-49da-474d-8a00-c596c0bb6fd1")),
            "2020-01-01T00:00:00Z".to_string()
        )
    );
}

#[test]
fn when_at_args_no_id() {
    let wql = Wql::from_str("SelEct #{a,b,c,} FROM my_entity WHEN AT 2020-01-01T00:00:00Z");
    assert_eq!(
        wql.unwrap(),
        Wql::SelectWhen(
            "my_entity".to_string(),
            ToSelect::Keys(strings(&["a", "b", "c"])),
            None,
            "2020-01-01T00:00:00Z".to_string()
        )
    );
}

#[test]
fn when_range_all() {
    let wql = Wql::from_str("SelEct * FROM my_entity ID 2df2b8cf-49da-474d-8a00-c596c0bb6fd1 WHEN START 2020-01-01T00:00:00Z END 2020-01-01T03:00:00Z");
    assert_eq!(
        wql.unwrap(),
        Wql::SelectWhenRange(
            "my_entity".to_string(),
            id("2df2b8cf-49da-474d-8a00-c596c0bb6fd1"),
            "2020-01-01T00:00:00Z".to_string(),
            "2020-01-01T03:00:00Z".to_string()
        )
    );
}

#[test]
fn when_range_args_err() {
    let wql = Wql::from_str("SelEct * FROM my_entity ID 2df2b8cf-49da-474d-8a00-c596c0bb6fd1 WHEN START 2020-01-01T00:00:00Z 2020-01-01T03:00:00Z");
    assert_eq!(wql.err(), Some(String::from("END is required after START date for SELECT WHEN")));
}

#[test]
fn test_select_all_limit_offset_count_parse() {
    let wql = Wql::from_str("Select * FROM limit_offset LIMIT 3 OFFSET 2 COUNT");
    let mut f = none();
    f.limit = Some(3);
    f.offset = Some(2);
    f.count = true;
    assert_eq!(wql.unwrap(), Wql::Select("limit_offset".to_string(), ToSelect::All, None, f));
}

#[test]
fn test_group_by_order_parse() {
    let wql = Wql::from_str("Select * FROM group_by_with_order GROUP BY c ORDER BY a :desc");
    let mut f = none();
    f.group_by = Some("c".to_string());
    f.order_by = Some(("a".to_string(), Order::Desc));
    assert_eq!(wql.unwrap(), Wql::Select("group_by_with_order".to_string(), ToSelect::All, None, f));
}

#[test]
fn test_dedup_parse() {
    let wql = Wql::from_str("Select * FROM dedup_test DEDUP a");
    let mut f = none();
    f.dedup = Some("a".to_string());
    assert_eq!(wql.unwrap(), Wql::Select("dedup_test".to_string(), ToSelect::All, None, f));
}
