use std::str::FromStr;
use wooridb::algebra::{get_result_after_manipulation, QueryResult};
use wooridb::ast::{AlgebraFunctions, Clause, MatchCondition, Order, RelationType, ToSelect, Wql};
use wooridb::clauses::filter_where_clauses;
use wooridb::compare::{entity_eq, entity_get, types_compare, types_eq, Comparison};
use wooridb::error::Error;
use wooridb::options::{get_result_after_manipulation_for_options, lift_states};
use wooridb::query::{dedup_states, generate_state, get_limit_offset_count, select_where};
use wooridb::relation::{difference, intersect, union};
use wooridb::state::{
    match_update, previous_registry_text, state_text, update_content_state, ContentUpdate,
};
use wooridb::types::{Entity, Types};

fn entity(pairs: Vec<(&str, Types)>) -> Entity {
    let mut e = Entity::new();
    for (k, v) in pairs {
        e.insert(k.to_string(), v);
    }
    e
}

fn s(x: &str) -> Types {
    Types::String(x.to_string())
}

fn none() -> AlgebraFunctions {
    AlgebraFunctions::none()
}

fn inserted(wql: &str) -> Entity {
    match Wql::from_str(wql).unwrap() {
        Wql::Insert(_, e, _) => e,
        _ => panic!("not an insert"),
    }
}

fn where_query(wql: &str) -> (ToSelect, Vec<Clause>, AlgebraFunctions) {
    match Wql::from_str(wql).unwrap() {
        Wql::SelectWhere(_, to_select, clauses, functions) => (to_select, clauses, functions),
        _ => panic!("not a select where"),
    }
}

fn get<'a>(e: &'a Entity, k: &str) -> Option<&'a Types> {
    entity_get(e, k)
}

fn registries() -> Vec<(u128, Entity)> {
    vec![
        (1, inserted("INSERT {a: 3, b: \"hello world\", c: 45,} INTO t")),
        (2, inserted("INSERT {a: 43, b: \"Julia Naomi\", c: 57,} INTO t")),
        (3, inserted("INSERT {a: 948, b: \"Otavio Pace\", c: 5,} INTO t")),
        (4, inserted("INSERT {a: 123, b: \"hello johnny\", c: 4345,} INTO t")),
    ]
}

#[test]
fn values_compare_by_kind() {
    assert_eq!(types_compare(&Types::Integer(3), &Types::Integer(4)), Some(Comparison::Less));
    assert_eq!(types_compare(&s("b"), &s("a")), Some(Comparison::Greater));
    assert_eq!(types_compare(&s("ab"), &s("ab")), Some(Comparison::Equal));
    assert_eq!(types_compare(&s("a"), &s("ab")), Some(Comparison::Less));
    assert_eq!(types_compare(&Types::Char('a'), &Types::Char('b')), Some(Comparison::Less));
    assert_eq!(
        types_compare(&Types::Boolean(true), &Types::Boolean(false)),
        Some(Comparison::Greater)
    );
    assert_eq!(
        types_compare(&Types::Vector(vec![Types::Nil]), &Types::Vector(vec![])),
        Some(Comparison::Greater)
    );
    assert_eq!(types_compare(&Types::Integer(3), &s("3")), None);
    assert_eq!(types_compare(&Types::Float("NaN".to_string(), None), &Types::Integer(1)), Some(Comparison::Less));
}

#[test]
fn values_equal_structurally() {
    let a = entity(vec![("x", Types::Integer(1)), ("y", s("v"))]);
    let b = entity(vec![("y", s("v")), ("x", Types::Integer(1))]);
    assert!(entity_eq(&a, &b));
    assert!(types_eq(&Types::Mapping(a), &Types::Mapping(b)));
    let c = entity(vec![("x", Types::Integer(2))]);
    assert!(!types_eq(
        &Types::Mapping(entity(vec![("x", Types::Integer(1))])),
        &Types::Mapping(c)
    ));
    assert!(types_eq(
        &Types::Vector(vec![Types::Integer(1), Types::Nil]),
        &Types::Vector(vec![Types::Integer(1), Types::Nil])
    ));
    assert!(!types_eq(&Types::Integer(1), &s("1")));
}

#[test]
fn relation_key_operations() {
    let f = entity(vec![("a", Types::Integer(1)), ("b", Types::Integer(2)), ("c", Types::Integer(3))]);
    let g = entity(vec![("b", Types::Integer(20)), ("c", Types::Integer(3)), ("d", Types::Integer(4))]);

    let i = intersect(&f, &g, RelationType::Key);
    assert_eq!(get(&i, "a"), None);
    assert_eq!(get(&i, "b"), Some(&Types::Integer(2)));
    assert_eq!(get(&i, "c"), Some(&Types::Integer(3)));
    assert_eq!(get(&i, "d"), None);

    let i = intersect(&f, &g, RelationType::KeyValue);
    assert_eq!(get(&i, "b"), None);
    assert_eq!(get(&i, "c"), Some(&Types::Integer(3)));

    let d = difference(&f, &g, RelationType::Key);
    assert_eq!(get(&d, "a"), Some(&Types::Integer(1)));
    assert_eq!(get(&d, "b"), None);
    assert_eq!(get(&d, "c"), None);

    let d = difference(&f, &g, RelationType::KeyValue);
    assert_eq!(get(&d, "a"), Some(&Types::Integer(1)));
    assert_eq!(get(&d, "b"), Some(&Types::Integer(2)));
    assert_eq!(get(&d, "c"), None);

    let u = union(&f, &g, RelationType::Key);
    assert_eq!(get(&u, "b"), Some(&Types::Integer(2)));
    assert_eq!(get(&u, "d"), Some(&Types::Integer(4)));
    assert_eq!(get(&u, "b:duplicated"), None);

    let u = union(&f, &g, RelationType::KeyValue);
    assert_eq!(get(&u, "b"), Some(&Types::Integer(2)));
    assert_eq!(get(&u, "b:duplicated"), Some(&Types::Integer(20)));
    assert_eq!(get(&u, "c"), Some(&Types::Integer(3)));
    assert_eq!(get(&u, "c:duplicated"), None);
    assert_eq!(get(&u, "d"), Some(&Types::Integer(4)));
}

#[test]
fn relation_laws_on_values() {
    let f = entity(vec![("a", Types::Integer(1)), ("b", s("x"))]);
    let g = entity(vec![("b", s("y")), ("e", Types::Nil)]);
    assert!(entity_eq(&intersect(&f, &f, RelationType::Key), &f));
    assert!(entity_eq(&difference(&f, &f, RelationType::KeyValue), &Entity::new()));
    assert!(entity_eq(&union(&f, &f, RelationType::Key), &f));
    let i = intersect(&f, &g, RelationType::Key);
    let d = difference(&f, &g, RelationType::Key);
    assert_eq!(get(&i, "b"), Some(&s("x")));
    assert_eq!(get(&d, "a"), Some(&Types::Integer(1)));
    assert_eq!(get(&d, "b"), None);
    assert_eq!(get(&i, "a"), None);
}

#[test]
fn simple_where_clause_eq() {
    let (to_select, clauses, functions) = where_query(
        "Select * From test_simple_where_eq WHERE {
            ?* test_simple_where_eq:a 123,
        }",
    );
    let result = select_where(&registries(), &to_select, &clauses, &functions);
    assert_eq!(result.len(), 1);
    assert_eq!(get(&result[0].1, "a"), Some(&Types::Integer(123)));
}

#[test]
fn clause_between() {
    let (to_select, clauses, functions) = where_query(
        "Select * From test_where_between WHERE {
            ?* test_where_between:a ?a,
            (between ?a 0 100),
        }",
    );
    let result = select_where(&registries(), &to_select, &clauses, &functions);
    assert_eq!(result.len(), 2);
    assert_eq!(result[0].0, 1);
    assert_eq!(result[1].0, 2);
}

#[test]
fn clause_in_integers() {
    let (to_select, clauses, functions) = where_query(
        "Select * From test_where_in WHERE {
            ?* test_where_in:c ?c,
            (in ?c 57 4345 5),
        }",
    );
    let result = select_where(&registries(), &to_select, &clauses, &functions);
    assert_eq!(result.len(), 3);
    let ids: Vec<u128> = result.iter().map(|(id, _)| *id).collect();
    assert_eq!(ids, vec![2, 3, 4]);
}

#[test]
fn clause_ge_le_integers() {
    let (to_select, clauses, functions) = where_query(
        "Select * From test_where_in WHERE {
            ?* test_where_in:c ?c,
            (>= ?c 10),
            (< ?c 60),
        }",
    );
    let result = select_where(&registries(), &to_select, &clauses, &functions);
    let ids: Vec<u128> = result.iter().map(|(id, _)| *id).collect();
    assert_eq!(ids, vec![1, 2]);
}

#[test]
fn clause_or_integers() {
    let (to_select, clauses, functions) = where_query(
        "Select * From test_or WHERE {
            ?* test_or:b ?b,
            ?* test_or:c ?c,
            (or
                (>= ?c 4300)
                (< ?c 7)
                (like ?b \"%Naomi\")
            ),
        }",
    );
    let result = select_where(&registries(), &to_select, &clauses, &functions);
    let ids: Vec<u128> = result.iter().map(|(id, _)| *id).collect();
    assert_eq!(ids, vec![2, 3, 4]);
}

#[test]
fn clause_like() {
    let (to_select, clauses, functions) = where_query(
        "Select * From test_like WHERE {
            ?* test_like:b ?b,
            (like ?b \"hello%\"),
        }",
    );
    let result = select_where(&registries(), &to_select, &clauses, &functions);
    let ids: Vec<u128> = result.iter().map(|(id, _)| *id).collect();
    assert_eq!(ids, vec![1, 4]);
}

#[test]
fn where_keeps_registries_without_the_compared_key() {
    let regs = vec![
        (1, entity(vec![("a", Types::Integer(1))])),
        (2, entity(vec![("z", Types::Integer(1))])),
    ];
    let (to_select, clauses, functions) =
        where_query("Select * From t WHERE { ?* t:a ?a, (> ?a 5), }");
    let result = select_where(&regs, &to_select, &clauses, &functions);
    let ids: Vec<u128> = result.iter().map(|(id, _)| *id).collect();
    assert_eq!(ids, vec![2]);
    let direct = filter_where_clauses(&regs, &clauses);
    assert_eq!(direct.len(), 1);
}

#[test]
fn select_keys_drop_hashes_and_other_keys() {
    let regs = vec![(
        7,
        entity(vec![("a", Types::Integer(1)), ("h", Types::Hash("x".to_string())), ("b", s("k"))]),
    )];
    let all = generate_state(&regs, &ToSelect::All);
    assert_eq!(get(&all[0].1, "h"), None);
    assert_eq!(get(&all[0].1, "b"), Some(&s("k")));
    let some = generate_state(&regs, &ToSelect::Keys(vec!["a".to_string(), "h".to_string()]));
    assert_eq!(get(&some[0].1, "a"), Some(&Types::Integer(1)));
    assert_eq!(get(&some[0].1, "b"), None);
    assert_eq!(get(&some[0].1, "h"), None);
}

fn algebra_registries() -> Vec<(u128, Entity)> {
    vec![
        (1, inserted("INSERT {a: 123, b: 12.3,} INTO t")),
        (2, inserted("INSERT {a: 235, b: 12.3, c: 'c',} INTO t")),
        (3, inserted("INSERT {a: 235, b: 12.3, c: 'd',} INTO t")),
        (4, inserted("INSERT {a: 25, b: 12.3, c: 'c',} INTO t")),
        (5, inserted("INSERT {a: 475, b: 12.3, c: 'd',} INTO t")),
        (6, inserted("INSERT {a: 295, b: 12.3, c: 'r',} INTO t")),
    ]
}

fn functions_of(wql: &str) -> AlgebraFunctions {
    match Wql::from_str(wql).unwrap() {
        Wql::Select(_, _, _, f) => f,
        _ => panic!("not a select"),
    }
}

#[test]
fn limit_offset_and_count() {
    let f = functions_of("Select * FROM limit_offset LIMIT 3 OFFSET 2");
    assert_eq!(get_limit_offset_count(&f), (3, 2, false));
    assert_eq!(get_limit_offset_count(&none()), (usize::MAX, 0, false));
    let f = functions_of("Select * FROM limit_offset_count LIMIT 3 OFFSET 2 COUNT");
    assert_eq!(get_limit_offset_count(&f), (3, 2, true));
    let (to_select, clauses, functions) =
        where_query("Select * FROM t WHERE { ?* t:a ?a, (> ?a 0), } LIMIT 3 OFFSET 2");
    let result = select_where(&algebra_registries(), &to_select, &clauses, &functions);
    let ids: Vec<u128> = result.iter().map(|(id, _)| *id).collect();
    assert_eq!(ids, vec![3, 4, 5]);
}

#[test]
fn dedup_keeps_first_of_each_value() {
    let f = functions_of("Select * FROM dedup_test DEDUP a");
    let r = dedup_states(algebra_registries(), &f);
    let ids: Vec<u128> = r.iter().map(|(id, _)| *id).collect();
    assert_eq!(ids, vec![1, 2, 4, 5, 6]);

    let f = functions_of("Select * FROM dedup_test DEDUP c");
    let r = dedup_states(algebra_registries(), &f);
    let ids: Vec<u128> = r.iter().map(|(id, _)| *id).collect();
    assert_eq!(ids, vec![1, 2, 3, 6]);

    let f = functions_of("Select * FROM dedup_test DEDUP NIL(c)");
    let r = dedup_states(algebra_registries(), &f);
    let ids: Vec<u128> = r.iter().map(|(id, _)| *id).collect();
    assert_eq!(ids, vec![2, 3, 6]);
}

#[test]
fn order_by_sorts() {
    let f = functions_of("Select * FROM order_by_test ORDER BY a :asc");
    let (r, count) = get_result_after_manipulation(algebra_registries(), &f, false);
    assert_eq!(count, None);
    match r {
        QueryResult::Order(s) => {
            let ids: Vec<u128> = s.iter().map(|(id, _)| *id).collect();
            assert_eq!(ids, vec![4, 1, 2, 3, 6, 5]);
            assert_eq!(get(&s.first().unwrap().1, "a"), Some(&Types::Integer(25)));
            assert_eq!(get(&s.last().unwrap().1, "a"), Some(&Types::Integer(475)));
        }
        _ => panic!("expected an ordered answer"),
    }
    let f = functions_of("Select * FROM order_by_test ORDER BY a :desc COUNT");
    let (r, count) = get_result_after_manipulation(algebra_registries(), &f, true);
    assert_eq!(count, Some(6));
    match r {
        QueryResult::Order(s) => {
            let ids: Vec<u128> = s.iter().map(|(id, _)| *id).collect();
            assert_eq!(ids, vec![5, 6, 2, 3, 1, 4]);
        }
        _ => panic!("expected an ordered answer"),
    }
}

#[test]
fn group_by_groups() {
    let f = functions_of("Select * FROM group_by_test GROUP BY c");
    let (r, count) = get_result_after_manipulation(algebra_registries(), &f, true);
    assert_eq!(count, Some(4));
    match r {
        QueryResult::GroupBy(g) => {
            let keys: Vec<Types> = g.iter().map(|(k, _)| wooridb::types::clone_types(k)).collect();
            assert_eq!(keys, vec![Types::Nil, Types::Char('c'), Types::Char('d'), Types::Char('r')]);
            let c_ids: Vec<u128> = g[1].1.iter().map(|(id, _)| *id).collect();
            assert_eq!(c_ids, vec![2, 4]);
        }
        _ => panic!("expected groups"),
    }
    let f = functions_of("Select * FROM group_by_with_order GROUP BY c ORDER BY a :desc");
    let (r, count) = get_result_after_manipulation(algebra_registries(), &f, true);
    assert_eq!(count, None);
    match r {
        QueryResult::OrderedGroupBy(g) => {
            let c = &g[1].1;
            assert_eq!(get(&c[0].1, "a"), Some(&Types::Integer(235)));
            assert_eq!(get(&c[1].1, "a"), Some(&Types::Integer(25)));
        }
        _ => panic!("expected ordered groups"),
    }
    let (r, count) = get_result_after_manipulation(algebra_registries(), &none(), true);
    assert_eq!(count, Some(6));
    assert!(matches!(r, QueryResult::All(_)));
}

fn optional_registries() -> Vec<(u128, Option<Entity>)> {
    vec![
        (1, Some(entity(vec![("a", Types::Integer(3)), ("c", Types::Char('x'))]))),
        (2, None),
        (3, Some(entity(vec![("a", Types::Integer(1))]))),
        (4, Some(entity(vec![("a", Types::Integer(2)), ("c", Types::Char('x'))]))),
    ]
}

#[test]
fn manipulation_for_options() {
    let f = functions_of("Select * FROM e ORDER BY a :asc COUNT");
    let (r, count) = get_result_after_manipulation_for_options(optional_registries(), &f, true);
    assert_eq!(count, Some(3));
    match r {
        QueryResult::Order(s) => {
            let ids: Vec<u128> = s.iter().map(|(id, _)| *id).collect();
            assert_eq!(ids, vec![3, 4, 1]);
        }
        _ => panic!("expected an ordered answer"),
    }
    let f = functions_of("Select * FROM e GROUP BY c COUNT");
    let (r, count) = get_result_after_manipulation_for_options(optional_registries(), &f, true);
    assert_eq!(count, Some(2));
    match r {
        QueryResult::OptionGroupBy(g) => {
            let keys: Vec<Types> = g.iter().map(|(k, _)| wooridb::types::clone_types(k)).collect();
            assert_eq!(keys, vec![Types::Char('x'), Types::Nil]);
            let nil_ids: Vec<u128> = g[1].1.iter().map(|(id, _)| *id).collect();
            assert_eq!(nil_ids, vec![2, 3]);
            assert!(g[1].1[0].1.is_none());
        }
        _ => panic!("expected groups"),
    }
    let f = functions_of("Select * FROM e GROUP BY c ORDER BY a :desc");
    let (r, count) = get_result_after_manipulation_for_options(optional_registries(), &f, true);
    assert_eq!(count, None);
    match r {
        QueryResult::OrderedGroupBy(g) => {
            let x_ids: Vec<u128> = g[0].1.iter().map(|(id, _)| *id).collect();
            assert_eq!(x_ids, vec![1, 4]);
            let nil_ids: Vec<u128> = g[1].1.iter().map(|(id, _)| *id).collect();
            assert_eq!(nil_ids, vec![3]);
        }
        _ => panic!("expected ordered groups"),
    }
    let (r, count) = get_result_after_manipulation_for_options(optional_registries(), &none(), true);
    assert_eq!(count, Some(4));
    match r {
        QueryResult::OptionSelect(s) => {
            assert_eq!(s.len(), 4);
            assert!(s[1].1.is_none());
        }
        _ => panic!("expected the identifiers as they are"),
    }
}

fn match_condition(wql: &str) -> (Entity, MatchCondition) {
    match Wql::from_str(wql).unwrap() {
        Wql::MatchUpdate(_, e, _, c) => (e, c),
        _ => panic!("not a match update"),
    }
}

#[test]
fn match_all_and_any() {
    let state = entity(vec![("a", Types::Integer(123)), ("b", s("hello"))]);
    let (_, all) = match_condition(
        "MATCH ALL(a > 100, b == \"hello\") UPDATE t SET {a: 1,} INTO 936da01f-9abd-4d9d-80c7-02af85c822a8",
    );
    assert!(match_update(&all, &state).is_ok());
    let (_, all_fail) = match_condition(
        "MATCH ALL(a > 200, b == \"hello\") UPDATE t SET {a: 1,} INTO 936da01f-9abd-4d9d-80c7-02af85c822a8",
    );
    assert!(matches!(match_update(&all_fail, &state), Err(Error::FailedMatchCondition)));
    let (_, any) = match_condition(
        "MATCH ANY(a > 200, b == \"hello\") UPDATE t SET {a: 1,} INTO 936da01f-9abd-4d9d-80c7-02af85c822a8",
    );
    assert!(match_update(&any, &state).is_ok());
    let (_, any_fail) = match_condition(
        "MATCH ANY(a > 200, zz == \"hello\") UPDATE t SET {a: 1,} INTO 936da01f-9abd-4d9d-80c7-02af85c822a8",
    );
    assert!(matches!(match_update(&any_fail, &state), Err(Error::FailedMatchCondition)));
    let single = MatchCondition::Eq("a".to_string(), Types::Integer(123));
    assert!(matches!(match_update(&single, &state), Err(Error::UnknownCondition)));
}

#[test]
fn update_content_adds_and_replaces() {
    let mut st = inserted("INSERT {a: 123, c: 'c', f: \"hello\", v: [1, 2,],} INTO t");
    assert_eq!(update_content_state(&mut st, "a".to_string(), Types::Integer(12)), ContentUpdate::Applied);
    assert_eq!(get(&st, "a"), Some(&Types::Integer(135)));
    update_content_state(&mut st, "c".to_string(), Types::Char('d'));
    assert_eq!(get(&st, "c"), Some(&Types::Char('d')));
    update_content_state(&mut st, "f".to_string(), s("world"));
    assert_eq!(get(&st, "f"), Some(&s("helloworld")));
    update_content_state(&mut st, "v".to_string(), Types::Vector(vec![Types::Integer(3)]));
    assert_eq!(
        get(&st, "v"),
        Some(&Types::Vector(vec![Types::Integer(1), Types::Integer(2), Types::Integer(3)]))
    );
    update_content_state(&mut st, "e".to_string(), Types::Integer(4325));
    assert_eq!(get(&st, "e"), Some(&Types::Integer(4325)));
    update_content_state(&mut st, "g".to_string(), Types::Boolean(true));
    assert_eq!(get(&st, "g"), Some(&Types::Boolean(true)));
    update_content_state(&mut st, "h".to_string(), Types::Hash("x".to_string()));
    assert_eq!(get(&st, "h"), Some(&Types::Hash(String::new())));
    update_content_state(&mut st, "a".to_string(), s("ignored"));
    assert_eq!(get(&st, "a"), Some(&Types::Integer(135)));
    assert_eq!(
        update_content_state(&mut st, "a".to_string(), Types::Float("1.5".to_string(), None)),
        ContentUpdate::FloatSum
    );
    assert_eq!(get(&st, "a"), Some(&Types::Integer(135)));
}

#[test]
fn update_content_merges_maps() {
    let mut st = entity(vec![(
        "m",
        Types::Mapping(entity(vec![("x", Types::Integer(1)), ("y", Types::Integer(2))])),
    )]);
    update_content_state(
        &mut st,
        "m".to_string(),
        Types::Mapping(entity(vec![("y", Types::Integer(20)), ("z", Types::Integer(3))])),
    );
    match get(&st, "m") {
        Some(Types::Mapping(m)) => {
            assert_eq!(get(m, "x"), Some(&Types::Integer(1)));
            assert_eq!(get(m, "y"), Some(&Types::Integer(20)));
            assert_eq!(get(m, "z"), Some(&Types::Integer(3)));
        }
        _ => panic!("expected a map"),
    }
}

#[test]
fn log_line_state_and_registry() {
    let insert = "INSERT|DATE|936da01f-9abd-4d9d-80c7-02af85c822a8|t|{\"a\": Integer(1),};";
    assert_eq!(state_text(insert).unwrap(), "{\"a\": Integer(1),}");
    assert_eq!(previous_registry_text(insert).unwrap(), None);
    let update = "UPDATE_SET|D|id|t|log|{\"a\": Integer(2),}|(file_name: \"f\", offset: 1, bytes_length: 2,);";
    assert_eq!(state_text(update).unwrap(), "{\"a\": Integer(2),}");
    assert_eq!(
        previous_registry_text(update).unwrap(),
        Some("(file_name: \"f\", offset: 1, bytes_length: 2,)".to_string())
    );
    assert!(matches!(state_text("DELETE|x;"), Err(Error::FailedToParseState)));
    assert!(matches!(previous_registry_text("DELETE|x;"), Err(Error::FailedToParseRegistry)));
}

#[test]
fn default_values_by_kind() {
    assert_eq!(Types::Integer(5).default_values(), Types::Integer(0));
    assert_eq!(s("x").default_values(), s(""));
    assert_eq!(Types::Char('x').default_values(), Types::Char(' '));
    assert_eq!(Types::Precise("1.2".to_string()).default_values(), Types::Precise("0".to_string()));
    assert!(matches!(Types::Uuid(3).default_values(), Types::Uuid(_)));
    assert!(Types::Hash("h".to_string()).is_hash());
    assert!(!Types::Nil.is_hash());
}

#[test]
fn options_agree_when_all_present() {
    for wql in [
        "Select * FROM t ORDER BY a :desc COUNT",
        "Select * FROM t GROUP BY c COUNT",
        "Select * FROM t GROUP BY c ORDER BY a :asc",
        "Select * FROM t COUNT",
    ] {
        let f = functions_of(wql);
        let (plain, c1) = get_result_after_manipulation(algebra_registries(), &f, f.count);
        let (opt, c2) =
            get_result_after_manipulation_for_options(lift_states(algebra_registries()), &f, f.count);
        assert_eq!(c1, c2);
        let ids = |s: &Vec<(u128, Entity)>| s.iter().map(|(id, _)| *id).collect::<Vec<u128>>();
        match (plain, opt) {
            (QueryResult::Order(a), QueryResult::Order(b)) => assert_eq!(ids(&a), ids(&b)),
            (QueryResult::OrderedGroupBy(a), QueryResult::OrderedGroupBy(b)) => {
                assert_eq!(a.len(), b.len());
                for (x, y) in a.iter().zip(b.iter()) {
                    assert!(types_eq(&x.0, &y.0));
                    assert_eq!(ids(&x.1), ids(&y.1));
                }
            }
            (QueryResult::GroupBy(a), QueryResult::OptionGroupBy(b)) => {
                assert_eq!(a.len(), b.len());
                for (x, y) in a.iter().zip(b.iter()) {
                    assert!(types_eq(&x.0, &y.0));
                    let yi: Vec<u128> = y.1.iter().map(|(id, st)| {
                        assert!(st.is_some());
                        *id
                    }).collect();
                    assert_eq!(ids(&x.1), yi);
                }
            }
            (QueryResult::All(a), QueryResult::OptionSelect(b)) => {
                assert_eq!(ids(&a), b.iter().map(|(id, _)| *id).collect::<Vec<u128>>());
                assert!(b.iter().all(|(_, st)| st.is_some()));
            }
            _ => panic!("the answers differ in kind for {}", wql),
        }
    }
}

#[test]
fn update_content_of_a_whole_content() {
    let previous = entity(vec![
        ("a", Types::Integer(3)),
        ("s", s("ab")),
        ("f", Types::Float("1.5".to_string(), None)),
    ]);
    let content = entity(vec![
        ("a", Types::Integer(4)),
        ("s", s("cd")),
        ("f", Types::Integer(2)),
        ("n", Types::Integer(7)),
    ]);
    assert!(wooridb::state::update_content_fits(&previous, &content));
    let (state, floats) = wooridb::state::update_content_entity(&previous, &content);
    assert_eq!(entity_get(&state, "a"), Some(&Types::Integer(7)));
    assert_eq!(entity_get(&state, "s"), Some(&s("abcd")));
    assert_eq!(entity_get(&state, "n"), Some(&Types::Integer(7)));
    assert_eq!(entity_get(&state, "f"), Some(&Types::Float("1.5".to_string(), None)));
    assert_eq!(floats, vec!["f".to_string()]);
    let big = entity(vec![("a", Types::Integer(isize::MAX))]);
    assert!(!wooridb::state::update_content_fits(&previous, &big));
}
