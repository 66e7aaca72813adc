use wooridb::algebra::{get_result_after_manipulation, QueryResult};
use wooridb::ast::{AlgebraFunctions, Clause, Function, MatchCondition, Order};
use wooridb::clauses::filter_where_clauses;
use wooridb::compare::{entity_get, types_compare, Comparison};
use wooridb::context::{DataRegister, LocalContext, Registry};
use wooridb::debug::{hash_input, hash_value};
use wooridb::error::Error;
use wooridb::log::{insert_entity_content, update_set_entity_content};
use wooridb::state::match_update;
use wooridb::steps::{
    delete_check, delete_step, match_update_step, update_content_step, update_set_step,
    DeleteSource,
};
use wooridb::types::{Entity, FloatInfo, Types};
use wooridb::uniques::{Encryption, Uniqueness};

fn float(f: f64) -> Types {
    let bits = f.to_bits();
    let magnitude = (bits & 0x7fff_ffff_ffff_ffff) as i128;
    let order = if bits >> 63 == 1 { -magnitude } else { magnitude };
    let floor = f.floor();
    Types::Float(
        format!("{:?}", f),
        Some(FloatInfo { order, floor: floor as i128, fraction: f > floor }),
    )
}

fn entity(pairs: Vec<(&str, Types)>) -> Entity {
    let mut e = Entity::new();
    for (k, v) in pairs {
        e.insert(k.to_string(), v);
    }
    e
}

fn previous_state() -> Entity {
    entity(vec![
        ("a", float(4.5)),
        ("b", Types::Integer(4)),
        ("c", float(5.5)),
        ("d", Types::Integer(6)),
        ("e", Types::String(String::from("hello"))),
        ("f", Types::Boolean(true)),
    ])
}

#[test]
fn test_all_matches() {
    let conds = MatchCondition::All(vec![
        MatchCondition::Eq("e".to_string(), Types::String(String::from("hello"))),
        MatchCondition::NotEq("f".to_string(), Types::Boolean(false)),
        MatchCondition::GEq("a".to_string(), float(3.0)),
        MatchCondition::LEq("b".to_string(), Types::Integer(7)),
        MatchCondition::G("c".to_string(), float(3.0)),
        MatchCondition::L("d".to_string(), Types::Integer(7)),
    ]);
    assert!(match_update(&conds, &previous_state()).is_ok());
}

#[test]
fn test_any_matches() {
    let conds = MatchCondition::Any(vec![
        MatchCondition::Eq("e".to_string(), Types::String(String::from("hellwo"))),
        MatchCondition::NotEq("f".to_string(), Types::Boolean(true)),
        MatchCondition::GEq("a".to_string(), float(34.0)),
        MatchCondition::LEq("b".to_string(), Types::Integer(7)),
        MatchCondition::G("c".to_string(), float(34.0)),
        MatchCondition::L("d".to_string(), Types::Integer(-7)),
    ]);
    assert!(match_update(&conds, &previous_state()).is_ok());
}

#[test]
fn test_any_fail() {
    let conds = MatchCondition::Any(vec![
        MatchCondition::Eq("e".to_string(), Types::String(String::from("hellwo"))),
        MatchCondition::NotEq("f".to_string(), Types::Boolean(true)),
        MatchCondition::GEq("a".to_string(), float(34.0)),
        MatchCondition::LEq("b".to_string(), Types::Integer(-7)),
        MatchCondition::G("c".to_string(), float(34.0)),
        MatchCondition::L("d".to_string(), Types::Integer(-7)),
    ]);
    assert!(match_update(&conds, &previous_state()).is_err());
}

#[test]
fn test_all_fail() {
    let conds = MatchCondition::All(vec![
        MatchCondition::Eq("e".to_string(), Types::String(String::from("hello"))),
        MatchCondition::NotEq("f".to_string(), Types::Boolean(false)),
        MatchCondition::GEq("a".to_string(), float(3.0)),
        MatchCondition::LEq("b".to_string(), Types::Integer(-7)),
        MatchCondition::G("c".to_string(), float(3.0)),
        MatchCondition::L("d".to_string(), Types::Integer(7)),
    ]);
    assert!(match_update(&conds, &previous_state()).is_err());
}

#[test]
fn floats_compare_as_numbers() {
    assert_eq!(types_compare(&float(2.0), &float(1.0)), Some(Comparison::Greater));
    assert_eq!(types_compare(&float(-2.5), &float(1.0)), Some(Comparison::Less));
    assert_eq!(types_compare(&float(1.0), &float(1.0)), Some(Comparison::Less));
    assert_eq!(types_compare(&Types::Integer(2), &float(1.5)), Some(Comparison::Greater));
    assert_eq!(types_compare(&Types::Integer(1), &float(1.5)), Some(Comparison::Less));
    assert_eq!(types_compare(&float(1.5), &Types::Integer(1)), Some(Comparison::Greater));
    assert_eq!(types_compare(&float(1.0), &Types::Integer(1)), Some(Comparison::Less));
    assert_eq!(types_compare(&float(-0.5), &Types::Integer(-1)), Some(Comparison::Greater));
}

#[test]
fn order_by_floats() {
    let states = vec![
        (1, entity(vec![("a", float(1.0))])),
        (2, entity(vec![("a", float(2.0))])),
        (3, entity(vec![("a", float(-3.5))])),
    ];
    let mut f = AlgebraFunctions::none();
    f.order_by = Some(("a".to_string(), Order::Asc));
    let (r, _) = get_result_after_manipulation(states, &f, false);
    match r {
        QueryResult::Order(s) => {
            let ids: Vec<u128> = s.iter().map(|(id, _)| *id).collect();
            assert_eq!(ids, vec![3, 1, 2]);
        }
        _ => panic!("expected an ordered answer"),
    }
}

#[test]
fn where_on_floats() {
    let states = vec![
        (1, entity(vec![("a", float(1.5))])),
        (2, entity(vec![("a", float(4.5))])),
        (3, entity(vec![("a", Types::Integer(3))])),
    ];
    let clauses = vec![
        Clause::ValueAttribution("e".to_string(), "a".to_string(), wooridb::ast::Value("?a".to_string())),
        Clause::SimpleComparisonFunction(Function::G, "?a".to_string(), float(2.0)),
    ];
    let r = filter_where_clauses(&states, &clauses);
    let ids: Vec<u128> = r.iter().map(|(id, _)| *id).collect();
    assert_eq!(ids, vec![2, 3]);
}

#[test]
fn group_by_equal_floats() {
    let states = vec![
        (1, entity(vec![("a", float("1.0".parse().unwrap()))])),
        (2, entity(vec![("a", float("1.00".parse().unwrap()))])),
    ];
    let mut f = AlgebraFunctions::none();
    f.group_by = Some("a".to_string());
    let (r, count) = get_result_after_manipulation(states, &f, true);
    assert_eq!(count, Some(1));
    assert!(matches!(r, QueryResult::GroupBy(_)));
}

fn register(offset: usize) -> DataRegister {
    DataRegister { file_name: "data/2021_01_01.log".to_string(), offset, bytes_length: 10 }
}

fn context() -> LocalContext {
    let mut ctx = LocalContext::new();
    ctx.create_entity("e").unwrap();
    ctx.put_registry(
        "e",
        Registry {
            id: 7,
            register: register(3),
            state: entity(vec![("a", Types::Integer(123)), ("b", float(12.3))]),
        },
    );
    ctx
}

#[test]
fn update_set_keeps_untouched_keys() {
    let ctx = context();
    let mut uniq = Uniqueness::new();
    let content = entity(vec![("a", Types::Integer(12)), ("c", Types::Nil)]);
    let s = update_set_step(&ctx, &mut uniq, "e", 7, &content).unwrap();
    assert_eq!(entity_get(&s, "a"), Some(&Types::Integer(12)));
    assert_eq!(entity_get(&s, "b"), Some(&float(12.3)));
    assert_eq!(entity_get(&s, "c"), Some(&Types::Nil));
    assert!(matches!(
        update_set_step(&ctx, &mut uniq, "e", 8, &content),
        Err(Error::UuidNotCreatedForEntity(_, 8))
    ));
    assert!(matches!(
        update_set_step(&ctx, &mut uniq, "x", 7, &content),
        Err(Error::EntityNotCreated(_))
    ));
}

#[test]
fn update_set_refuses_duplicate_unique() {
    let ctx = context();
    let mut uniq = Uniqueness::new();
    uniq.create_with_unique_keys("e", &vec!["a".to_string()]);
    let content = entity(vec![("a", Types::Integer(12))]);
    assert!(update_set_step(&ctx, &mut uniq, "e", 7, &content).is_ok());
    assert!(matches!(
        update_set_step(&ctx, &mut uniq, "e", 7, &content),
        Err(Error::DuplicatedUnique(_, _, _))
    ));
}

#[test]
fn match_update_step_checks_conditions_first() {
    let ctx = context();
    let mut uniq = Uniqueness::new();
    let content = entity(vec![("a", Types::Integer(1))]);
    let holds = MatchCondition::All(vec![MatchCondition::GEq("b".to_string(), float(12.0))]);
    let fails = MatchCondition::All(vec![MatchCondition::G("b".to_string(), float(13.0))]);
    let s = match_update_step(&ctx, &mut uniq, "e", 7, &content, &holds).unwrap();
    assert_eq!(entity_get(&s, "a"), Some(&Types::Integer(1)));
    assert_eq!(entity_get(&s, "b"), Some(&float(12.3)));
    assert!(matches!(
        match_update_step(&ctx, &mut uniq, "e", 7, &content, &fails),
        Err(Error::FailedMatchCondition)
    ));
}

#[test]
fn update_content_step_adds() {
    let ctx = context();
    let mut uniq = Uniqueness::new();
    let enc = Encryption::new();
    let content = entity(vec![("a", Types::Integer(7)), ("b", Types::Integer(1))]);
    let (s, floats) = update_content_step(&ctx, &mut uniq, &enc, "e", 7, &content).unwrap();
    assert_eq!(entity_get(&s, "a"), Some(&Types::Integer(130)));
    assert_eq!(floats, vec!["b".to_string()]);
    let mut enc = Encryption::new();
    enc.create_with_encryption("e", vec!["b".to_string()]);
    assert!(matches!(
        update_content_step(&ctx, &mut uniq, &enc, "e", 7, &content),
        Err(Error::UpdateContentEncryptKeys(keys)) if keys == vec!["b".to_string()]
    ));
}

#[test]
fn delete_restores_the_earlier_state() {
    let ctx = context();
    let current = delete_check(&ctx, "e", 7).unwrap();
    assert_eq!(current.offset, 3);
    assert!(matches!(delete_check(&ctx, "e", 9), Err(Error::UuidNotCreatedForEntity(_, 9))));
    let (_, insert_line) = insert_entity_content("D", Some(7), "e", "{}");
    match delete_step(&insert_line, current).unwrap() {
        DeleteSource::Empty(r) => assert_eq!(r.offset, 3),
        _ => panic!("an insertion leaves an empty state"),
    }
    let update_line = update_set_entity_content("D", 7, "e", "{c}", "{s}", "(reg)");
    match delete_step(&update_line, register(0)).unwrap() {
        DeleteSource::Earlier(t) => assert_eq!(t, "(reg)"),
        _ => panic!("an update names its earlier register"),
    }
}

fn join_context() -> LocalContext {
    let mut ctx = LocalContext::new();
    ctx.create_entity("entity_A").unwrap();
    ctx.create_entity("entity_B").unwrap();
    let a = vec![
        entity(vec![("a", Types::Integer(123)), ("b", float(12.3))]),
        entity(vec![("a", Types::Integer(235)), ("b", float(12.3)), ("c", Types::Char('c'))]),
        entity(vec![("a", Types::Integer(235)), ("b", float(12.3)), ("c", Types::Char('d'))]),
    ];
    let b = vec![
        entity(vec![("a", Types::Integer(25)), ("b", float(12.3)), ("c", Types::Char('c')), ("tx_time", Types::DateTime(0, 0))]),
        entity(vec![("a", Types::Integer(475)), ("b", float(12.3)), ("c", Types::Char('d'))]),
        entity(vec![("a", Types::Integer(295)), ("b", float(12.3)), ("c", Types::Char('r'))]),
    ];
    for (i, s) in a.into_iter().enumerate() {
        ctx.put_registry("entity_A", Registry { id: i as u128 + 1, register: register(0), state: s });
    }
    for (i, s) in b.into_iter().enumerate() {
        ctx.put_registry("entity_B", Registry { id: i as u128 + 1, register: register(0), state: s });
    }
    ctx
}

#[test]
fn relation_test_test_join() {
    let ctx = join_context();
    let f = AlgebraFunctions::none();
    let (a, _) = wooridb::controllers::select_all(&ctx, "entity_A", &wooridb::ast::ToSelect::All, &f).unwrap();
    let (b, _) = wooridb::controllers::select_all(&ctx, "entity_B", &wooridb::ast::ToSelect::All, &f).unwrap();
    let joined = wooridb::join::join_results(&a, "c", &b, "c", "entity_B").unwrap();
    assert_eq!(joined.len(), 2);
    let first = &joined[0];
    assert_eq!(entity_get(first, "a:entity_B"), Some(&Types::Integer(25)));
    assert_eq!(entity_get(first, "b:entity_B"), Some(&float(12.3)));
    assert_eq!(entity_get(first, "c"), Some(&Types::Char('c')));
    assert_eq!(entity_get(first, "b"), Some(&float(12.3)));
    assert_eq!(entity_get(first, "a"), Some(&Types::Integer(235)));
    assert_eq!(entity_get(first, "c:entity_B"), None);
    assert_eq!(entity_get(first, "tx_time:entity_B"), None);
    assert_eq!(entity_get(&joined[1], "a:entity_B"), Some(&Types::Integer(475)));
    let mut g = AlgebraFunctions::none();
    g.group_by = Some("c".to_string());
    let (grouped, _) = wooridb::controllers::select_all(&ctx, "entity_B", &wooridb::ast::ToSelect::All, &g).unwrap();
    assert!(matches!(
        wooridb::join::join_results(&a, "c", &grouped, "c", "entity_B"),
        Err(Error::QueryFormat(m)) if m == "Join query not supported"
    ));
}

#[test]
fn encryption_hashes_the_plain_text() {
    assert_eq!(hash_input(&Types::Integer(-12)), Ok(Some("-12".to_string())));
    assert_eq!(hash_input(&Types::Char('x')), Ok(Some("x".to_string())));
    assert_eq!(hash_input(&Types::Boolean(true)), Ok(Some("true".to_string())));
    assert_eq!(hash_input(&Types::String("pswd".to_string())), Ok(Some("pswd".to_string())));
    assert_eq!(
        hash_input(&Types::Vector(vec![Types::Integer(1), Types::Char('a')])),
        Ok(Some("[Integer(1), Char('a')]".to_string()))
    );
    assert_eq!(hash_input(&float(1.5)), Ok(None));
    assert_eq!(hash_input(&Types::Nil), Err("Nil cannot be hashed".to_string()));
    assert_eq!(hash_input(&Types::Hash("h".to_string())), Err("Hash cannot be hashed".to_string()));
    match hash_value("secret", 4).unwrap() {
        Types::Hash(h) => {
            assert_ne!(h, "secret");
            assert!(bcrypt::verify("secret", &h).unwrap());
        }
        _ => panic!("a hash is expected"),
    }
}
