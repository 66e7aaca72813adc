use wooridb::ast::{Clause, Function, MatchCondition, RelationType, TextMap, Value};
use wooridb::auth::controllers::{admin_info, new_user, open_session};
use wooridb::auth::models::{AdminInfo, Sessions};
use wooridb::auth::schemas::Role;
use wooridb::clauses::filter_where_clauses;
use wooridb::compare::types_same;
use wooridb::debug::{hash_input, hash_value, to_hash};
use wooridb::error::Error;
use wooridb::relation::intersect;
use wooridb::scheduler::{compress_decision, replace_str, should_compress, zipped_name};
use wooridb::state::match_update;
use wooridb::types::{Entity, FloatInfo, Types};
use wooridb::uniques::{encrypt_content, verify_encryption};

fn float(f: f64) -> Types {
    let bits = f.to_bits();
    let magnitude = (bits & 0x7fff_ffff_ffff_ffff) as i128;
    let order = if bits >> 63 == 1 { -magnitude } else { magnitude };
    let floor = f.floor();
    Types::Float(
        format!("{:?}", f),
        Some(FloatInfo { order, floor: floor as i128, fraction: f > floor }),
    )
}

fn nan() -> Types {
    Types::Float("NaN".to_string(), None)
}

fn entity(pairs: Vec<(&str, Types)>) -> Entity {
    let mut e = Entity::new();
    for (k, v) in pairs {
        e.insert(k.to_string(), v);
    }
    e
}

#[test]
fn admin_info_hashes_the_password_at_the_cost_given() {
    let admin = admin_info("your_admin".to_string(), "your_password", "4").unwrap();
    assert_eq!(admin.cost(), 4);
    assert!(admin.is_valid_hash("your_password", "your_admin"));
    assert!(!admin.is_valid_hash("other_password", "your_admin"));
    assert!(!admin.is_valid_hash("your_password", "other_admin"));
}

#[test]
fn admin_info_refuses_a_cost_bcrypt_does_not_take() {
    assert!(matches!(
        admin_info("your_admin".to_string(), "your_password", "3"),
        Err(Error::AdminNotConfigured)
    ));
    assert!(matches!(
        admin_info("your_admin".to_string(), "your_password", "32"),
        Err(Error::AdminNotConfigured)
    ));
}

#[test]
fn admin_info_defaults_to_cost_twelve() {
    let admin = admin_info("your_admin".to_string(), "pw", "not a number").unwrap();
    assert_eq!(admin.cost(), 12);
}

#[test]
fn non_ascii_admin_hash_is_not_valid() {
    let admin = AdminInfo::new("your_admin".to_string(), "ç$2b$04$".to_string(), 4);
    assert!(!admin.is_valid_hash("your_password", "your_admin"));
}

#[test]
fn new_user_checks_the_admin_and_hashes_the_password() {
    let admin = admin_info("your_admin".to_string(), "your_password", "4").unwrap();
    let user = new_user(&admin, "your_admin", "your_password", "my_password", vec![Role::User, Role::Read], 7)
        .unwrap();
    assert_eq!(user.id, 7);
    assert_eq!(user.roles, vec![Role::User, Role::Read]);
    assert!(bcrypt::verify("my_password", &user.user_password).unwrap());
    assert!(!bcrypt::verify("other", &user.user_password).unwrap());
}

#[test]
fn new_user_with_bad_admin_credentials() {
    let admin = admin_info("your_admin".to_string(), "your_password", "4").unwrap();
    let wrong_password = new_user(&admin, "your_admin", "wrong", "my_password", vec![Role::User], 7);
    assert!(matches!(wrong_password, Err(Error::AuthenticationBadRequest)));
    let wrong_id = new_user(&admin, "someone", "your_password", "my_password", vec![Role::User], 7);
    assert!(matches!(wrong_id, Err(Error::AuthenticationBadRequest)));
}

#[test]
fn open_session_with_the_right_password() {
    let hash = bcrypt::hash("my_password", 4).unwrap();
    let mut sessions = Sessions::new();
    let token = open_session(&mut sessions, "my_password", &hash, vec![Role::Read], (1000, 5), 42).unwrap();
    assert!(bcrypt::verify(uuid::Uuid::from_u128(42).to_string(), &token).unwrap());
    assert_eq!(sessions.tokens, vec![token]);
    assert_eq!(sessions.infos.len(), 1);
    assert_eq!(sessions.infos[0].expiration, (4600, 5));
    assert_eq!(sessions.infos[0].roles, vec![Role::Read]);
}

#[test]
fn open_session_with_a_wrong_password() {
    let hash = bcrypt::hash("my_password", 4).unwrap();
    let mut sessions = Sessions::new();
    assert_eq!(open_session(&mut sessions, "other", &hash, vec![Role::Read], (1000, 5), 42), None);
    assert!(sessions.tokens.is_empty());
    assert!(sessions.infos.is_empty());
}

#[test]
fn to_hash_hashes_the_text_of_the_value() {
    match to_hash(&Types::String("hello".to_string()), 4) {
        Ok(Some(Types::Hash(h))) => {
            assert!(bcrypt::verify("hello", &h).unwrap());
            assert!(!bcrypt::verify("", &h).unwrap());
        }
        other => panic!("unexpected {:?}", other),
    }
    match to_hash(&Types::Integer(-42), 4) {
        Ok(Some(Types::Hash(h))) => assert!(bcrypt::verify("-42", &h).unwrap()),
        other => panic!("unexpected {:?}", other),
    }
    match to_hash(&Types::Boolean(true), 4) {
        Ok(Some(Types::Hash(h))) => assert!(bcrypt::verify("true", &h).unwrap()),
        other => panic!("unexpected {:?}", other),
    }
}

#[test]
fn to_hash_of_values_that_cannot_be_hashed() {
    assert_eq!(to_hash(&Types::Nil, 4), Err("Nil cannot be hashed".to_string()));
    assert_eq!(to_hash(&Types::Hash("h".to_string()), 4), Err("Hash cannot be hashed".to_string()));
    assert_eq!(to_hash(&float(1.5), 4), Ok(None));
    assert!(to_hash(&Types::String("hello".to_string()), 3).is_err());
}

#[test]
fn hash_value_refuses_a_bad_cost() {
    assert!(hash_value("secret", 3).is_err());
    assert!(hash_value("secret", 32).is_err());
}

#[test]
fn integer_text_is_its_decimal_text() {
    assert_eq!(hash_input(&Types::Integer(0)), Ok(Some("0".to_string())));
    assert_eq!(hash_input(&Types::Integer(-120)), Ok(Some("-120".to_string())));
    assert_eq!(hash_input(&Types::Integer(isize::MIN)), Ok(Some(isize::MIN.to_string())));
    assert_eq!(hash_input(&Types::Integer(isize::MAX)), Ok(Some(isize::MAX.to_string())));
}

#[test]
fn encrypted_value_is_confirmed_by_check() {
    let content = entity(vec![
        ("name", Types::String("my name".to_string())),
        ("pswd", Types::String("my password".to_string())),
    ]);
    let stored = encrypt_content(&content, &vec!["pswd".to_string()], 4).unwrap();
    assert_eq!(stored.get(&"name".to_string()), Some(&Types::String("my name".to_string())));
    assert!(matches!(stored.get(&"pswd".to_string()), Some(Types::Hash(_))));
    let check = TextMap {
        keys: vec!["pswd".to_string()],
        values: vec!["my password".to_string()],
    };
    assert_eq!(verify_encryption(&stored, &check), vec![("pswd".to_string(), true)]);
    let wrong = TextMap {
        keys: vec!["pswd".to_string()],
        values: vec!["other".to_string()],
    };
    assert_eq!(verify_encryption(&stored, &wrong), vec![("pswd".to_string(), false)]);
}

#[test]
fn encrypt_content_refuses_a_nil_value() {
    let content = entity(vec![("pswd", Types::Nil)]);
    assert_eq!(
        encrypt_content(&content, &vec!["pswd".to_string()], 4).map(|e| e.keys.len()),
        Err("Nil cannot be hashed".to_string())
    );
    assert_eq!(encrypt_content(&content, &vec!["other".to_string()], 4).map(|e| e.keys.len()), Ok(1));
}

#[test]
fn floats_are_equal_by_their_number() {
    assert!(types_same(&float(-0.0), &float(0.0)));
    assert!(types_same(&float(1.5), &float(1.5)));
    assert!(!types_same(&float(1.5), &float(2.5)));
    assert!(!types_same(&nan(), &nan()));
    assert!(types_same(
        &Types::Vector(vec![float(-0.0), Types::Integer(1)]),
        &Types::Vector(vec![float(0.0), Types::Integer(1)])
    ));
    assert!(!types_same(&Types::Vector(vec![nan()]), &Types::Vector(vec![nan()])));
    assert!(!types_same(&Types::Integer(1), &float(1.0)));
}

#[test]
fn where_eq_compares_floats_by_number() {
    let states = vec![
        (1, entity(vec![("a", float(-0.0))])),
        (2, entity(vec![("a", float(1.0))])),
        (3, entity(vec![("a", nan())])),
    ];
    let clauses = vec![
        Clause::ValueAttribution("e".to_string(), "a".to_string(), Value("?a".to_string())),
        Clause::SimpleComparisonFunction(Function::Eq, "?a".to_string(), float(0.0)),
    ];
    let r = filter_where_clauses(&states, &clauses);
    let ids: Vec<u128> = r.iter().map(|(id, _)| *id).collect();
    assert_eq!(ids, vec![1]);
    let clauses = vec![
        Clause::ValueAttribution("e".to_string(), "a".to_string(), Value("?a".to_string())),
        Clause::SimpleComparisonFunction(Function::NotEq, "?a".to_string(), nan()),
    ];
    let r = filter_where_clauses(&states, &clauses);
    let ids: Vec<u128> = r.iter().map(|(id, _)| *id).collect();
    assert_eq!(ids, vec![1, 2, 3]);
}

#[test]
fn match_eq_compares_floats_by_number() {
    let previous = entity(vec![("a", float(0.0))]);
    let cond = MatchCondition::All(vec![MatchCondition::Eq("a".to_string(), float(-0.0))]);
    assert!(match_update(&cond, &previous).is_ok());
    let cond = MatchCondition::All(vec![MatchCondition::Eq("a".to_string(), nan())]);
    assert!(matches!(
        match_update(&cond, &entity(vec![("a", nan())])),
        Err(Error::FailedMatchCondition)
    ));
}

#[test]
fn intersect_key_value_keeps_the_second_value() {
    let f = entity(vec![("a", float(0.0)), ("b", Types::Integer(1)), ("c", nan())]);
    let s = entity(vec![("a", float(-0.0)), ("b", Types::Integer(2)), ("c", nan())]);
    let r = intersect(&f, &s, RelationType::KeyValue);
    assert_eq!(r.keys, vec!["a".to_string()]);
    assert_eq!(r.values, vec![float(-0.0)]);
}

#[test]
fn replace_str_replaces_each_occurrence() {
    assert_eq!(replace_str("2021_01_02.log", ".log", ""), "2021_01_02");
    assert_eq!(replace_str("a.log.log", ".log", "!"), "a!!");
    assert_eq!(replace_str("no match", ".log", ""), "no match");
    assert_eq!(zipped_name("2021_01_02.log"), "2021_01_02.zst");
}

#[test]
fn the_daily_task_compresses_dated_logs() {
    // 2021-01-02T00:00:00Z
    let day = 1_609_545_600i64;
    assert!(should_compress("2021_01_02.log", (day, 0)));
    assert!(should_compress("2021_01_02.log", (day - 864_000 + 1, 0)));
    assert!(!should_compress("2021_01_02.log", (day - 864_000, 0)));
    assert!(!should_compress("users_info.log", (day, 0)));
    assert!(!should_compress("notes.txt", (day, 0)));
    assert!(compress_decision(Some((day, 0)), (day, 0)));
    assert!(!compress_decision(None, (day, 0)));
}

#[test]
fn opened_session_validates_until_it_expires() {
    let hash = bcrypt::hash("my_password", 4).unwrap();
    let mut sessions = Sessions::new();
    let token = open_session(&mut sessions, "my_password", &hash, vec![Role::Read], (1000, 0), 1).unwrap();
    assert_eq!(sessions.validate_token_at(Some(&token), &vec![Role::Read], (4599, 0)), Some(true));
    assert_eq!(sessions.validate_token_at(Some(&token), &vec![Role::Write], (4599, 0)), Some(false));
    assert_eq!(sessions.validate_token_at(Some(&token), &vec![Role::Read], (4600, 0)), Some(false));
    assert_eq!(sessions.validate_token_at(Some("other"), &vec![Role::Read], (4599, 0)), None);
}
