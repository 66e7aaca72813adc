use uuid::Uuid;
use wooridb::algebra::QueryResult;
use wooridb::ast::{AlgebraFunctions, ToSelect};
use wooridb::compare::entity_get;
use wooridb::context::{DataRegister, LocalContext, Registry};
use wooridb::controllers::{
    create_controller, delete_commit, evict_controller, insert_check, insert_commit, set_state,
    update_commit,
};
use wooridb::controllers::history_step;
use wooridb::debug::types_debug;
use wooridb::error::Error;
use wooridb::state::{history_fields, history_log_ok, state_log_ok};
use wooridb::tx::TxType;
use wooridb::log::{
    create_entity, delete_entity_content, insert_entity_content, update_content_entity_content,
};
use wooridb::when::{day_log_ok, read_day_log, within_range};
use wooridb::types::{Entity, Types};
use wooridb::uniques::{
    check_value_encryption_check, keys_to_encrypt, update_content_encryption_check, Encryption,
    Uniqueness,
};

fn entity(pairs: Vec<(&str, Types)>) -> Entity {
    let mut e = Entity::new();
    for (k, v) in pairs {
        e.insert(k.to_string(), v);
    }
    e
}

fn register(offset: usize) -> DataRegister {
    DataRegister { file_name: "data/2021_01_01.log".to_string(), offset, bytes_length: 10 }
}

fn id() -> u128 {
    Uuid::parse_str("936da01f-9abd-4d9d-80c7-02af85c822a8").unwrap().as_u128()
}

#[test]
fn create_then_duplicate_is_refused() {
    let mut ctx = LocalContext::new();
    let r = create_controller(&mut ctx, "test_ok".to_string()).unwrap();
    assert_eq!(r.tx_type, TxType::Create);
    assert_eq!(r.message, "Entity test_ok created");
    assert!(ctx.contains_entity("test_ok"));
    match create_controller(&mut ctx, "test_ok".to_string()) {
        Err(e) => assert_eq!(e.error_message(), "Entity `test_ok` already created"),
        Ok(_) => panic!("a second creation must fail"),
    }
}

#[test]
fn insert_into_missing_entity_is_refused() {
    let ctx = LocalContext::new();
    match insert_check(&ctx, "missing") {
        Err(e) => assert_eq!(e.error_message(), "Entity `missing` not created"),
        Ok(_) => panic!("the entity does not exist"),
    }
}

#[test]
fn insert_update_delete_evict() {
    let mut ctx = LocalContext::new();
    create_controller(&mut ctx, "e".to_string()).unwrap();
    assert!(insert_check(&ctx, "e").is_ok());
    let r = insert_commit(&mut ctx, "e".to_string(), id(), register(0), entity(vec![("a", Types::Integer(1))]));
    assert_eq!(r.uuid, Some(id()));
    assert_eq!(r.message, "Entity e inserted with Uuid 936da01f-9abd-4d9d-80c7-02af85c822a8");
    assert!(ctx.check_registry("e", id()).is_ok());
    assert!(matches!(ctx.check_registry("e", 5), Err(Error::UuidNotCreatedForEntity(_, 5))));
    assert!(matches!(ctx.check_registry("x", id()), Err(Error::EntityNotCreated(_))));

    let previous = &ctx.registry("e", id()).unwrap().state;
    let new_state = set_state(previous, &entity(vec![("a", Types::Integer(12)), ("c", Types::Nil)]));
    assert_eq!(entity_get(&new_state, "a"), Some(&Types::Integer(12)));
    assert_eq!(entity_get(&new_state, "c"), Some(&Types::Nil));
    let r = update_commit(
        &mut ctx,
        "e".to_string(),
        id(),
        register(20),
        new_state,
        "state".to_string(),
        TxType::UpdateSet,
    );
    assert_eq!(r.message, "Entity e with Uuid 936da01f-9abd-4d9d-80c7-02af85c822a8 updated");
    assert_eq!(ctx.registry("e", id()).unwrap().register.offset, 20);

    let r = delete_commit(&mut ctx, "e".to_string(), id(), "some-id", register(40), Entity::new());
    assert_eq!(r.tx_type, TxType::Delete);
    assert_eq!(r.message, "Entity e with Uuid some-id deleted");
    assert_eq!(ctx.registry("e", id()).unwrap().state.keys.len(), 0);

    let r = evict_controller(&mut ctx, "e".to_string(), Some(id()));
    assert_eq!(r.tx_type, TxType::EvictEntity);
    assert!(ctx.registry("e", id()).is_none());
    assert!(ctx.contains_entity("e"));
    let r = evict_controller(&mut ctx, "e".to_string(), None);
    assert_eq!(r.tx_type, TxType::EvictEntityTree);
    assert_eq!(r.message, "Entity e evicted");
    assert!(!ctx.contains_entity("e"));
}

#[test]
fn registries_come_in_identifier_order() {
    let mut ctx = LocalContext::new();
    ctx.create_entity("e").unwrap();
    for i in [5u128, 1, 3, 1].iter() {
        ctx.put_registry("e", Registry { id: *i, register: register(0), state: entity(vec![("n", Types::Integer(*i as isize))]) });
    }
    let states = ctx.states("e").unwrap();
    let ids: Vec<u128> = states.iter().map(|(id, _)| *id).collect();
    assert_eq!(ids, vec![1, 3, 5]);
    assert!(matches!(ctx.states("none"), Err(Error::EntityNotCreated(_))));
}

#[test]
fn debug_text_of_values() {
    assert_eq!(types_debug(&Types::Integer(123)), "Integer(123)");
    assert_eq!(types_debug(&Types::String("a".to_string())), "String(\"a\")");
    assert_eq!(types_debug(&Types::Char('c')), "Char('c')");
    assert_eq!(types_debug(&Types::Boolean(true)), "Boolean(true)");
    assert_eq!(types_debug(&Types::Nil), "Nil");
    assert_eq!(
        types_debug(&Types::Uuid(id())),
        "Uuid(936da01f-9abd-4d9d-80c7-02af85c822a8)"
    );
    assert_eq!(
        types_debug(&Types::Vector(vec![Types::Integer(1), Types::Nil])),
        "Vector([Integer(1), Nil])"
    );
    assert_eq!(
        types_debug(&Types::Mapping(entity(vec![("a", Types::Integer(1))]))),
        "Map({\"a\": Integer(1)})"
    );
    assert_eq!(types_debug(&Types::DateTime(0, 0)), "DateTime(1970-01-01T00:00:00Z)");
}

#[test]
fn unique_values_are_refused_twice() {
    let mut u = Uniqueness::new();
    u.create_with_unique_keys("test_insert_unique", &vec!["id".to_string()]);
    let first = entity(vec![("id", Types::Integer(123)), ("a", Types::String("hello".to_string()))]);
    assert!(u.check_for_unique_keys("test_insert_unique", &first).is_ok());
    let second = entity(vec![("id", Types::Integer(123)), ("a", Types::String("world".to_string()))]);
    match u.check_for_unique_keys("test_insert_unique", &second) {
        Err(e) => assert_eq!(
            e.error_message(),
            "key `id` in entity `test_insert_unique` already contains value `Integer(123)`"
        ),
        Ok(_) => panic!("a repeated unique value must be refused"),
    }
    let other = entity(vec![("id", Types::Integer(124))]);
    assert!(u.check_for_unique_keys("test_insert_unique", &other).is_ok());
    assert!(u.check_for_unique_keys("no_uniques", &second).is_ok());
}

#[test]
fn encrypted_keys() {
    let mut enc = Encryption::new();
    enc.create_with_encryption("e", vec!["pswd".to_string(), "ssn".to_string()]);
    let content = entity(vec![("name", Types::Nil), ("pswd", Types::Nil)]);
    assert_eq!(keys_to_encrypt(&enc, "e", &content), vec!["pswd".to_string()]);
    assert!(keys_to_encrypt(&enc, "other", &content).is_empty());
    match update_content_encryption_check(&enc, "e", &content) {
        Err(Error::UpdateContentEncryptKeys(keys)) => assert_eq!(keys, vec!["pswd".to_string()]),
        _ => panic!("an encrypted entity cannot take UPDATE CONTENT"),
    }
    assert!(update_content_encryption_check(&enc, "other", &content).is_ok());
    assert!(check_value_encryption_check(&enc, "e", &vec!["ssn".to_string()]).is_ok());
    match check_value_encryption_check(&enc, "e", &vec!["ssn".to_string(), "name".to_string()]) {
        Err(e) => assert_eq!(e.error_message(), "CHECK can only verify encrypted keys: [\"name\"]"),
        Ok(_) => panic!("name is not encrypted"),
    }
}

#[test]
fn history_of_a_line() {
    let line = "UPDATE_SET|DATE|id|e|{\"a\": Integer(2),}|{\"a\": Integer(3),}|(file_name: \"f\",);";
    assert!(history_log_ok(line));
    let (date, content, registry) = history_fields(line).unwrap();
    assert_eq!(date, "DATE");
    assert_eq!(content, "{\"a\": Integer(3),}");
    assert_eq!(registry, Some("(file_name: \"f\",)".to_string()));
    let (date, content, registry) = history_fields("INSERT|D|id|e|{};").unwrap();
    assert_eq!((date.as_str(), content.as_str(), registry), ("D", "{}", None));
    assert!(matches!(history_fields("EVICT_ENTITY|D|e;"), Err(Error::FailedToParseState)));
    assert!(state_log_ok("INSERT|x;"));
    assert!(!state_log_ok("INSERT|"));
}

#[test]
fn check_compares_hashes() {
    let hash = bcrypt::hash("secret", 4).unwrap();
    let state = entity(vec![("pswd", Types::Hash(hash)), ("name", Types::String("n".to_string()))]);
    let mut content = wooridb::ast::TextMap::new();
    content.insert("pswd".to_string(), "secret".to_string());
    content.insert("name".to_string(), "n".to_string());
    let r = wooridb::uniques::verify_encryption_checked(&state, &content).unwrap();
    assert_eq!(r, vec![("pswd".to_string(), true), ("name".to_string(), false)]);
    let mut wrong = wooridb::ast::TextMap::new();
    wrong.insert("pswd".to_string(), "other".to_string());
    let r = wooridb::uniques::verify_encryption_checked(&state, &wrong).unwrap();
    assert_eq!(r, vec![("pswd".to_string(), false)]);
    let broken = entity(vec![("pswd", Types::Hash("nope".to_string()))]);
    assert!(wooridb::uniques::verify_encryption_checked(&broken, &wrong).is_none());
}

#[test]
fn select_from_context() {
    let mut ctx = LocalContext::new();
    ctx.create_entity("e").unwrap();
    for i in 1..=4u128 {
        ctx.put_registry(
            "e",
            Registry {
                id: i,
                register: register(0),
                state: entity(vec![("a", Types::Integer(i as isize)), ("h", Types::Hash("x".to_string()))]),
            },
        );
    }
    let mut f = AlgebraFunctions::none();
    f.limit = Some(2);
    f.offset = Some(1);
    f.count = true;
    let (r, count) = wooridb::controllers::select_all(&ctx, "e", &ToSelect::All, &f).unwrap();
    assert_eq!(count, Some(2));
    match r {
        QueryResult::All(s) => {
            let ids: Vec<u128> = s.iter().map(|(id, _)| *id).collect();
            assert_eq!(ids, vec![2, 3]);
            assert_eq!(entity_get(&s[0].1, "h"), None);
        }
        _ => panic!("expected all registries"),
    }
    let one = wooridb::controllers::select_with_id(&ctx, "e", 3, &ToSelect::All).unwrap();
    assert_eq!(entity_get(&one, "a"), Some(&Types::Integer(3)));
    assert!(matches!(
        wooridb::controllers::select_with_id(&ctx, "e", 9, &ToSelect::All),
        Err(Error::UuidNotCreatedForEntity(_, 9))
    ));
    assert!(matches!(
        wooridb::controllers::select_all(&ctx, "z", &ToSelect::All, &f),
        Err(Error::EntityNotCreated(_))
    ));
}

#[test]
fn select_with_ids_reads_found_registries_in_order() {
    let mut ctx = LocalContext::new();
    ctx.create_entity("e").unwrap();
    for i in 1..=4u128 {
        let c = if i % 2 == 0 { Types::Char('x') } else { Types::Nil };
        ctx.put_registry(
            "e",
            Registry { id: i, register: register(0), state: entity(vec![("c", c)]) },
        );
    }
    let f = AlgebraFunctions::none();
    let (r, _) = wooridb::controllers::select_with_ids(&ctx, "e", &vec![4, 9, 2, 1], &ToSelect::All, &f).unwrap();
    match r {
        QueryResult::OptionSelect(s) => {
            let ids: Vec<u128> = s.iter().map(|(id, _)| *id).collect();
            assert_eq!(ids, vec![1, 2, 4]);
            assert!(s.iter().all(|(_, st)| st.is_some()));
        }
        _ => panic!("expected the selected registries"),
    }
    let mut f = AlgebraFunctions::none();
    f.dedup = Some("NIL(c)".to_string());
    let (r, _) = wooridb::controllers::select_with_ids(&ctx, "e", &vec![1, 2, 3, 4], &ToSelect::All, &f).unwrap();
    match r {
        QueryResult::OptionSelect(s) => {
            let ids: Vec<u128> = s.iter().map(|(id, _)| *id).collect();
            assert_eq!(ids, vec![1, 2, 4]);
            assert!(s.iter().all(|(_, st)| st.is_some()));
        }
        _ => panic!("expected the selected registries"),
    }
}

#[test]
fn history_window() {
    assert_eq!(history_step((10, 0), Some((5, 0)), Some((20, 0))), (true, false));
    assert_eq!(history_step((30, 0), Some((5, 0)), Some((20, 0))), (false, true));
    assert_eq!(history_step((1, 0), Some((5, 0)), Some((20, 0))), (false, false));
    assert_eq!(history_step((1, 0), Some((5, 0)), None), (false, false));
    assert_eq!(history_step((30, 0), None, Some((20, 0))), (false, true));
    assert_eq!(history_step((20, 0), None, Some((20, 0))), (true, false));
    assert_eq!(history_step((20, 0), None, None), (true, false));
}

#[test]
fn day_log_states_of_an_entity() {
    let (a, ins_a) = insert_entity_content("D1", Some(1), "e", "{a}");
    let (_, ins_b) = insert_entity_content("D2", Some(2), "e", "{b}");
    let (_, ins_other) = insert_entity_content("D3", Some(1), "f", "{f}");
    let upd = update_content_entity_content("D4", 1, "e", "{c}", "{a2}", "(reg)");
    let del = delete_entity_content("D5", 1, "e", "{}", "(reg)");
    let log = format!("{}{}{}{}{}{}", create_entity("e"), ins_a, ins_b, ins_other, upd, del);
    assert!(day_log_ok(&log));
    let all = read_day_log(&log, "e", None);
    let ids: Vec<u128> = all.iter().map(|(id, _, _)| Uuid::parse_str(id).unwrap().as_u128()).collect();
    assert_eq!(ids, vec![a, 2, 1]);
    let states: Vec<&str> = all.iter().map(|(_, _, s)| s.as_str()).collect();
    assert_eq!(states, vec!["{a}", "{b}", "{a2}"]);
    let one = read_day_log(&log, "e", Some(1));
    let dates: Vec<&str> = one.iter().map(|(_, d, _)| d.as_str()).collect();
    assert_eq!(dates, vec!["D1", "D4"]);
    assert!(read_day_log(&log, "g", None).is_empty());
    assert!(!day_log_ok("INSERT|D|x;"));
    assert!(within_range((5, 0), (4, 9), (5, 1)));
    assert!(!within_range((5, 0), (5, 0), (6, 0)));
    assert!(!within_range((6, 0), (5, 0), (6, 0)));
}
