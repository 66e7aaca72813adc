use chrono::Utc;
use uuid::Uuid;
use wooridb::auth::models::{password_matches, AdminInfo, SessionInfo, Sessions, User, UserRegistry};
use wooridb::auth::schemas::Role;
use wooridb::auth::middlewares::{history_validator, history_validator_at, wql_validator, wql_validator_at};
use wooridb::error::Error;
use wooridb::log::{
    create_entity, delete_entity_content, evict_entity_content, evict_entity_id_content,
    insert_entity_content, update_content_entity_content, update_set_entity_content,
};
use wooridb::model::Action;
use wooridb::types::{Entity, Types};
use wooridb::tx::{
    CreateEntityResponse, DeleteOrEvictEntityResponse, InsertEntityResponse, TxResponse, TxType,
    UpdateEntityResponse,
};

fn now_text() -> String {
    Utc::now().to_string()
}

#[test]
fn from_str() {
    assert_eq!(Action::from(String::from("READ")), Action::Read);
    assert_eq!(
        Action::from(String::from("CREATE_ENTITY")),
        Action::CreateEntity
    );
    assert_eq!(Action::from(String::from("INSERT")), Action::Insert);
    assert_eq!(Action::from(String::from("DELETE")), Action::Delete);
    assert_eq!(Action::from(String::from("UPDATE_SET")), Action::UpdateSet);
    assert_eq!(
        Action::from(String::from("UPDATE_CONTENT")),
        Action::UpdateContent
    );
}

#[test]
fn action_unknown_name_is_error() {
    assert_eq!(Action::from(String::from("read")), Action::Error);
    assert_eq!(Action::from(String::from("")), Action::Error);
    assert_eq!(Action::from(String::from("EVICT_ENTITY")), Action::EvictEntity);
    assert_eq!(
        Action::from(String::from("EVICT_ENTITY_ID")),
        Action::EvictEntityId
    );
}

#[test]
fn action_names_round_trip() {
    let all = [
        Action::CreateEntity,
        Action::Insert,
        Action::Read,
        Action::UpdateSet,
        Action::UpdateContent,
        Action::Delete,
        Action::EvictEntity,
        Action::EvictEntityId,
    ];
    for a in all.iter() {
        assert_eq!(Action::from(a.to_string()), *a);
    }
    assert_eq!(Action::Error.to_string(), "Error");
}

#[test]
fn create_entity_test() {
    let s = create_entity(&"my_entity".to_string());
    assert_eq!(s, "CREATE_ENTITY|my_entity;");
}

#[test]
fn insert_entity_test() {
    let (_, s) = insert_entity_content(&now_text(), None, "my_entity", "suppose this is a log");

    assert!(s.contains("INSERT"));
    assert!(s.contains("my_entity"));
    assert!(s.contains("suppose this is a log"));
}

#[test]
fn insert_entitywith_uuid_test() {
    let uuid = Uuid::new_v4();
    let (id, s) = insert_entity_content(
        &now_text(),
        Some(uuid.as_u128()),
        "my_entity",
        "suppose this is a log",
    );

    assert_eq!(id, uuid.as_u128());
    assert!(s.contains("INSERT"));
    assert!(s.contains("my_entity"));
    assert!(s.contains(&uuid.to_string()));
    assert!(s.contains("suppose this is a log"));
}

#[test]
fn insert_line_exact() {
    let id = Uuid::parse_str("936da01f-9abd-4d9d-80c7-02af85c822a8").unwrap();
    let (_, s) = insert_entity_content("DATE", Some(id.as_u128()), "e", "{}");
    assert_eq!(s, "INSERT|DATE|936da01f-9abd-4d9d-80c7-02af85c822a8|e|{};");
}

#[test]
fn update_set_entity_content_test() {
    let id = uuid::Uuid::new_v4();
    let s = update_set_entity_content(&now_text(), id.as_u128(), "my-entity", "log", "state", "reg");
    assert!(s.contains("UPDATE_SET"));
    assert!(s.contains("my-entity"));
    assert!(s.contains("state"));
    assert!(s.contains("log"));
    assert!(s.contains("reg"));
}

#[test]
fn update_content_entity_content_test() {
    let id = uuid::Uuid::new_v4();
    let s =
        update_content_entity_content(&now_text(), id.as_u128(), "my-entity", "log", "state", "reg");
    assert!(s.contains("UPDATE_CONTENT"));
    assert!(s.contains("my-entity"));
    assert!(s.contains("state"));
    assert!(s.contains("log"));
    assert!(s.contains("reg"));
}

#[test]
fn update_line_exact() {
    let s = update_set_entity_content("D", 0, "n", "c", "s", "p");
    assert_eq!(s, "UPDATE_SET|D|00000000-0000-0000-0000-000000000000|n|c|s|p;");
}

#[test]
fn delete_entity_test() {
    let id = uuid::Uuid::new_v4();
    let s = delete_entity_content(&now_text(), id.as_u128(), "my-entity", "log", "reg");
    assert!(s.contains("DELETE"));
    assert!(s.contains("my-entity"));
    assert!(s.contains("log"));
    assert!(s.contains("reg"));
}

#[test]
fn evict_entity_test() {
    let entity = "hello";

    let actual = evict_entity_content(&now_text(), &entity);

    assert!(actual.starts_with("EVICT_ENTITY"));
    assert!(actual.contains("hello"))
}

#[test]
fn evict_entity_id_test() {
    let uuid = Uuid::new_v4();

    let actual = evict_entity_id_content(&now_text(), uuid.as_u128(), "hello");

    assert!(actual.starts_with("EVICT_ENTITY_ID"));
    assert!(actual.contains("hello"));
    assert!(actual.contains(&uuid.to_string()));
}

#[test]
fn evict_line_exact() {
    assert_eq!(evict_entity_content("X", "e"), "EVICT_ENTITY|X|e;");
}

#[test]
fn tx_responses_carry_their_fields() {
    let c = TxResponse::from_create(CreateEntityResponse::new("e".to_string(), "m".to_string()));
    assert_eq!(c.tx_type, TxType::Create);
    assert_eq!(c.entity, "e");
    assert_eq!(c.uuid, None);
    assert_eq!(c.state, "");
    assert_eq!(c.message, "m");

    let i = TxResponse::from_insert(InsertEntityResponse::new("e".to_string(), 7, "m".to_string()));
    assert_eq!(i.tx_type, TxType::Insert);
    assert_eq!(i.uuid, Some(7));

    let d = TxResponse::from_delete_or_evict(DeleteOrEvictEntityResponse::new(
        "e".to_string(),
        None,
        "gone".to_string(),
        TxType::EvictEntity,
    ));
    assert_eq!(d.tx_type, TxType::EvictEntity);
    assert_eq!(d.uuid, None);
    assert_eq!(d.message, "gone");

    let u = TxResponse::from_update(UpdateEntityResponse::new(
        "e".to_string(),
        9,
        "st".to_string(),
        "m".to_string(),
        TxType::UpdateSet,
    ));
    assert_eq!(u.tx_type, TxType::UpdateSet);
    assert_eq!(u.uuid, Some(9));
    assert_eq!(u.state, "st");
}

#[test]
fn admin_info_checks_password_and_id() {
    let hash = bcrypt::hash("secret", 4).unwrap();
    let admin = AdminInfo::new("admin".to_string(), hash, 4);
    assert_eq!(admin.cost(), 4);
    assert!(admin.has_ascii_hash());
    assert!(admin.is_valid_hash("secret", "admin"));
    assert!(!admin.is_valid_hash("secret", "other"));
    assert!(!admin.is_valid_hash("wrong", "admin"));
    let broken = AdminInfo::new("admin".to_string(), "not a hash".to_string(), 4);
    assert!(!broken.is_valid_hash("secret", "admin"));
}

#[test]
fn users_and_sessions() {
    let u = User::new(3, "h".to_string(), vec![Role::Read]);
    assert_eq!(u.id, 3);
    let reg = UserRegistry {
        id: 3,
        hash: "h".to_string(),
        roles: vec![Role::User, Role::History],
        date: (0, 0),
    };
    let (h, roles) = reg.context();
    assert_eq!(h, "h");
    assert_eq!(roles, vec![Role::User, Role::History]);

    let s = SessionInfo::new((100, 5), vec![Role::Read, Role::Write]);
    assert!(s.is_valid_role(&vec![Role::History, Role::Write]));
    assert!(!s.is_valid_role(&vec![Role::History, Role::User]));
    assert!(!s.is_valid_role(&vec![]));
    assert!(s.is_valid_date_at((100, 4)));
    assert!(!s.is_valid_date_at((100, 5)));
    assert!(!s.is_valid_date_at((101, 0)));
    assert!(!s.is_valid_date());
    let far = SessionInfo::new((i64::MAX, 0), vec![]);
    assert!(far.is_valid_date());
}

#[test]
fn error_reports() {
    let e = Error::EntityAlreadyCreated("test_ok".to_string());
    assert_eq!(e.error_type(), "EntityAlreadyCreated");
    assert_eq!(e.error_message(), "Entity `test_ok` already created");
    assert_eq!(e.status(), 422);

    let e = Error::EntityNotCreated("missing".to_string());
    assert_eq!(e.error_message(), "Entity `missing` not created");
    assert_eq!(e.status(), 400);

    let e = Error::QueryFormat("a \"b\"".to_string());
    assert_eq!(e.error_message(), "\"a \\\"b\\\"\"");

    let id = Uuid::parse_str("936da01f-9abd-4d9d-80c7-02af85c822a8").unwrap();
    let e = Error::UuidNotCreatedForEntity("test_update".to_string(), id.as_u128());
    assert_eq!(
        e.error_message(),
        "Uuid 936da01f-9abd-4d9d-80c7-02af85c822a8 not created for entity test_update"
    );

    let e = Error::DuplicatedUnique(
        "test_insert_unique".to_string(),
        "id".to_string(),
        "Integer(123)".to_string(),
    );
    assert_eq!(
        e.error_message(),
        "key `id` in entity `test_insert_unique` already contains value `Integer(123)`"
    );

    let e = Error::CheckNonEncryptedKeys(vec!["a".to_string(), "b".to_string()]);
    assert_eq!(e.error_message(), "CHECK can only verify encrypted keys: [\"a\", \"b\"]");
    let e = Error::UpdateContentEncryptKeys(vec![]);
    assert_eq!(
        e.error_message(),
        "Encrypted keys cannont be updated with UPDATE CONTENT: []"
    );

    let e = Error::AuthenticationBadRequestBody("x".to_string());
    assert_eq!(e.error_type(), "AuthenticationBadRequest");
    assert_eq!(e.error_message(), "Bad request: x");
    assert_eq!(e.status(), 403);

    assert_eq!(Error::Unknown.error_message(), "Request credentials failed");
    assert_eq!(Error::LockData.status(), 503);
    assert_eq!(Error::FailedMatchCondition.status(), 412);
    assert_eq!(Error::SelectBadRequest.status(), 405);
    assert_eq!(Error::AdminNotConfigured.status(), 401);
}

#[test]
fn sessions_grant_roles_until_they_expire() {
    let mut sessions = Sessions::new();
    sessions.insert("tok".to_string(), SessionInfo::new((100, 0), vec![Role::Write, Role::User]));
    assert_eq!(sessions.validate_token_at(Some("tok"), &vec![Role::Write], (50, 0)), Some(true));
    assert_eq!(sessions.validate_token_at(Some("tok"), &vec![Role::History], (50, 0)), Some(false));
    assert_eq!(sessions.validate_token_at(Some("tok"), &vec![Role::Write], (150, 0)), Some(false));
    assert_eq!(sessions.validate_token_at(Some("other"), &vec![Role::Write], (50, 0)), None);
    assert_eq!(sessions.validate_token_at(None, &vec![Role::Write], (50, 0)), None);
    sessions.insert("tok".to_string(), SessionInfo::new((i64::MAX, 0), vec![Role::Read]));
    assert_eq!(sessions.validate_token(Some("tok"), &vec![Role::Read]), Some(true));

    let hash = bcrypt::hash("my_password", 4).unwrap();
    assert!(password_matches("my_password", &hash));
    assert!(!password_matches("another_pswd", &hash));
    assert!(!password_matches("my_password", "not a hash"));
}

#[test]
fn validators_guard_endpoints_by_role() {
    let mut sessions = Sessions::new();
    sessions.insert("writer".to_string(), SessionInfo::new((100, 0), vec![Role::Write]));
    sessions.insert("reader".to_string(), SessionInfo::new((100, 0), vec![Role::Read]));
    sessions.insert("user".to_string(), SessionInfo::new((100, 0), vec![Role::User]));
    sessions.insert("historian".to_string(), SessionInfo::new((100, 0), vec![Role::History]));
    let now = (50, 0);
    assert!(wql_validator_at(&sessions, "/wql/tx", "writer", now).is_ok());
    assert!(matches!(
        wql_validator_at(&sessions, "/wql/tx", "reader", now),
        Err(Error::AuthenticationBadRequest)
    ));
    assert!(wql_validator_at(&sessions, "/wql/query", "reader", now).is_ok());
    assert!(wql_validator_at(&sessions, "/wql/query", "writer", now).is_err());
    assert!(wql_validator_at(&sessions, "/wql/query", "user", now).is_ok());
    assert!(wql_validator_at(&sessions, "/wql/tx", "nobody", now).is_err());
    assert!(wql_validator_at(&sessions, "/ping", "nobody", now).is_ok());
    assert!(wql_validator_at(&sessions, "/wql/tx", "writer", (100, 0)).is_err());
    assert!(history_validator_at(&sessions, "/entity-history", "historian", now).is_ok());
    assert!(history_validator_at(&sessions, "/entity-history", "reader", now).is_err());
    assert!(history_validator_at(&sessions, "/wql/tx", "reader", now).is_ok());
    assert!(wql_validator(&sessions, "/wql/tx", "writer").is_err());
    assert!(history_validator(&sessions, "/other", "x").is_ok());
}

#[test]
fn tx_time_refuses_its_own_key() {
    let mut content = Entity::new();
    content.insert("a".to_string(), Types::Integer(1));
    let (secs, _) = wooridb::tx::tx_time(&content).unwrap();
    assert!(secs > 1_600_000_000);
    content.insert("tx_time".to_string(), Types::Integer(2));
    let e = wooridb::tx::tx_time(&content).unwrap_err();
    assert!(matches!(e, Error::KeyTxTimeNotAllowed));
    assert_eq!(e.status(), 400);
    assert_eq!(e.error_type(), "KeyTxTimeNotAllowed");
}
