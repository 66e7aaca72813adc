//! The errors of the database, the kind and message under which each is
//! reported, and the HTTP status that answers it.

use vstd::prelude::*;
use crate::log::{uuid_text, uuid_to_string};
use crate::text::{append_str, string_of};

verus! {

/// An error of the database. Errors raised by the system or by outside
/// libraries carry the `Debug` text of the underlying error.
#[derive(Debug)]
pub enum Error {
    Io(String),
    QueryFormat(String),
    EntityAlreadyCreated(String),
    EntityNotCreated(String),
    EntityNotCreatedWithUniqueness(String),
    Serialization(String),
    UuidNotCreatedForEntity(String, u128),
    FailedToParseState,
    FailedToParseRegistry,
    UnknownCondition,
    FailedMatchCondition,
    /// Entity, key, and the `Debug` text of the duplicated value.
    DuplicatedUnique(String, String, String),
    SelectBadRequest,
    NonSelectQuery,
    ActixMailbox(String),
    LockData,
    Ron(String),
    InvalidUuid(String),
    UpdateContentEncryptKeys(Vec<String>),
    CheckNonEncryptedKeys(Vec<String>),
    DateTimeParse(String),
    FailedToParseDate,
    AdminNotConfigured,
    AuthorizationBadRequest,
    AuthenticationBadRequest,
    AuthenticationBadRequestBody(String),
    FailedToCreateUser,
    FailedToDeleteUsers,
    /// The content of a transaction names the key `tx_time`, which the
    /// database writes itself.
    KeyTxTimeNotAllowed,
    Unknown,
}

/// `format!("{:?}", s)` of a string: the string quoted, with escapes.
pub uninterp spec fn debug_str(s: Seq<char>) -> Seq<char>;

/// Calls `format!("{:?}", s)`; the characters of the result are named
/// `debug_str(s@)`.
#[verifier::external_body]
pub(crate) fn debug_string(s: &str) -> (r: String)
    ensures
        r@ == debug_str(s@),
{
    format!("{:?}", s)
}

/// The quoted items, separated by `, `.
pub open spec fn debug_items(ks: Seq<Seq<char>>) -> Seq<char>
    decreases ks.len(),
{
    if ks.len() == 0 {
        Seq::empty()
    } else if ks.len() == 1 {
        debug_str(ks[0])
    } else {
        debug_items(ks.drop_last()) + ", "@ + debug_str(ks.last())
    }
}

/// `format!("{:?}", v)` of a vector of strings.
pub open spec fn debug_list(ks: Seq<Seq<char>>) -> Seq<char> {
    "["@ + debug_items(ks) + "]"@
}

fn debug_string_list(ks: &Vec<String>) -> (r: String)
    ensures
        r@ == debug_list(ks@.map_values(|k: String| k@)),
{
    let ghost kv = ks@.map_values(|k: String| k@);
    let mut v: Vec<char> = Vec::new();
    append_str(&mut v, "[");
    let ghost open = v@;
    let mut i: usize = 0;
    assert(debug_items(kv.subrange(0, 0)) =~= Seq::<char>::empty());
    assert(v@ =~= open + debug_items(kv.subrange(0, 0)));
    while i < ks.len()
        invariant
            i <= ks.len(),
            kv == ks@.map_values(|k: String| k@),
            v@ == open + debug_items(kv.subrange(0, i as int)),
        decreases ks.len() - i,
    {
        if i > 0 {
            append_str(&mut v, ", ");
        }
        let d = debug_string(ks[i].as_str());
        append_str(&mut v, d.as_str());
        assert(kv.subrange(0, i + 1).drop_last() =~= kv.subrange(0, i as int));
        assert(kv.subrange(0, i + 1).last() == ks@[i as int]@);
        assert(i == 0 ==> kv.subrange(0, i + 1)[0] == ks@[i as int]@);
        assert(v@ =~= open + debug_items(kv.subrange(0, i + 1)));
        i = i + 1;
    }
    append_str(&mut v, "]");
    assert(kv.subrange(0, ks.len() as int) =~= kv);
    string_of(&v)
}

/// The kind of an error, as reported.
pub open spec fn error_type_text(e: Error) -> Seq<char> {
    match e {
        Error::Io(_) => "IO"@,
        Error::QueryFormat(_) => "QueryFormat"@,
        Error::EntityAlreadyCreated(_) => "EntityAlreadyCreated"@,
        Error::EntityNotCreated(_) => "EntityNotCreated"@,
        Error::EntityNotCreatedWithUniqueness(_) => "EntityNotCreatedWithUniqueness"@,
        Error::Serialization(_) => "Serialization"@,
        Error::UuidNotCreatedForEntity(_, _) => "UuidNotCreatedForEntity"@,
        Error::FailedToParseState => "FailedToParseState"@,
        Error::FailedToParseRegistry => "FailedToParseRegistry"@,
        Error::UnknownCondition => "UnknownCondition"@,
        Error::FailedMatchCondition => "FailedMatchCondition"@,
        Error::DuplicatedUnique(_, _, _) => "DuplicatedUnique"@,
        Error::SelectBadRequest => "SelectBadRequest"@,
        Error::NonSelectQuery => "NonSelectQuery"@,
        Error::ActixMailbox(_) => "ActixMailbox"@,
        Error::LockData => "LockData"@,
        Error::Ron(_) => "Ron"@,
        Error::InvalidUuid(_) => "InvalidUuid"@,
        Error::UpdateContentEncryptKeys(_) => "UpdateContentEncryptKeys"@,
        Error::CheckNonEncryptedKeys(_) => "CheckNonEncryptedKeys"@,
        Error::DateTimeParse(_) => "DateTimeParse"@,
        Error::FailedToParseDate => "FailedToParseDate"@,
        Error::AdminNotConfigured => "AdminNotConfigured"@,
        Error::AuthorizationBadRequest => "AuthorizationBadRequest"@,
        Error::AuthenticationBadRequest => "AuthenticationBadRequest"@,
        Error::AuthenticationBadRequestBody(_) => "AuthenticationBadRequest"@,
        Error::FailedToCreateUser => "FailedToCreateUser"@,
        Error::FailedToDeleteUsers => "FailedToDeleteUsers"@,
        Error::KeyTxTimeNotAllowed => "KeyTxTimeNotAllowed"@,
        Error::Unknown => "Unknown"@,
    }
}

/// The message of an error, as reported.
pub open spec fn error_message_text(e: Error) -> Seq<char> {
    match e {
        Error::Io(d) => d@,
        Error::QueryFormat(s) => debug_str(s@),
        Error::EntityAlreadyCreated(s) => "Entity `"@ + s@ + "` already created"@,
        Error::EntityNotCreated(s) => "Entity `"@ + s@ + "` not created"@,
        Error::EntityNotCreatedWithUniqueness(s) => "Entity `"@ + s@ + "` not created"@,
        Error::Serialization(d) => d@,
        Error::UuidNotCreatedForEntity(s, id) => "Uuid "@ + uuid_text(id) + " not created for entity "@
            + s@,
        Error::FailedToParseState => "Failed to parse state"@,
        Error::FailedToParseRegistry => "Failed to parse registry"@,
        Error::UnknownCondition => "UNKNOWN MATCH CONDITION"@,
        Error::FailedMatchCondition => "One or more MATCH CONDITIONS failed"@,
        Error::DuplicatedUnique(entity, key, t) => "key `"@ + key@ + "` in entity `"@ + entity@
            + "` already contains value `"@ + t@ + "`"@,
        Error::SelectBadRequest => "SELECT expressions are handled by `/wql/query` endpoint"@,
        Error::NonSelectQuery => "Non-SELECT expressions are handled by `/wql/tx` endpoint"@,
        Error::ActixMailbox(d) => d@,
        Error::LockData => "System was not able to get a lock on data"@,
        Error::Ron(d) => d@,
        Error::InvalidUuid(d) => d@,
        Error::UpdateContentEncryptKeys(keys) => "Encrypted keys cannont be updated with UPDATE CONTENT: "@
            + debug_list(keys@.map_values(|k: String| k@)),
        Error::CheckNonEncryptedKeys(keys) => "CHECK can only verify encrypted keys: "@ + debug_list(
            keys@.map_values(|k: String| k@),
        ),
        Error::DateTimeParse(d) => "Date parse error: "@ + d@,
        Error::FailedToParseDate => "Log date parse error"@,
        Error::AdminNotConfigured => "Admin credentials not configured"@,
        Error::AuthorizationBadRequest => "Bad request at authorizing endpoint"@,
        Error::AuthenticationBadRequest => "Bad request at authenticating endpoint"@,
        Error::AuthenticationBadRequestBody(s) => "Bad request: "@ + s@,
        Error::FailedToCreateUser => "Failed to create requested user"@,
        Error::FailedToDeleteUsers => "Failed to delete requested users"@,
        Error::KeyTxTimeNotAllowed => "Key `tx_time` is not allowed"@,
        Error::Unknown => "Request credentials failed"@,
    }
}

/// The HTTP status code that answers an error.
pub open spec fn status_of(e: Error) -> u16 {
    match e {
        Error::Io(_) => 500,
        Error::QueryFormat(_) => 400,
        Error::EntityAlreadyCreated(_) => 422,
        Error::EntityNotCreated(_) => 400,
        Error::EntityNotCreatedWithUniqueness(_) => 400,
        Error::Serialization(_) => 500,
        Error::UuidNotCreatedForEntity(_, _) => 400,
        Error::FailedToParseState => 500,
        Error::FailedToParseRegistry => 500,
        Error::UnknownCondition => 500,
        Error::FailedMatchCondition => 412,
        Error::DuplicatedUnique(_, _, _) => 400,
        Error::SelectBadRequest => 405,
        Error::NonSelectQuery => 405,
        Error::ActixMailbox(_) => 500,
        Error::LockData => 503,
        Error::Ron(_) => 500,
        Error::InvalidUuid(_) => 400,
        Error::UpdateContentEncryptKeys(_) => 400,
        Error::CheckNonEncryptedKeys(_) => 400,
        Error::DateTimeParse(_) => 500,
        Error::FailedToParseDate => 500,
        Error::AdminNotConfigured => 401,
        Error::AuthorizationBadRequest => 401,
        Error::AuthenticationBadRequest => 403,
        Error::AuthenticationBadRequestBody(_) => 403,
        Error::FailedToCreateUser => 400,
        Error::FailedToDeleteUsers => 400,
        Error::KeyTxTimeNotAllowed => 400,
        Error::Unknown => 500,
    }
}

fn text3(a: &str, b: &str, c: &str) -> (r: String)
    ensures
        r@ == a@ + b@ + c@,
{
    let mut v: Vec<char> = Vec::new();
    append_str(&mut v, a);
    append_str(&mut v, b);
    append_str(&mut v, c);
    assert(v@ =~= a@ + b@ + c@);
    string_of(&v)
}

fn text2(a: &str, b: &str) -> (r: String)
    ensures
        r@ == a@ + b@,
{
    let mut v: Vec<char> = Vec::new();
    append_str(&mut v, a);
    append_str(&mut v, b);
    assert(v@ =~= a@ + b@);
    string_of(&v)
}

impl Error {
    /// The kind under which the error is reported.
    pub fn error_type(&self) -> (r: String)
        ensures
            r@ == error_type_text(*self),
    {
        let s = match self {
            Error::Io(_) => "IO",
            Error::QueryFormat(_) => "QueryFormat",
            Error::EntityAlreadyCreated(_) => "EntityAlreadyCreated",
            Error::EntityNotCreated(_) => "EntityNotCreated",
            Error::EntityNotCreatedWithUniqueness(_) => "EntityNotCreatedWithUniqueness",
            Error::Serialization(_) => "Serialization",
            Error::UuidNotCreatedForEntity(_, _) => "UuidNotCreatedForEntity",
            Error::FailedToParseState => "FailedToParseState",
            Error::FailedToParseRegistry => "FailedToParseRegistry",
            Error::UnknownCondition => "UnknownCondition",
            Error::FailedMatchCondition => "FailedMatchCondition",
            Error::DuplicatedUnique(_, _, _) => "DuplicatedUnique",
            Error::SelectBadRequest => "SelectBadRequest",
            Error::NonSelectQuery => "NonSelectQuery",
            Error::ActixMailbox(_) => "ActixMailbox",
            Error::LockData => "LockData",
            Error::Ron(_) => "Ron",
            Error::InvalidUuid(_) => "InvalidUuid",
            Error::UpdateContentEncryptKeys(_) => "UpdateContentEncryptKeys",
            Error::CheckNonEncryptedKeys(_) => "CheckNonEncryptedKeys",
            Error::DateTimeParse(_) => "DateTimeParse",
            Error::FailedToParseDate => "FailedToParseDate",
            Error::AdminNotConfigured => "AdminNotConfigured",
            Error::AuthorizationBadRequest => "AuthorizationBadRequest",
            Error::AuthenticationBadRequest => "AuthenticationBadRequest",
            Error::AuthenticationBadRequestBody(_) => "AuthenticationBadRequest",
            Error::FailedToCreateUser => "FailedToCreateUser",
            Error::FailedToDeleteUsers => "FailedToDeleteUsers",
            Error::KeyTxTimeNotAllowed => "KeyTxTimeNotAllowed",
            Error::Unknown => "Unknown",
        };
        String::from_str(s)
    }

    /// The message under which the error is reported.
    pub fn error_message(&self) -> (r: String)
        ensures
            r@ == error_message_text(*self),
    {
        match self {
            Error::Io(d) => String::from_str(d.as_str()),
            Error::QueryFormat(s) => debug_string(s.as_str()),
            Error::EntityAlreadyCreated(s) => text3("Entity `", s.as_str(), "` already created"),
            Error::EntityNotCreated(s) => text3("Entity `", s.as_str(), "` not created"),
            Error::EntityNotCreatedWithUniqueness(s) => text3(
                "Entity `",
                s.as_str(),
                "` not created",
            ),
            Error::Serialization(d) => String::from_str(d.as_str()),
            Error::UuidNotCreatedForEntity(s, id) => {
                let u = uuid_to_string(*id);
                let mut v: Vec<char> = Vec::new();
                append_str(&mut v, "Uuid ");
                append_str(&mut v, u.as_str());
                append_str(&mut v, " not created for entity ");
                append_str(&mut v, s.as_str());
                assert(v@ =~= "Uuid "@ + uuid_text(*id) + " not created for entity "@ + s@);
                string_of(&v)
            },
            Error::FailedToParseState => String::from_str("Failed to parse state"),
            Error::FailedToParseRegistry => String::from_str("Failed to parse registry"),
            Error::UnknownCondition => String::from_str("UNKNOWN MATCH CONDITION"),
            Error::FailedMatchCondition => String::from_str("One or more MATCH CONDITIONS failed"),
            Error::DuplicatedUnique(entity, key, t) => {
                let mut v: Vec<char> = Vec::new();
                append_str(&mut v, "key `");
                append_str(&mut v, key.as_str());
                append_str(&mut v, "` in entity `");
                append_str(&mut v, entity.as_str());
                append_str(&mut v, "` already contains value `");
                append_str(&mut v, t.as_str());
                append_str(&mut v, "`");
                assert(v@ =~= "key `"@ + key@ + "` in entity `"@ + entity@
                    + "` already contains value `"@ + t@ + "`"@);
                string_of(&v)
            },
            Error::SelectBadRequest => String::from_str(
                "SELECT expressions are handled by `/wql/query` endpoint",
            ),
            Error::NonSelectQuery => String::from_str(
                "Non-SELECT expressions are handled by `/wql/tx` endpoint",
            ),
            Error::ActixMailbox(d) => String::from_str(d.as_str()),
            Error::LockData => String::from_str("System was not able to get a lock on data"),
            Error::Ron(d) => String::from_str(d.as_str()),
            Error::InvalidUuid(d) => String::from_str(d.as_str()),
            Error::UpdateContentEncryptKeys(keys) => {
                let l = debug_string_list(keys);
                text2("Encrypted keys cannont be updated with UPDATE CONTENT: ", l.as_str())
            },
            Error::CheckNonEncryptedKeys(keys) => {
                let l = debug_string_list(keys);
                text2("CHECK can only verify encrypted keys: ", l.as_str())
            },
            Error::DateTimeParse(d) => text2("Date parse error: ", d.as_str()),
            Error::FailedToParseDate => String::from_str("Log date parse error"),
            Error::AdminNotConfigured => String::from_str("Admin credentials not configured"),
            Error::AuthorizationBadRequest => String::from_str(
                "Bad request at authorizing endpoint",
            ),
            Error::AuthenticationBadRequest => String::from_str(
                "Bad request at authenticating endpoint",
            ),
            Error::AuthenticationBadRequestBody(s) => text2("Bad request: ", s.as_str()),
            Error::FailedToCreateUser => String::from_str("Failed to create requested user"),
            Error::FailedToDeleteUsers => String::from_str("Failed to delete requested users"),
            Error::KeyTxTimeNotAllowed => String::from_str("Key `tx_time` is not allowed"),
            Error::Unknown => String::from_str("Request credentials failed"),
        }
    }

    /// The HTTP status code of the answer to this error.
    pub fn status(&self) -> (r: u16)
        ensures
            r == status_of(*self),
    {
        match self {
            Error::Io(_) => 500,
            Error::QueryFormat(_) => 400,
            Error::EntityAlreadyCreated(_) => 422,
            Error::EntityNotCreated(_) => 400,
            Error::EntityNotCreatedWithUniqueness(_) => 400,
            Error::Serialization(_) => 500,
            Error::UuidNotCreatedForEntity(_, _) => 400,
            Error::FailedToParseState => 500,
            Error::FailedToParseRegistry => 500,
            Error::UnknownCondition => 500,
            Error::FailedMatchCondition => 412,
            Error::DuplicatedUnique(_, _, _) => 400,
            Error::SelectBadRequest => 405,
            Error::NonSelectQuery => 405,
            Error::ActixMailbox(_) => 500,
            Error::LockData => 503,
            Error::Ron(_) => 500,
            Error::InvalidUuid(_) => 400,
            Error::UpdateContentEncryptKeys(_) => 400,
            Error::CheckNonEncryptedKeys(_) => 400,
            Error::DateTimeParse(_) => 500,
            Error::FailedToParseDate => 500,
            Error::AdminNotConfigured => 401,
            Error::AuthorizationBadRequest => 401,
            Error::AuthenticationBadRequest => 403,
            Error::AuthenticationBadRequestBody(_) => 403,
            Error::FailedToCreateUser => 400,
            Error::FailedToDeleteUsers => 400,
            Error::KeyTxTimeNotAllowed => 400,
            Error::Unknown => 500,
        }
    }
}

} // verus!
