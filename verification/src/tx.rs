//! The answers to transactions: what was done, to which entity and registry.

use vstd::prelude::*;
use crate::auth::models::utc_now;
use crate::compare::entity_get;
use crate::error::Error;
use crate::types::Entity;

verus! {

/// The kind of transaction that an answer is about.
#[derive(Debug, PartialEq, Eq, Structural, Clone, Copy)]
pub enum TxType {
    Create,
    Insert,
    UpdateSet,
    UpdateContent,
    Delete,
    EvictEntity,
    EvictEntityTree,
}

/// The answer to a transaction, in the form that is sent back.
#[derive(Debug)]
pub struct TxResponse {
    pub tx_type: TxType,
    pub entity: String,
    pub uuid: Option<u128>,
    pub state: String,
    pub message: String,
}

/// The answer to the creation of an entity.
#[derive(Debug)]
pub struct CreateEntityResponse {
    pub entity: String,
    pub message: String,
}

/// The answer to an insertion.
#[derive(Debug)]
pub struct InsertEntityResponse {
    pub entity: String,
    pub uuid: u128,
    pub message: String,
}

/// The answer to a deletion or an eviction.
#[derive(Debug)]
pub struct DeleteOrEvictEntityResponse {
    pub entity: String,
    pub uuid: Option<u128>,
    pub message: String,
    pub tx_type: TxType,
}

/// The answer to an update.
#[derive(Debug)]
pub struct UpdateEntityResponse {
    pub entity: String,
    pub uuid: u128,
    pub state: String,
    pub message: String,
    pub tx_type: TxType,
}

impl CreateEntityResponse {
    pub fn new(entity: String, message: String) -> (r: Self)
        ensures
            r.entity == entity,
            r.message == message,
    {
        Self { entity, message }
    }
}

impl InsertEntityResponse {
    pub fn new(entity: String, uuid: u128, message: String) -> (r: Self)
        ensures
            r.entity == entity,
            r.uuid == uuid,
            r.message == message,
    {
        Self { entity, uuid, message }
    }
}

impl DeleteOrEvictEntityResponse {
    pub fn new(entity: String, uuid: Option<u128>, message: String, tx_type: TxType) -> (r: Self)
        ensures
            r.entity == entity,
            r.uuid == uuid,
            r.message == message,
            r.tx_type == tx_type,
    {
        Self { entity, uuid, message, tx_type }
    }
}

impl UpdateEntityResponse {
    pub fn new(entity: String, uuid: u128, state: String, message: String, tx_type: TxType) -> (r:
        Self)
        ensures
            r.entity == entity,
            r.uuid == uuid,
            r.state == state,
            r.message == message,
            r.tx_type == tx_type,
    {
        Self { entity, uuid, state, message, tx_type }
    }
}

impl TxResponse {
    /// The answer to the creation of an entity: no registry, no state.
    pub fn from_create(tx: CreateEntityResponse) -> (r: Self)
        ensures
            r.tx_type == TxType::Create,
            r.entity == tx.entity,
            r.uuid is None,
            r.state@ == Seq::<char>::empty(),
            r.message == tx.message,
    {
        Self {
            tx_type: TxType::Create,
            entity: tx.entity,
            uuid: None,
            state: String::new(),
            message: tx.message,
        }
    }

    /// The answer to an insertion: the inserted registry, no state.
    pub fn from_insert(tx: InsertEntityResponse) -> (r: Self)
        ensures
            r.tx_type == TxType::Insert,
            r.entity == tx.entity,
            r.uuid == Some(tx.uuid),
            r.state@ == Seq::<char>::empty(),
            r.message == tx.message,
    {
        Self {
            tx_type: TxType::Insert,
            entity: tx.entity,
            uuid: Some(tx.uuid),
            state: String::new(),
            message: tx.message,
        }
    }

    /// The answer to a deletion or an eviction: its kind and registry, no
    /// state.
    pub fn from_delete_or_evict(tx: DeleteOrEvictEntityResponse) -> (r: Self)
        ensures
            r.tx_type == tx.tx_type,
            r.entity == tx.entity,
            r.uuid == tx.uuid,
            r.state@ == Seq::<char>::empty(),
            r.message == tx.message,
    {
        Self {
            tx_type: tx.tx_type,
            entity: tx.entity,
            uuid: tx.uuid,
            state: String::new(),
            message: tx.message,
        }
    }

    /// The answer to an update: its kind, registry and new state.
    pub fn from_update(tx: UpdateEntityResponse) -> (r: Self)
        ensures
            r.tx_type == tx.tx_type,
            r.entity == tx.entity,
            r.uuid == Some(tx.uuid),
            r.state == tx.state,
            r.message == tx.message,
    {
        Self {
            tx_type: tx.tx_type,
            entity: tx.entity,
            uuid: Some(tx.uuid),
            state: tx.state,
            message: tx.message,
        }
    }
}

/// The instant of a transaction, read from the clock; a content that names
/// the key `tx_time`, which the database writes itself, is
/// `KeyTxTimeNotAllowed`.
pub fn tx_time(content: &Entity) -> (r: Result<(i64, u32), Error>)
    ensures
        content@.contains_key("tx_time"@) <==> r is Err,
        r matches Err(e) ==> e is KeyTxTimeNotAllowed,
{
    if entity_get(content, "tx_time").is_some() {
        return Err(Error::KeyTxTimeNotAllowed);
    }
    Ok(utc_now())
}

} // verus!
