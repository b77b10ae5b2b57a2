//! Sync subsystem: a durable outbox plus a pluggable connector. All
//! Bingqilin-specific logic lives in `connector` behind the `Connector`
//! enum, so the app is fully functional offline and the service contract
//! can be finalized independently.

pub mod connector;
pub mod engine;

use vstd::prelude::*;

use crate::db::{is_rfc3339_utc, is_uuid_v4_text, new_id, now};
use crate::text::to_string;

verus! {

/// One queued local change: stored in the outbox and sent to the connector.
/// `entity` is `"list"` or `"item"`, `op` is `"create"`, `"update"` or
/// `"delete"`, and `payload` is the change as JSON text.
#[derive(Debug, Clone, PartialEq, Eq)]
pub struct SyncOp {
    pub id: String,
    pub entity: String,
    pub entity_id: String,
    pub op: String,
    pub payload: String,
    pub queued_at: String,
}

impl SyncOp {
    /// The outbox record of a local mutation: a fresh id and the current
    /// time. Callers store it inside the same transaction as the mutation
    /// itself.
    pub fn new(entity: &str, entity_id: &str, op: &str, payload: String) -> (r: SyncOp)
        ensures
            r.entity@ == entity@,
            r.entity_id@ == entity_id@,
            r.op@ == op@,
            r.payload == payload,
            is_uuid_v4_text(r.id@),
            is_rfc3339_utc(r.queued_at@),
    {
        SyncOp {
            id: new_id(),
            entity: to_string(entity),
            entity_id: to_string(entity_id),
            op: to_string(op),
            payload,
            queued_at: now(),
        }
    }
}

} // verus!
