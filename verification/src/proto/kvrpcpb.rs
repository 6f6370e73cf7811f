use vstd::prelude::*;
use crate::proto::errorpb::Error;
use crate::proto::metapb::{Peer, RegionEpoch};

verus! {

/// Kind of a transactional write.
#[derive(Debug, Clone, Copy, PartialEq, Eq, Structural)]
pub enum Op {
    Put,
    Del,
    Rollback,
}

/// Metadata of a request: the region it targets and how the client saw it.
#[derive(Debug, Clone, Copy, PartialEq, Eq, Structural)]
pub struct Context {
    pub region_id: u64,
    pub region_epoch: Option<RegionEpoch>,
    pub peer: Option<Peer>,
    pub term: u64,
}

impl Context {
    pub fn new(region_id: u64) -> (r: Self)
        ensures
            r == (Context { region_id, region_epoch: None, peer: None, term: 0 }),
    {
        Context { region_id, region_epoch: None, peer: None, term: 0 }
    }

    pub fn with_epoch(self, epoch: RegionEpoch) -> (r: Self)
        ensures
            r == (Context { region_epoch: Some(epoch), ..self }),
    {
        let mut c = self;
        c.region_epoch = Some(epoch);
        c
    }
}

/// Reads a raw key.
#[derive(Debug)]
pub struct RawGetRequest {
    pub context: Context,
    pub key: Vec<u8>,
    pub cf: String,
}

/// Answer to a raw read.
#[derive(Debug)]
pub struct RawGetResponse {
    pub region_error: Option<Error>,
    pub error: Option<String>,
    pub value: Option<Vec<u8>>,
    pub not_found: bool,
}

impl RawGetResponse {
    pub fn ok(value: Option<Vec<u8>>) -> (r: Self)
        ensures
            r.region_error is None,
            r.error is None,
            r.value == value,
            r.not_found == value.is_none(),
    {
        let not_found = value.is_none();
        RawGetResponse { region_error: None, error: None, value: value, not_found: not_found }
    }

    pub fn with_error(error: Error) -> (r: Self)
        ensures
            r.region_error == Some(error),
            r.error is None,
            r.value is None,
            !r.not_found,
    {
        RawGetResponse { region_error: Some(error), error: None, value: None, not_found: false }
    }
}

/// Writes a raw key.
#[derive(Debug)]
pub struct RawPutRequest {
    pub context: Context,
    pub key: Vec<u8>,
    pub value: Vec<u8>,
    pub cf: String,
}

/// Answer to a raw write.
#[derive(Debug)]
pub struct RawPutResponse {
    pub region_error: Option<Error>,
    pub error: Option<String>,
}

impl RawPutResponse {
    pub fn ok() -> (r: Self)
        ensures
            r.region_error is None,
            r.error is None,
    {
        RawPutResponse { region_error: None, error: None }
    }

    pub fn with_error(error: Error) -> (r: Self)
        ensures
            r.region_error == Some(error),
            r.error is None,
    {
        RawPutResponse { region_error: Some(error), error: None }
    }
}

/// Deletes a raw key.
#[derive(Debug)]
pub struct RawDeleteRequest {
    pub context: Context,
    pub key: Vec<u8>,
    pub cf: String,
}

/// Answer to a raw delete.
#[derive(Debug)]
pub struct RawDeleteResponse {
    pub region_error: Option<Error>,
    pub error: Option<String>,
}

impl RawDeleteResponse {
    pub fn ok() -> (r: Self)
        ensures
            r.region_error is None,
            r.error is None,
    {
        RawDeleteResponse { region_error: None, error: None }
    }

    pub fn with_error(error: Error) -> (r: Self)
        ensures
            r.region_error == Some(error),
            r.error is None,
    {
        RawDeleteResponse { region_error: Some(error), error: None }
    }
}

/// Scans raw keys from a start key.
#[derive(Debug)]
pub struct RawScanRequest {
    pub context: Context,
    pub start_key: Vec<u8>,
    pub limit: u32,
    pub cf: String,
}

/// A key and its value, or the error met on the key.
#[derive(Debug)]
pub struct KvPair {
    pub error: Option<KeyError>,
    pub key: Vec<u8>,
    pub value: Vec<u8>,
}

impl KvPair {
    pub fn new(key: Vec<u8>, value: Vec<u8>) -> (r: Self)
        ensures
            r.error is None,
            r.key == key,
            r.value == value,
    {
        KvPair { error: None, key, value }
    }

    pub fn with_error(key: Vec<u8>, error: KeyError) -> (r: Self)
        ensures
            r.error == Some(error),
            r.key == key,
            r.value@.len() == 0,
    {
        KvPair { error: Some(error), key, value: Vec::new() }
    }
}

/// Answer to a raw scan.
#[derive(Debug)]
pub struct RawScanResponse {
    pub region_error: Option<Error>,
    pub error: Option<String>,
    pub kvs: Vec<KvPair>,
}

impl RawScanResponse {
    pub fn ok(kvs: Vec<KvPair>) -> (r: Self)
        ensures
            r.region_error is None,
            r.error is None,
            r.kvs == kvs,
    {
        RawScanResponse { region_error: None, error: None, kvs: kvs }
    }

    pub fn with_error(error: Error) -> (r: Self)
        ensures
            r.region_error == Some(error),
            r.error is None,
            r.kvs@.len() == 0,
    {
        RawScanResponse { region_error: Some(error), error: None, kvs: Vec::new() }
    }
}

/// Writes a secondary key.
#[derive(Debug)]
pub struct MultiLevelPutRequest {
    pub context: Context,
    pub secondary_key: Vec<u8>,
    pub value: Vec<u8>,
    pub cf: String,
}

/// Answer to a multi-level write.
#[derive(Debug)]
pub struct MultiLevelPutResponse {
    pub region_error: Option<Error>,
    pub error: Option<String>,
}

impl MultiLevelPutResponse {
    pub fn ok() -> (r: Self)
        ensures
            r.region_error is None,
            r.error is None,
    {
        MultiLevelPutResponse { region_error: None, error: None }
    }

    pub fn with_error(error: Error) -> (r: Self)
        ensures
            r.region_error == Some(error),
            r.error is None,
    {
        MultiLevelPutResponse { region_error: Some(error), error: None }
    }
}

/// Reads a secondary key.
#[derive(Debug)]
pub struct MultiLevelGetRequest {
    pub context: Context,
    pub secondary_key: Vec<u8>,
    pub cf: String,
}

/// Answer to a multi-level read.
#[derive(Debug)]
pub struct MultiLevelGetResponse {
    pub region_error: Option<Error>,
    pub error: Option<String>,
    pub value: Option<Vec<u8>>,
    pub not_found: bool,
}

impl MultiLevelGetResponse {
    pub fn ok(value: Option<Vec<u8>>) -> (r: Self)
        ensures
            r.region_error is None,
            r.error is None,
            r.value == value,
            r.not_found == value.is_none(),
    {
        let not_found = value.is_none();
        MultiLevelGetResponse { region_error: None, error: None, value: value, not_found: not_found }
    }

    pub fn with_error(error: Error) -> (r: Self)
        ensures
            r.region_error == Some(error),
            r.error is None,
            r.value is None,
            !r.not_found,
    {
        MultiLevelGetResponse { region_error: Some(error), error: None, value: None, not_found: false }
    }
}

/// Deletes a secondary key.
#[derive(Debug)]
pub struct MultiLevelDeleteRequest {
    pub context: Context,
    pub secondary_key: Vec<u8>,
    pub cf: String,
}

/// Answer to a multi-level delete.
#[derive(Debug)]
pub struct MultiLevelDeleteResponse {
    pub region_error: Option<Error>,
    pub error: Option<String>,
}

impl MultiLevelDeleteResponse {
    pub fn ok() -> (r: Self)
        ensures
            r.region_error is None,
            r.error is None,
    {
        MultiLevelDeleteResponse { region_error: None, error: None }
    }

    pub fn with_error(error: Error) -> (r: Self)
        ensures
            r.region_error == Some(error),
            r.error is None,
    {
        MultiLevelDeleteResponse { region_error: Some(error), error: None }
    }
}

/// Scans the secondary keys from a start key.
#[derive(Debug)]
pub struct MultiLevelScanRequest {
    pub context: Context,
    pub start_secondary_key: Vec<u8>,
    pub limit: u32,
    pub cf: String,
}

/// A secondary key and its value.
#[derive(Debug)]
pub struct MultiLevelKvPair {
    pub secondary_key: Vec<u8>,
    pub value: Vec<u8>,
}

/// Answer to a multi-level scan.
#[derive(Debug)]
pub struct MultiLevelScanResponse {
    pub region_error: Option<Error>,
    pub error: Option<String>,
    pub kvs: Vec<MultiLevelKvPair>,
}

impl MultiLevelScanResponse {
    pub fn ok(kvs: Vec<MultiLevelKvPair>) -> (r: Self)
        ensures
            r.region_error is None,
            r.error is None,
            r.kvs == kvs,
    {
        MultiLevelScanResponse { region_error: None, error: None, kvs: kvs }
    }

    pub fn with_error(error: Error) -> (r: Self)
        ensures
            r.region_error == Some(error),
            r.error is None,
            r.kvs@.len() == 0,
    {
        MultiLevelScanResponse { region_error: Some(error), error: None, kvs: Vec::new() }
    }
}

/// Transactional read at a start timestamp.
#[derive(Debug)]
pub struct GetRequest {
    pub context: Context,
    pub key: Vec<u8>,
    pub version: u64,
}

/// Answer to a transactional read.
#[derive(Debug)]
pub struct GetResponse {
    pub region_error: Option<Error>,
    pub error: Option<KeyError>,
    pub value: Option<Vec<u8>>,
    pub not_found: bool,
}

impl GetResponse {
    pub fn ok(value: Option<Vec<u8>>) -> (r: Self)
        ensures
            r.region_error is None,
            r.error is None,
            r.value == value,
            r.not_found == value.is_none(),
    {
        let not_found = value.is_none();
        GetResponse { region_error: None, error: None, value: value, not_found: not_found }
    }

    pub fn with_key_error(error: KeyError) -> (r: Self)
        ensures
            r.region_error is None,
            r.error == Some(error),
            r.value is None,
            !r.not_found,
    {
        GetResponse { region_error: None, error: Some(error), value: None, not_found: false }
    }

    pub fn with_region_error(error: Error) -> (r: Self)
        ensures
            r.region_error == Some(error),
            r.error is None,
            r.value is None,
            !r.not_found,
    {
        GetResponse { region_error: Some(error), error: None, value: None, not_found: false }
    }
}

/// A transactional write.
#[derive(Debug)]
pub struct Mutation {
    pub op: Op,
    pub key: Vec<u8>,
    pub value: Vec<u8>,
}

/// First phase of a two-phase commit.
#[derive(Debug)]
pub struct PrewriteRequest {
    pub context: Context,
    pub mutations: Vec<Mutation>,
    pub primary_lock: Vec<u8>,
    pub start_version: u64,
    pub lock_ttl: u64,
}

/// Answer to a prewrite.
#[derive(Debug)]
pub struct PrewriteResponse {
    pub region_error: Option<Error>,
    pub errors: Vec<KeyError>,
}

impl PrewriteResponse {
    pub fn ok() -> (r: Self)
        ensures
            r.region_error is None,
            r.errors@.len() == 0,
    {
        PrewriteResponse { region_error: None, errors: Vec::new() }
    }

    pub fn with_errors(errors: Vec<KeyError>) -> (r: Self)
        ensures
            r.region_error is None,
            r.errors == errors,
    {
        PrewriteResponse { region_error: None, errors: errors }
    }

    pub fn with_region_error(error: Error) -> (r: Self)
        ensures
            r.region_error == Some(error),
            r.errors@.len() == 0,
    {
        PrewriteResponse { region_error: Some(error), errors: Vec::new() }
    }
}

/// Second phase of a two-phase commit.
#[derive(Debug)]
pub struct CommitRequest {
    pub context: Context,
    pub start_version: u64,
    pub keys: Vec<Vec<u8>>,
    pub commit_version: u64,
}

/// Answer to a commit.
#[derive(Debug)]
pub struct CommitResponse {
    pub region_error: Option<Error>,
    pub error: Option<KeyError>,
}

impl CommitResponse {
    pub fn ok() -> (r: Self)
        ensures
            r.region_error is None,
            r.error is None,
    {
        CommitResponse { region_error: None, error: None }
    }

    pub fn with_key_error(error: KeyError) -> (r: Self)
        ensures
            r.region_error is None,
            r.error == Some(error),
    {
        CommitResponse { region_error: None, error: Some(error) }
    }

    pub fn with_region_error(error: Error) -> (r: Self)
        ensures
            r.region_error == Some(error),
            r.error is None,
    {
        CommitResponse { region_error: Some(error), error: None }
    }
}

/// Transactional scan at a start timestamp.
#[derive(Debug)]
pub struct ScanRequest {
    pub context: Context,
    pub start_key: Vec<u8>,
    pub limit: u32,
    pub version: u64,
}

/// Answer to a transactional scan.
#[derive(Debug)]
pub struct ScanResponse {
    pub region_error: Option<Error>,
    pub pairs: Vec<KvPair>,
}

impl ScanResponse {
    pub fn ok(pairs: Vec<KvPair>) -> (r: Self)
        ensures
            r.region_error is None,
            r.pairs == pairs,
    {
        ScanResponse { region_error: None, pairs: pairs }
    }

    pub fn with_region_error(error: Error) -> (r: Self)
        ensures
            r.region_error == Some(error),
            r.pairs@.len() == 0,
    {
        ScanResponse { region_error: Some(error), pairs: Vec::new() }
    }
}

/// Asks for the status of a transaction.
#[derive(Debug)]
pub struct CheckTxnStatusRequest {
    pub context: Context,
    pub primary_key: Vec<u8>,
    pub lock_ts: u64,
    pub current_ts: u64,
}

/// Status of a transaction.
#[derive(Debug)]
pub struct CheckTxnStatusResponse {
    pub region_error: Option<Error>,
    pub lock_ttl: u64,
    pub commit_version: u64,
    pub action: Action,
}

impl CheckTxnStatusResponse {
    pub fn locked(lock_ttl: u64) -> (r: Self)
        ensures
            r.region_error is None,
            r.lock_ttl == lock_ttl,
            r.commit_version == 0,
            r.action == Action::NoAction,
    {
        CheckTxnStatusResponse { region_error: None, lock_ttl: lock_ttl, commit_version: 0, action: Action::NoAction }
    }

    pub fn committed(commit_version: u64) -> (r: Self)
        ensures
            r.region_error is None,
            r.lock_ttl == 0,
            r.commit_version == commit_version,
            r.action == Action::NoAction,
    {
        CheckTxnStatusResponse { region_error: None, lock_ttl: 0, commit_version: commit_version, action: Action::NoAction }
    }

    pub fn rolled_back(action: Action) -> (r: Self)
        ensures
            r.region_error is None,
            r.lock_ttl == 0,
            r.commit_version == 0,
            r.action == action,
    {
        CheckTxnStatusResponse { region_error: None, lock_ttl: 0, commit_version: 0, action: action }
    }

    pub fn with_region_error(error: Error) -> (r: Self)
        ensures
            r.region_error == Some(error),
            r.lock_ttl == 0,
            r.commit_version == 0,
            r.action == Action::NoAction,
    {
        CheckTxnStatusResponse { region_error: Some(error), lock_ttl: 0, commit_version: 0, action: Action::NoAction }
    }
}

/// Rolls back a transaction on some keys.
#[derive(Debug)]
pub struct BatchRollbackRequest {
    pub context: Context,
    pub start_version: u64,
    pub keys: Vec<Vec<u8>>,
}

/// Answer to a batch rollback.
#[derive(Debug)]
pub struct BatchRollbackResponse {
    pub region_error: Option<Error>,
    pub error: Option<KeyError>,
}

impl BatchRollbackResponse {
    pub fn ok() -> (r: Self)
        ensures
            r.region_error is None,
            r.error is None,
    {
        BatchRollbackResponse { region_error: None, error: None }
    }

    pub fn with_key_error(error: KeyError) -> (r: Self)
        ensures
            r.region_error is None,
            r.error == Some(error),
    {
        BatchRollbackResponse { region_error: None, error: Some(error) }
    }

    pub fn with_region_error(error: Error) -> (r: Self)
        ensures
            r.region_error == Some(error),
            r.error is None,
    {
        BatchRollbackResponse { region_error: Some(error), error: None }
    }
}

/// Commits (commit version > 0) or rolls back (0) the locks of a transaction.
#[derive(Debug)]
pub struct ResolveLockRequest {
    pub context: Context,
    pub start_version: u64,
    pub commit_version: u64,
}

/// Answer to a lock resolution.
#[derive(Debug)]
pub struct ResolveLockResponse {
    pub region_error: Option<Error>,
    pub error: Option<KeyError>,
}

impl ResolveLockResponse {
    pub fn ok() -> (r: Self)
        ensures
            r.region_error is None,
            r.error is None,
    {
        ResolveLockResponse { region_error: None, error: None }
    }

    pub fn with_key_error(error: KeyError) -> (r: Self)
        ensures
            r.region_error is None,
            r.error == Some(error),
    {
        ResolveLockResponse { region_error: None, error: Some(error) }
    }

    pub fn with_region_error(error: Error) -> (r: Self)
        ensures
            r.region_error == Some(error),
            r.error is None,
    {
        ResolveLockResponse { region_error: Some(error), error: None }
    }
}

/// What checking a transaction's status did.
#[derive(Debug, Clone, Copy, PartialEq, Eq, Structural)]
pub enum Action {
    NoAction,
    TtlExpireRollback,
    LockNotExistRollback,
}

/// An error on one key of a transaction.
#[derive(Debug)]
pub struct KeyError {
    pub locked: Option<LockInfo>,
    pub retryable: Option<String>,
    pub abort: Option<String>,
    pub conflict: Option<WriteConflict>,
}

impl KeyError {
    pub fn locked(lock_info: LockInfo) -> (r: Self)
        ensures
            r.locked == Some(lock_info),
            r.retryable is None,
            r.abort is None,
            r.conflict is None,
    {
        KeyError { locked: Some(lock_info), retryable: None, abort: None, conflict: None }
    }

    pub fn retryable(msg: String) -> (r: Self)
        ensures
            r.locked is None,
            r.retryable == Some(msg),
            r.abort is None,
            r.conflict is None,
    {
        KeyError { locked: None, retryable: Some(msg), abort: None, conflict: None }
    }

    pub fn abort(msg: String) -> (r: Self)
        ensures
            r.locked is None,
            r.retryable is None,
            r.abort == Some(msg),
            r.conflict is None,
    {
        KeyError { locked: None, retryable: None, abort: Some(msg), conflict: None }
    }

    pub fn conflict(conflict: WriteConflict) -> (r: Self)
        ensures
            r.locked is None,
            r.retryable is None,
            r.abort is None,
            r.conflict == Some(conflict),
    {
        KeyError { locked: None, retryable: None, abort: None, conflict: Some(conflict) }
    }
}

/// A lock held on a key.
#[derive(Debug)]
pub struct LockInfo {
    pub primary_lock: Vec<u8>,
    pub lock_version: u64,
    pub key: Vec<u8>,
    pub lock_ttl: u64,
}

/// A write that conflicts with a transaction.
#[derive(Debug)]
pub struct WriteConflict {
    pub start_ts: u64,
    pub conflict_ts: u64,
    pub key: Vec<u8>,
    pub primary: Vec<u8>,
}

} // verus!
