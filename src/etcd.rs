//! The parts of the etcd v3 API that the coordination core needs, as plain values, and the
//! decisions of the lease keep-alive loop.
use vstd::prelude::*;

verus! {

/// The key range `[prefix, range_end)` holds exactly the keys that start with `prefix`, when
/// `range_end` is `prefix` with its last byte incremented.
pub open spec fn prefix_range_end(prefix: Seq<u8>) -> Seq<u8> {
    prefix.drop_last().push((prefix.last() + 1) as u8)
}

/// Byte-wise lexicographic order, the order etcd keeps its keys in.
pub open spec fn key_lt(a: Seq<u8>, b: Seq<u8>) -> bool {
    exists|i: int|
        0 <= i <= a.len() && i < b.len() && a.subrange(0, i) == b.subrange(0, i) && (i == a.len()
            || a[i] < b[i])
}

/// `key` starts with `prefix`.
pub open spec fn has_prefix(key: Seq<u8>, prefix: Seq<u8>) -> bool {
    prefix.len() <= key.len() && key.subrange(0, prefix.len() as int) == prefix
}

/// Calculate the `range_end` that selects every key under `prefix`: the prefix with its last
/// byte incremented by one.
pub fn calculate_prefix_range_end(prefix: &[u8]) -> (range_end: Vec<u8>)
    requires
        prefix@.len() > 0,
        prefix@.last() < 255,
    ensures
        range_end@ == prefix_range_end(prefix@),
{
    let n = prefix.len();
    let mut range_end: Vec<u8> = Vec::new();
    let mut i: usize = 0;
    while i < n - 1
        invariant
            n == prefix@.len(),
            n > 0,
            i <= n - 1,
            range_end@ == prefix@.subrange(0, i as int),
        decreases n - 1 - i,
    {
        range_end.push(prefix[i]);
        i = i + 1;
    }
    range_end.push(prefix[n - 1] + 1);
    assert(range_end@ =~= prefix_range_end(prefix@));
    range_end
}

/// Every key that starts with a non-empty prefix sorts strictly below the prefix's range end,
/// and no lower than the prefix itself.
pub proof fn lemma_prefix_range_end_bounds(prefix: Seq<u8>, key: Seq<u8>)
    requires
        prefix.len() > 0,
        prefix.last() < 255,
        has_prefix(key, prefix),
    ensures
        key_lt(key, prefix_range_end(prefix)),
        !key_lt(key, prefix),
{
    let n = prefix.len() as int;
    let end = prefix_range_end(prefix);
    assert(key.subrange(0, n - 1) =~= end.subrange(0, n - 1)) by {
        assert forall|j: int| 0 <= j < n - 1 implies #[trigger] key[j] == end[j] by {
            assert(key[j] == key.subrange(0, n)[j]);
        }
    }
    assert(key[n - 1] == key.subrange(0, n)[n - 1]);
    assert(key_lt(key, end)) by {
        assert(0 <= n - 1 <= key.len() && n - 1 < end.len());
    }
    if key_lt(key, prefix) {
        let i = choose|i: int|
            0 <= i <= key.len() && i < prefix.len() && key.subrange(0, i) == prefix.subrange(0, i)
                && (i == key.len() || key[i] < prefix[i]);
        assert(key[i] == key.subrange(0, n)[i]);
    }
}

/// TTL, in seconds, asked for when a lease is granted.
pub const LEASE_TTL_SECONDS: i64 = 30;

/// How long before expiry, in seconds, a lease refresh aims to be sent.
pub const TTL_DESIRED_PREEMPTION: i64 = 10;

/// Failures of the coordination store, as the rest of the core tells them apart.
#[derive(Debug, Clone, PartialEq, Eq)]
pub enum Error {
    /// A required environment variable was not found.
    VarError,
    /// The store answered with a gRPC status other than OK.
    ResponseStatusError { code: i32, message: String },
    /// The keep-alive request channel was closed.
    ChannelClosed,
    /// The store could not be reached.
    Transport,
    /// A watch could not be created.
    CreateWatch,
    /// The keep-alive stream ended without answering a refresh.
    RefreshLease,
    /// The store reported the lease as expired.
    LeaseExpired,
}

/// An unconditional write of `value` under `key`, bound to `lease` (0: no lease).
#[derive(Debug, Clone, PartialEq, Eq)]
pub struct PutRequest {
    pub key: Vec<u8>,
    pub value: Vec<u8>,
    pub lease: i64,
}

/// A read of the keys in `[key, range_end)`; with `count_only` only their number comes back.
#[derive(Debug, Clone, PartialEq, Eq)]
pub struct RangeRequest {
    pub key: Vec<u8>,
    pub range_end: Vec<u8>,
    pub count_only: bool,
}

/// One key-value pair as a range read returns it.
#[derive(Debug, Clone, PartialEq, Eq)]
pub struct KeyValue {
    pub key: Vec<u8>,
    pub value: Vec<u8>,
}

/// The condition of a single-key transaction.
#[derive(Debug, Clone, PartialEq, Eq)]
pub enum Compare {
    /// The key does not exist (its version is 0).
    VersionIsZero,
    /// The key exists and holds exactly this value.
    ValueEquals(Vec<u8>),
}

/// What a single-key transaction does when its condition holds.
#[derive(Debug, Clone, PartialEq, Eq)]
pub enum RequestOp {
    /// Write `value` bound to `lease`.
    Put { value: Vec<u8>, lease: i64 },
    /// Delete the key.
    Delete,
}

/// A compare-and-swap on one key: `on_success` is applied atomically when `compare` holds;
/// otherwise nothing changes.
#[derive(Debug, Clone, PartialEq, Eq)]
pub struct TxnRequest {
    pub key: Vec<u8>,
    pub compare: Compare,
    pub on_success: RequestOp,
}

/// The store's keys as a map from key to (value, lease).
pub type StoreModel = Map<Seq<u8>, (Seq<u8>, i64)>;

/// Whether the condition of `txn` holds in `store`. A value comparison on a missing key fails.
pub open spec fn txn_condition_holds(store: StoreModel, txn: TxnRequest) -> bool {
    match txn.compare {
        Compare::VersionIsZero => !store.contains_key(txn.key@),
        Compare::ValueEquals(v) => store.contains_key(txn.key@) && store[txn.key@].0 == v@,
    }
}

/// The store after `txn` ran against it.
pub open spec fn apply_txn(store: StoreModel, txn: TxnRequest) -> StoreModel {
    if txn_condition_holds(store, txn) {
        match txn.on_success {
            RequestOp::Put { value, lease } => store.insert(txn.key@, (value@, lease)),
            RequestOp::Delete => store.remove(txn.key@),
        }
    } else {
        store
    }
}

/// The store after `txns` ran against it one after another.
pub open spec fn apply_txns(store: StoreModel, txns: Seq<TxnRequest>) -> StoreModel
    decreases txns.len(),
{
    if txns.len() == 0 {
        store
    } else {
        apply_txn(apply_txns(store, txns.drop_last()), txns.last())
    }
}

/// The store once `lease` has expired or been revoked: every key bound to it is gone.
pub open spec fn expire_lease(store: StoreModel, lease: i64) -> StoreModel {
    store.restrict(store.dom().filter(|k: Seq<u8>| store[k].1 != lease))
}

/// Seconds to wait after sending a refresh before sending the next one, for a lease that
/// reported `ttl` seconds left: `max(ttl / 2, ttl - preemption)`.
pub open spec fn refresh_delay(ttl: int) -> int {
    if ttl / 2 >= ttl - TTL_DESIRED_PREEMPTION {
        ttl / 2
    } else {
        ttl - TTL_DESIRED_PREEMPTION
    }
}

/// How long to wait, measured from the moment the last refresh request was sent, before the
/// next one: `max(ttl / 2, ttl - TTL_DESIRED_PREEMPTION)` seconds.
pub fn lease_refresh_delay(ttl_in_seconds: i64) -> (delay: i64)
    requires
        ttl_in_seconds > 0,
    ensures
        delay == refresh_delay(ttl_in_seconds as int),
        ttl_in_seconds / 2 <= delay < ttl_in_seconds,
{
    let half = ttl_in_seconds / 2;
    let preempted = ttl_in_seconds - TTL_DESIRED_PREEMPTION;
    if half >= preempted {
        half
    } else {
        preempted
    }
}

/// The time, in milliseconds on the caller's clock, at which the next refresh is due, given
/// the time the previous refresh request was sent and the TTL its answer reported.
pub fn next_refresh_at_ms(sent_at_ms: u64, ttl_in_seconds: i64) -> (due_ms: u64)
    requires
        ttl_in_seconds > 0,
        sent_at_ms + ttl_in_seconds * 1000 <= u64::MAX,
    ensures
        due_ms == sent_at_ms + refresh_delay(ttl_in_seconds as int) * 1000,
{
    let delay = lease_refresh_delay(ttl_in_seconds);
    assert(delay * 1000 <= ttl_in_seconds * 1000) by (nonlinear_arith)
        requires
            delay < ttl_in_seconds,
    ;
    sent_at_ms + (delay as u64) * 1000
}

/// With the lease granted for the full TTL of 30 s and a preemption of 10 s, each refresh is
/// sent between 15 s and 20 s after the previous one was sent.
pub proof fn lemma_refresh_cadence(sent_at_ms: int)
    ensures
        15_000 <= (sent_at_ms + refresh_delay(LEASE_TTL_SECONDS as int) * 1000) - sent_at_ms
            <= 20_000,
{
}

/// The outcome of one refresh: the answer's TTL when the lease is still alive; `LeaseExpired`
/// when the store reports no time left; `RefreshLease` when the stream ended unanswered.
pub fn refresh_outcome(response_ttl: Option<i64>) -> (r: Result<i64, Error>)
    ensures
        match response_ttl {
            None => r == Err::<i64, Error>(Error::RefreshLease),
            Some(ttl) => if ttl > 0 {
                r == Ok::<i64, Error>(ttl)
            } else {
                r == Err::<i64, Error>(Error::LeaseExpired)
            },
        },
{
    match response_ttl {
        Some(ttl) => if ttl > 0 {
            Ok(ttl)
        } else {
            Err(Error::LeaseExpired)
        },
        None => Err(Error::RefreshLease),
    }
}

} // verus!
