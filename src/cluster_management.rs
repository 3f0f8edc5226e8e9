//! Cluster membership and partition ownership: node records under `/nodes/`, one lock per
//! sync partition under `/sync_locks/<n>`, deterministic modulo sharding, and the
//! compare-and-swap transactions that bring the locks in line with the shard.
use vstd::prelude::*;

use crate::etcd::{
    calculate_prefix_range_end, has_prefix, prefix_range_end, Compare, KeyValue, PutRequest,
    RangeRequest, RequestOp, TxnRequest,
};

verus! {

/// The number of sync partitions of the tasks table.
pub const TOTAL_NUMBER_OF_SYNC_PARTITIONS: usize = 100;

/// `"/nodes/"`: the prefix of membership records.
pub open spec fn replica_prefix() -> Seq<u8> {
    seq![47u8, 110, 111, 100, 101, 115, 47]
}

/// `"/sync_locks/"`: the prefix of partition locks.
pub open spec fn sync_lock_prefix() -> Seq<u8> {
    seq![47u8, 115, 121, 110, 99, 95, 108, 111, 99, 107, 115, 47]
}

/// `"replica"`: the value of every membership record.
pub open spec fn replica_value() -> Seq<u8> {
    seq![114u8, 101, 112, 108, 105, 99, 97]
}

/// The ASCII decimal digits of `n`, most significant first, without leading zeros.
pub open spec fn decimal(n: nat) -> Seq<u8>
    decreases n,
{
    if n < 10 {
        seq![(48 + n) as u8]
    } else {
        decimal(n / 10).push((48 + n % 10) as u8)
    }
}

pub open spec fn is_digit(b: u8) -> bool {
    48 <= b <= 57
}

pub open spec fn all_digits(s: Seq<u8>) -> bool {
    forall|i: int| 0 <= i < s.len() ==> is_digit(#[trigger] s[i])
}

/// The number that a string of ASCII decimal digits spells.
pub open spec fn digits_value(s: Seq<u8>) -> nat
    decreases s.len(),
{
    if s.len() == 0 {
        0
    } else {
        digits_value(s.drop_last()) * 10 + (s.last() - 48) as nat
    }
}

/// The key of the membership record of `node`.
pub open spec fn replica_key(node: Seq<u8>) -> Seq<u8> {
    replica_prefix() + node
}

/// The key of the lock of partition `n`.
pub open spec fn sync_lock_key(n: nat) -> Seq<u8> {
    sync_lock_prefix() + decimal(n)
}

/// The partition that a lock key names: the key is the lock prefix followed by one or more
/// decimal digits whose value fits in a `u16`.
pub open spec fn lock_key_partition(key: Seq<u8>) -> Option<u16> {
    let digits = key.subrange(sync_lock_prefix().len() as int, key.len() as int);
    if has_prefix(key, sync_lock_prefix()) && digits.len() > 0 && all_digits(digits)
        && digits_value(digits) <= u16::MAX {
        Some(digits_value(digits) as u16)
    } else {
        None
    }
}

proof fn lemma_decimal_digits(n: nat)
    ensures
        decimal(n).len() > 0,
        all_digits(decimal(n)),
        digits_value(decimal(n)) == n,
    decreases n,
{
    if n >= 10 {
        lemma_decimal_digits(n / 10);
        assert(decimal(n).drop_last() =~= decimal(n / 10));
        assert(decimal(n).last() == (48 + n % 10) as u8);
        assert(n == (n / 10) * 10 + n % 10);
    } else {
        assert(decimal(n).drop_last() =~= Seq::<u8>::empty());
        assert(decimal(n).last() == (48 + n) as u8);
        assert(digits_value(Seq::<u8>::empty()) == 0);
    }
}

proof fn lemma_digits_value_prefix_le(s: Seq<u8>, i: int)
    requires
        0 <= i <= s.len(),
        all_digits(s),
    ensures
        digits_value(s.subrange(0, i)) <= digits_value(s),
    decreases s.len() - i,
{
    if i < s.len() {
        lemma_digits_value_prefix_le(s, i + 1);
        let t = s.subrange(0, i + 1);
        assert(t.drop_last() =~= s.subrange(0, i));
        assert(is_digit(s[i]));
    } else {
        assert(s.subrange(0, i) =~= s);
    }
}

/// A lock key names the partition it was made for.
pub proof fn lemma_lock_key_round_trip(n: u16)
    ensures
        lock_key_partition(sync_lock_key(n as nat)) == Some(n),
{
    let key = sync_lock_key(n as nat);
    lemma_decimal_digits(n as nat);
    assert(key.subrange(0, sync_lock_prefix().len() as int) =~= sync_lock_prefix());
    assert(key.subrange(sync_lock_prefix().len() as int, key.len() as int) =~= decimal(n as nat));
}

/// Lock keys of different partitions differ.
pub proof fn lemma_lock_key_injective(a: nat, b: nat)
    requires
        a != b,
    ensures
        sync_lock_key(a) != sync_lock_key(b),
{
    lemma_decimal_digits(a);
    lemma_decimal_digits(b);
    if sync_lock_key(a) == sync_lock_key(b) {
        let k = sync_lock_key(a);
        let l = sync_lock_prefix().len() as int;
        assert(k.subrange(l, k.len() as int) =~= decimal(a));
        assert(sync_lock_key(b).subrange(l, k.len() as int) =~= decimal(b));
    }
}

pub fn replica_prefix_bytes() -> (r: Vec<u8>)
    ensures
        r@ == replica_prefix(),
{
    // "/nodes/"
    let r: Vec<u8> = vec![47, 110, 111, 100, 101, 115, 47];
    assert(r@ =~= replica_prefix());
    r
}

pub fn sync_lock_prefix_bytes() -> (r: Vec<u8>)
    ensures
        r@ == sync_lock_prefix(),
{
    // "/sync_locks/"
    let r: Vec<u8> = vec![47, 115, 121, 110, 99, 95, 108, 111, 99, 107, 115, 47];
    assert(r@ =~= sync_lock_prefix());
    r
}

fn push_decimal(out: &mut Vec<u8>, n: usize)
    ensures
        final(out)@ == old(out)@ + decimal(n as nat),
    decreases n,
{
    if n >= 10 {
        push_decimal(out, n / 10);
    }
    out.push((48 + n % 10) as u8);
    assert(final(out)@ =~= old(out)@ + decimal(n as nat));
}

fn push_all(out: &mut Vec<u8>, bytes: &[u8])
    ensures
        final(out)@ == old(out)@ + bytes@,
{
    let mut i: usize = 0;
    while i < bytes.len()
        invariant
            i <= bytes@.len(),
            out@ == old(out)@ + bytes@.subrange(0, i as int),
        decreases bytes@.len() - i,
    {
        out.push(bytes[i]);
        i = i + 1;
        assert(out@ =~= old(out)@ + bytes@.subrange(0, i as int));
    }
    assert(bytes@.subrange(0, i as int) =~= bytes@);
}

/// The key of the lock of partition `n`: `"/sync_locks/"` followed by `n` in decimal.
pub fn sync_lock_key_bytes(n: usize) -> (key: Vec<u8>)
    ensures
        key@ == sync_lock_key(n as nat),
{
    let mut key = sync_lock_prefix_bytes();
    push_decimal(&mut key, n);
    key
}

/// The key of the membership record of `node`: `"/nodes/"` followed by the node id.
pub fn replica_key_bytes(node: &[u8]) -> (key: Vec<u8>)
    ensures
        key@ == replica_key(node@),
{
    let mut key = replica_prefix_bytes();
    push_all(&mut key, node);
    key
}

/// The number spelled by `digits` when it is one or more ASCII digits with a value that fits in
/// a `u16`; `None` otherwise.
pub fn parse_partition_number(digits: &[u8]) -> (r: Option<u16>)
    ensures
        r == (if digits@.len() > 0 && all_digits(digits@) && digits_value(digits@) <= u16::MAX {
            Some(digits_value(digits@) as u16)
        } else {
            None::<u16>
        }),
{
    if digits.len() == 0 {
        return None;
    }
    let mut acc: u32 = 0;
    let mut i: usize = 0;
    while i < digits.len()
        invariant
            i <= digits@.len(),
            all_digits(digits@.subrange(0, i as int)),
            acc == digits_value(digits@.subrange(0, i as int)),
            acc <= u16::MAX,
        decreases digits@.len() - i,
    {
        let b = digits[i];
        let ghost prefix = digits@.subrange(0, i as int);
        let ghost next = digits@.subrange(0, i as int + 1);
        assert(next.drop_last() =~= prefix);
        if b < 48 || b > 57 {
            assert(!all_digits(digits@)) by {
                assert(digits@[i as int] == b);
            }
            return None;
        }
        acc = acc * 10 + (b - 48) as u32;
        assert(all_digits(next)) by {
            assert forall|j: int| 0 <= j < next.len() implies is_digit(#[trigger] next[j]) by {
                if j < i {
                    assert(next[j] == prefix[j]);
                }
            }
        }
        i = i + 1;
        if acc > 65535 {
            proof {
                if all_digits(digits@) {
                    lemma_digits_value_prefix_le(digits@, i as int);
                }
            }
            return None;
        }
    }
    assert(digits@.subrange(0, i as int) =~= digits@);
    Some(acc as u16)
}

/// The partition that a lock key names, if it is one.
pub fn partition_of_lock_key(key: &[u8]) -> (r: Option<u16>)
    ensures
        r == lock_key_partition(key@),
{
    let prefix = sync_lock_prefix_bytes();
    let l = prefix.len();
    if key.len() < l {
        return None;
    }
    let mut i: usize = 0;
    while i < l
        invariant
            l == prefix@.len(),
            prefix@ == sync_lock_prefix(),
            l <= key@.len(),
            i <= l,
            key@.subrange(0, i as int) == prefix@.subrange(0, i as int),
        decreases l - i,
    {
        if key[i] != prefix[i] {
            assert(!has_prefix(key@, sync_lock_prefix())) by {
                assert(key@.subrange(0, l as int)[i as int] == key@[i as int]);
            }
            return None;
        }
        i = i + 1;
        assert(key@.subrange(0, i as int) =~= prefix@.subrange(0, i as int)) by {
            assert forall|j: int| 0 <= j < i implies #[trigger] key@.subrange(0, i as int)[j]
                == prefix@.subrange(0, i as int)[j] by {
                if j < i - 1 {
                    assert(key@.subrange(0, i - 1)[j] == prefix@.subrange(0, i - 1)[j]);
                }
            }
        }
    }
    assert(prefix@.subrange(0, l as int) =~= prefix@);
    let mut digits: Vec<u8> = Vec::new();
    let mut j: usize = l;
    while j < key.len()
        invariant
            l <= j <= key@.len(),
            digits@ == key@.subrange(l as int, j as int),
        decreases key@.len() - j,
    {
        digits.push(key[j]);
        j = j + 1;
        assert(digits@ =~= key@.subrange(l as int, j as int));
    }
    parse_partition_number(&digits)
}

/// Whether two byte strings are equal.
fn bytes_equal(a: &[u8], b: &[u8]) -> (r: bool)
    ensures
        r == (a@ == b@),
{
    if a.len() != b.len() {
        return false;
    }
    let mut i: usize = 0;
    while i < a.len()
        invariant
            a@.len() == b@.len(),
            i <= a@.len(),
            a@.subrange(0, i as int) == b@.subrange(0, i as int),
        decreases a@.len() - i,
    {
        if a[i] != b[i] {
            return false;
        }
        i = i + 1;
        assert(a@.subrange(0, i as int) =~= b@.subrange(0, i as int)) by {
            assert forall|j: int| 0 <= j < i implies #[trigger] a@.subrange(0, i as int)[j]
                == b@.subrange(0, i as int)[j] by {
                if j < i - 1 {
                    assert(a@.subrange(0, i - 1)[j] == b@.subrange(0, i - 1)[j]);
                }
            }
        }
    }
    assert(a@.subrange(0, i as int) =~= a@);
    assert(b@.subrange(0, i as int) =~= b@);
    true
}

/// The partitions `p` in `[0, count)` for which `p % w == i` is `owned`, in increasing order.
pub open spec fn partitions_where(i: int, w: int, count: nat, owned: bool) -> Seq<usize>
    decreases count,
{
    if count == 0 {
        Seq::empty()
    } else {
        let rest = partitions_where(i, w, (count - 1) as nat, owned);
        if ((((count - 1) as int) % w == i) == owned) {
            rest.push((count - 1) as usize)
        } else {
            rest
        }
    }
}

/// The shard of the worker at index `i` among `w` workers: `{ p in [0, count) : p % w == i }`,
/// listed in increasing order; a pure function of `(i, w, count)`.
pub proof fn lemma_shard_members(i: int, w: int, count: nat, owned: bool)
    requires
        w > 0,
        count <= usize::MAX + 1,
    ensures
        forall|p: int|
            #![trigger partitions_where(i, w, count, owned).contains(p as usize)]
            0 <= p < count ==> (partitions_where(i, w, count, owned).contains(p as usize) <==> ((
            p % w == i) == owned)),
        forall|k: int|
            0 <= k < partitions_where(i, w, count, owned).len() ==> #[trigger] partitions_where(
                i,
                w,
                count,
                owned,
            )[k] < count && ((partitions_where(i, w, count, owned)[k] as int) % w == i) == owned,
        forall|a: int, b: int|
            0 <= a < b < partitions_where(i, w, count, owned).len() ==> #[trigger] partitions_where(
                i,
                w,
                count,
                owned,
            )[a] < #[trigger] partitions_where(i, w, count, owned)[b],
    decreases count,
{
    if count > 0 {
        let c1 = (count - 1) as nat;
        lemma_shard_members(i, w, c1, owned);
        let rest = partitions_where(i, w, c1, owned);
        let all = partitions_where(i, w, count, owned);
        assert forall|p: int| 0 <= p < count implies (#[trigger] all.contains(p as usize) <==> ((p
            % w == i) == owned)) by {
            if p < c1 {
                if all.contains(p as usize) && !rest.contains(p as usize) {
                    let k = choose|k: int| 0 <= k < all.len() && all[k] == p as usize;
                    assert(k == rest.len());
                }
                if rest.contains(p as usize) {
                    let k = choose|k: int| 0 <= k < rest.len() && rest[k] == p as usize;
                    assert(all[k] == p as usize);
                }
            } else {
                if ((p % w == i) == owned) {
                    assert(all[all.len() - 1] == p as usize);
                } else {
                    if all.contains(p as usize) {
                        let k = choose|k: int| 0 <= k < all.len() && all[k] == p as usize;
                        assert(rest[k] < c1);
                    }
                }
            }
        }
    }
}

/// The partitions a worker should hold locks for and those it should not, out of
/// `number_of_sync_partitions`, when it sits at `current_worker_index` among `workers_count`
/// workers.
#[derive(Debug)]
pub struct SyncRecordsToClaimOrNot {
    pub do_claim: Vec<usize>,
    pub no_claim: Vec<usize>,
}

/// Split `[0, number_of_sync_partitions)` into the worker's shard (`p % workers_count ==
/// current_worker_index`) and the rest, each in increasing order.
pub fn sync_records_to_claim_or_not(
    current_worker_index: usize,
    number_of_sync_partitions: usize,
    workers_count: usize,
) -> (r: SyncRecordsToClaimOrNot)
    requires
        workers_count > 0,
    ensures
        r.do_claim@ == partitions_where(
            current_worker_index as int,
            workers_count as int,
            number_of_sync_partitions as nat,
            true,
        ),
        r.no_claim@ == partitions_where(
            current_worker_index as int,
            workers_count as int,
            number_of_sync_partitions as nat,
            false,
        ),
{
    let mut do_claim: Vec<usize> = Vec::new();
    let mut no_claim: Vec<usize> = Vec::new();
    let mut p: usize = 0;
    while p < number_of_sync_partitions
        invariant
            workers_count > 0,
            p <= number_of_sync_partitions,
            do_claim@ == partitions_where(
                current_worker_index as int,
                workers_count as int,
                p as nat,
                true,
            ),
            no_claim@ == partitions_where(
                current_worker_index as int,
                workers_count as int,
                p as nat,
                false,
            ),
        decreases number_of_sync_partitions - p,
    {
        if p % workers_count == current_worker_index {
            do_claim.push(p);
        } else {
            no_claim.push(p);
        }
        p = p + 1;
    }
    SyncRecordsToClaimOrNot { do_claim, no_claim }
}

/// `txn` claims the lock of partition `p` for `node` under `lease`: it writes the node id
/// bound to the lease only if the lock does not exist yet.
pub open spec fn is_claim_txn(txn: TxnRequest, node: Seq<u8>, lease: i64, p: nat) -> bool {
    &&& txn.key@ == sync_lock_key(p)
    &&& txn.compare is VersionIsZero
    &&& match txn.on_success {
        RequestOp::Put { value, lease: l } => value@ == node && l == lease,
        RequestOp::Delete => false,
    }
}

/// `txn` releases the lock of partition `p` if, and only if, `node` holds it.
pub open spec fn is_release_txn(txn: TxnRequest, node: Seq<u8>, p: nat) -> bool {
    &&& txn.key@ == sync_lock_key(p)
    &&& match txn.compare {
        Compare::ValueEquals(v) => v@ == node,
        Compare::VersionIsZero => false,
    }
    &&& txn.on_success is Delete
}

/// The transactions that reconcile the locks with the shard of the worker at index `i` among
/// `w`: first a release of every partition outside the shard, then a claim of every partition
/// in it, each in increasing partition order.
pub open spec fn is_reconciliation_plan(
    txns: Seq<TxnRequest>,
    node: Seq<u8>,
    lease: i64,
    i: int,
    w: int,
    count: nat,
) -> bool {
    let release = partitions_where(i, w, count, false);
    let claim = partitions_where(i, w, count, true);
    &&& txns.len() == release.len() + claim.len()
    &&& forall|k: int|
        0 <= k < release.len() ==> is_release_txn(#[trigger] txns[k], node, release[k] as nat)
    &&& forall|k: int|
        release.len() <= k < txns.len() ==> is_claim_txn(
            #[trigger] txns[k],
            node,
            lease,
            claim[k - release.len()] as nat,
        )
}

/// The transaction that claims the lock of `partition` for `worker_id`, bound to
/// `current_lease`, when no one holds it.
pub fn sync_lock_claim_txn(current_lease: i64, worker_id: &[u8], partition: usize) -> (txn:
    TxnRequest)
    ensures
        is_claim_txn(txn, worker_id@, current_lease, partition as nat),
{
    TxnRequest {
        key: sync_lock_key_bytes(partition),
        compare: Compare::VersionIsZero,
        on_success: RequestOp::Put { value: vstd::slice::slice_to_vec(worker_id), lease: current_lease },
    }
}

/// The transaction that deletes the lock of `partition` if `worker_id` holds it.
pub fn sync_lock_release_txn(worker_id: &[u8], partition: usize) -> (txn: TxnRequest)
    ensures
        is_release_txn(txn, worker_id@, partition as nat),
{
    TxnRequest {
        key: sync_lock_key_bytes(partition),
        compare: Compare::ValueEquals(vstd::slice::slice_to_vec(worker_id)),
        on_success: RequestOp::Delete,
    }
}

/// The lock transactions of one reconciliation: release every partition outside the worker's
/// shard that it may hold, then claim every partition of its shard.
pub fn sync_lock_reconciliation_txns(
    current_lease: i64,
    worker_id: &[u8],
    number_of_sync_partitions: usize,
    workers_count: usize,
    current_worker_index: usize,
) -> (txns: Vec<TxnRequest>)
    requires
        workers_count > 0,
    ensures
        is_reconciliation_plan(
            txns@,
            worker_id@,
            current_lease,
            current_worker_index as int,
            workers_count as int,
            number_of_sync_partitions as nat,
        ),
{
    let split = sync_records_to_claim_or_not(
        current_worker_index,
        number_of_sync_partitions,
        workers_count,
    );
    let mut txns: Vec<TxnRequest> = Vec::new();
    let mut k: usize = 0;
    while k < split.no_claim.len()
        invariant
            k <= split.no_claim@.len(),
            txns@.len() == k,
            forall|j: int|
                0 <= j < k ==> is_release_txn(
                    #[trigger] txns@[j],
                    worker_id@,
                    split.no_claim@[j] as nat,
                ),
        decreases split.no_claim@.len() - k,
    {
        txns.push(sync_lock_release_txn(worker_id, split.no_claim[k]));
        k = k + 1;
    }
    let n_release = split.no_claim.len();
    let mut k: usize = 0;
    while k < split.do_claim.len()
        invariant
            n_release == split.no_claim@.len(),
            k <= split.do_claim@.len(),
            txns@.len() == n_release + k,
            forall|j: int|
                0 <= j < n_release ==> is_release_txn(
                    #[trigger] txns@[j],
                    worker_id@,
                    split.no_claim@[j] as nat,
                ),
            forall|j: int|
                n_release <= j < n_release + k ==> is_claim_txn(
                    #[trigger] txns@[j],
                    worker_id@,
                    current_lease,
                    split.do_claim@[j - n_release] as nat,
                ),
        decreases split.do_claim@.len() - k,
    {
        txns.push(sync_lock_claim_txn(current_lease, worker_id, split.do_claim[k]));
        k = k + 1;
    }
    txns
}

/// `idx` is the position of the first record of `node` in the membership snapshot `workers`.
pub open spec fn is_first_record_of(workers: Seq<KeyValue>, node: Seq<u8>, idx: int) -> bool {
    &&& 0 <= idx < workers.len()
    &&& workers[idx].key@ == replica_key(node)
    &&& forall|j: int| 0 <= j < idx ==> #[trigger] workers[j].key@ != replica_key(node)
}

/// The position of `node`'s membership record among `workers`, the records of a range read
/// of `"/nodes/"` in the store's key order; `None` when it is not there.
pub fn worker_index(workers: &Vec<KeyValue>, node: &[u8]) -> (r: Option<usize>)
    ensures
        match r {
            Some(idx) => is_first_record_of(workers@, node@, idx as int),
            None => forall|j: int|
                0 <= j < workers@.len() ==> #[trigger] workers@[j].key@ != replica_key(node@),
        },
{
    let key = replica_key_bytes(node);
    let mut i: usize = 0;
    while i < workers.len()
        invariant
            i <= workers@.len(),
            key@ == replica_key(node@),
            forall|j: int| 0 <= j < i ==> #[trigger] workers@[j].key@ != replica_key(node@),
        decreases workers@.len() - i,
    {
        if bytes_equal(&workers[i].key, &key) {
            return Some(i);
        }
        i = i + 1;
    }
    None
}

/// The lock transactions this node should run, given the membership snapshot `workers` (a
/// range read of `"/nodes/"`): the reconciliation of its shard at its index among them, or
/// `None` when its own record is not in the snapshot.
pub fn balancer_txns(
    workers: &Vec<KeyValue>,
    node: &[u8],
    current_lease: i64,
    number_of_sync_partitions: usize,
) -> (r: Option<Vec<TxnRequest>>)
    ensures
        match r {
            Some(txns) => exists|idx: int|
                #[trigger] is_first_record_of(workers@, node@, idx) && is_reconciliation_plan(
                    txns@,
                    node@,
                    current_lease,
                    idx,
                    workers@.len() as int,
                    number_of_sync_partitions as nat,
                ),
            None => forall|j: int|
                0 <= j < workers@.len() ==> #[trigger] workers@[j].key@ != replica_key(node@),
        },
{
    match worker_index(workers, node) {
        None => None,
        Some(idx) => {
            let txns = sync_lock_reconciliation_txns(
                current_lease,
                node,
                number_of_sync_partitions,
                workers.len(),
                idx,
            );
            assert(is_first_record_of(workers@, node@, idx as int));
            assert(is_reconciliation_plan(
                txns@,
                node@,
                current_lease,
                idx as int,
                workers@.len() as int,
                number_of_sync_partitions as nat,
            ));
            Some(txns)
        },
    }
}

/// The partitions, in the order of `locks`, whose lock `node` holds: the lock's value is the
/// node id and its key names a partition.
pub open spec fn confirmed_partitions(locks: Seq<KeyValue>, node: Seq<u8>) -> Seq<u16>
    decreases locks.len(),
{
    if locks.len() == 0 {
        Seq::empty()
    } else {
        let rest = confirmed_partitions(locks.drop_last(), node);
        let kv = locks.last();
        match lock_key_partition(kv.key@) {
            Some(p) => if kv.value@ == node {
                rest.push(p)
            } else {
                rest
            },
            None => rest,
        }
    }
}

/// The partitions that `node` is confirmed to own, from a range read of `"/sync_locks/"`:
/// those whose lock holds the node id. Keys that name no partition are passed over.
pub fn confirmed_owned_partitions(locks: &Vec<KeyValue>, node: &[u8]) -> (owned: Vec<u16>)
    ensures
        owned@ == confirmed_partitions(locks@, node@),
{
    let mut owned: Vec<u16> = Vec::new();
    let mut i: usize = 0;
    while i < locks.len()
        invariant
            i <= locks@.len(),
            owned@ == confirmed_partitions(locks@.subrange(0, i as int), node@),
        decreases locks@.len() - i,
    {
        let ghost before = locks@.subrange(0, i as int);
        let ghost after = locks@.subrange(0, i as int + 1);
        assert(after.drop_last() =~= before);
        if bytes_equal(&locks[i].value, node) {
            match partition_of_lock_key(&locks[i].key) {
                Some(p) => owned.push(p),
                None => {},
            }
        }
        i = i + 1;
    }
    assert(locks@.subrange(0, i as int) =~= locks@);
    owned
}

/// The membership record of `node_name`: `"/nodes/<node_name>"` = `"replica"`, bound to
/// `lease`.
pub fn record_node_membership_request(node_name: &[u8], lease: i64) -> (put: PutRequest)
    ensures
        put.key@ == replica_key(node_name@),
        put.value@ == replica_value(),
        put.lease == lease,
{
    // "replica"
    let value: Vec<u8> = vec![114, 101, 112, 108, 105, 99, 97];
    assert(value@ =~= replica_value());
    PutRequest { key: replica_key_bytes(node_name), value, lease }
}

/// A range read of every key under `prefix`.
fn prefix_range_request(prefix: Vec<u8>, count_only: bool) -> (req: RangeRequest)
    requires
        prefix@.len() > 0,
        prefix@.last() < 255,
    ensures
        req.key@ == prefix@,
        req.range_end@ == prefix_range_end(prefix@),
        req.count_only == count_only,
{
    let range_end = calculate_prefix_range_end(prefix.as_slice());
    RangeRequest { key: prefix, range_end, count_only }
}

/// The read that counts the membership records.
pub fn cluster_members_count_request() -> (req: RangeRequest)
    ensures
        req.key@ == replica_prefix(),
        req.range_end@ == prefix_range_end(replica_prefix()),
        req.count_only,
{
    prefix_range_request(replica_prefix_bytes(), true)
}

/// The read of every membership record.
pub fn all_worker_records_request() -> (req: RangeRequest)
    ensures
        req.key@ == replica_prefix(),
        req.range_end@ == prefix_range_end(replica_prefix()),
        !req.count_only,
{
    prefix_range_request(replica_prefix_bytes(), false)
}

/// The read of every partition lock.
pub fn all_sync_lock_records_request() -> (req: RangeRequest)
    ensures
        req.key@ == sync_lock_prefix(),
        req.range_end@ == prefix_range_end(sync_lock_prefix()),
        !req.count_only,
{
    prefix_range_request(sync_lock_prefix_bytes(), false)
}

} // verus!
