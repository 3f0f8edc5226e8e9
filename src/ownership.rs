//! What the partition-lock transactions guarantee, stated over a model of the store's keys:
//! a held lock is never taken over by another node, the first claim of a free lock wins, a
//! reconciliation run twice writes nothing the second time, and a stable fleet ends up with
//! every partition held by its shard's owner.
use vstd::prelude::*;

use crate::cluster_management::{
    confirmed_partitions, is_claim_txn, is_reconciliation_plan, is_release_txn,
    lemma_lock_key_injective, lemma_lock_key_round_trip, lemma_shard_members, lock_key_partition,
    partitions_where, sync_lock_key,
};
use crate::etcd::{
    apply_txn, apply_txns, expire_lease, txn_condition_holds, Compare, KeyValue, StoreModel,
    TxnRequest,
};

verus! {

/// `txn` is a first-claim (create only if absent) or an owner-only release (delete only if
/// the value matches), the two shapes of lock transaction.
pub open spec fn is_lock_txn(txn: TxnRequest) -> bool {
    ||| txn.compare is VersionIsZero && txn.on_success is Put
    ||| txn.compare is ValueEquals && txn.on_success is Delete
}

/// `txn` is a lock transaction that `node` does not issue as a release: any claim, or a
/// release on behalf of another node.
pub open spec fn is_lock_txn_not_releasing_for(txn: TxnRequest, node: Seq<u8>) -> bool {
    ||| txn.compare is VersionIsZero && txn.on_success is Put
    ||| match txn.compare {
        Compare::ValueEquals(v) => v@ != node && txn.on_success is Delete,
        Compare::VersionIsZero => false,
    }
}

proof fn lemma_condition_local(s1: StoreModel, s2: StoreModel, txn: TxnRequest)
    requires
        s1.contains_key(txn.key@) == s2.contains_key(txn.key@),
        s1.contains_key(txn.key@) ==> s1[txn.key@] == s2[txn.key@],
    ensures
        txn_condition_holds(s1, txn) == txn_condition_holds(s2, txn),
{
}

proof fn lemma_apply_settles(store: StoreModel, txns: Seq<TxnRequest>)
    requires
        forall|j: int| 0 <= j < txns.len() ==> is_lock_txn(#[trigger] txns[j]),
        forall|a: int, b: int|
            0 <= a < txns.len() && 0 <= b < txns.len() && a != b ==> #[trigger] txns[a].key@
                != #[trigger] txns[b].key@,
    ensures
        forall|j: int|
            0 <= j < txns.len() ==> !txn_condition_holds(
                apply_txns(store, txns),
                #[trigger] txns[j],
            ),
    decreases txns.len(),
{
    if txns.len() > 0 {
        let front = txns.drop_last();
        let last = txns.last();
        lemma_apply_settles(store, front);
        let x = apply_txns(store, front);
        let y = apply_txn(x, last);
        assert(is_lock_txn(txns[txns.len() - 1]));
        assert forall|j: int| 0 <= j < txns.len() implies !txn_condition_holds(
            y,
            #[trigger] txns[j],
        ) by {
            if j < txns.len() - 1 {
                assert(front[j] == txns[j]);
                assert(txns[j].key@ != txns[txns.len() - 1].key@);
                lemma_condition_local(x, y, txns[j]);
            }
        }
    }
}

proof fn lemma_apply_unsettled_noop(store: StoreModel, txns: Seq<TxnRequest>)
    requires
        forall|j: int| 0 <= j < txns.len() ==> !txn_condition_holds(store, #[trigger] txns[j]),
    ensures
        apply_txns(store, txns) == store,
    decreases txns.len(),
{
    if txns.len() > 0 {
        let front = txns.drop_last();
        assert forall|j: int| 0 <= j < front.len() implies !txn_condition_holds(
            store,
            #[trigger] front[j],
        ) by {
            assert(front[j] == txns[j]);
        }
        lemma_apply_unsettled_noop(store, front);
        assert(!txn_condition_holds(store, txns[txns.len() - 1]));
    }
}

/// A lock held by `owner` stays exactly as it is through any sequence of lock transactions
/// in which no release is issued on `owner`'s behalf: a first-claim never overwrites a held
/// lock, and an owner-only release by another node never matches. Each lock key holds one
/// value, so at no time do two nodes hold the same partition.
pub proof fn lemma_held_lock_kept(store: StoreModel, txns: Seq<TxnRequest>, key: Seq<u8>)
    requires
        store.contains_key(key),
        forall|j: int|
            0 <= j < txns.len() ==> is_lock_txn_not_releasing_for(
                #[trigger] txns[j],
                store[key].0,
            ),
    ensures
        apply_txns(store, txns).contains_key(key),
        apply_txns(store, txns)[key] == store[key],
    decreases txns.len(),
{
    if txns.len() > 0 {
        let front = txns.drop_last();
        assert forall|j: int| 0 <= j < front.len() implies is_lock_txn_not_releasing_for(
            #[trigger] front[j],
            store[key].0,
        ) by {
            assert(front[j] == txns[j]);
        }
        lemma_held_lock_kept(store, front, key);
        assert(is_lock_txn_not_releasing_for(txns[txns.len() - 1], store[key].0));
    }
}

/// When several nodes race to claim a free lock, the first claim to reach the store wins, and
/// the lock stays with that node through every later claim and every release issued by
/// another node.
pub proof fn lemma_first_claim_wins(
    store: StoreModel,
    first: TxnRequest,
    node: Seq<u8>,
    lease: i64,
    p: nat,
    rest: Seq<TxnRequest>,
)
    requires
        !store.contains_key(sync_lock_key(p)),
        is_claim_txn(first, node, lease, p),
        forall|j: int| 0 <= j < rest.len() ==> is_lock_txn_not_releasing_for(#[trigger] rest[j], node),
    ensures
        apply_txns(apply_txn(store, first), rest).contains_key(sync_lock_key(p)),
        apply_txns(apply_txn(store, first), rest)[sync_lock_key(p)] == (node, lease),
{
    let after = apply_txn(store, first);
    assert(after[sync_lock_key(p)] == (node, lease));
    lemma_held_lock_kept(after, rest, sync_lock_key(p));
}

/// The transactions of a reconciliation plan are lock transactions on pairwise distinct keys.
proof fn lemma_plan_keys_distinct(
    txns: Seq<TxnRequest>,
    node: Seq<u8>,
    lease: i64,
    i: int,
    w: int,
    count: nat,
)
    requires
        w > 0,
        count <= usize::MAX + 1,
        is_reconciliation_plan(txns, node, lease, i, w, count),
    ensures
        forall|j: int| 0 <= j < txns.len() ==> is_lock_txn(#[trigger] txns[j]),
        forall|a: int, b: int|
            0 <= a < txns.len() && 0 <= b < txns.len() && a != b ==> #[trigger] txns[a].key@
                != #[trigger] txns[b].key@,
{
    let release = partitions_where(i, w, count, false);
    let claim = partitions_where(i, w, count, true);
    lemma_shard_members(i, w, count, false);
    lemma_shard_members(i, w, count, true);
    let rl = release.len() as int;
    assert forall|j: int| 0 <= j < txns.len() implies is_lock_txn(#[trigger] txns[j]) by {
        if j < rl {
            assert(is_release_txn(txns[j], node, release[j] as nat));
        } else {
            assert(is_claim_txn(txns[j], node, lease, claim[j - rl] as nat));
        }
    }
    assert forall|a: int, b: int|
        0 <= a < txns.len() && 0 <= b < txns.len() && a != b implies #[trigger] txns[a].key@
        != #[trigger] txns[b].key@ by {
        let pa: nat = if a < rl {
            release[a] as nat
        } else {
            claim[a - rl] as nat
        };
        let pb: nat = if b < rl {
            release[b] as nat
        } else {
            claim[b - rl] as nat
        };
        if a < rl {
            assert(is_release_txn(txns[a], node, pa));
        } else {
            assert(is_claim_txn(txns[a], node, lease, pa));
        }
        if b < rl {
            assert(is_release_txn(txns[b], node, pb));
        } else {
            assert(is_claim_txn(txns[b], node, lease, pb));
        }
        if a < rl && b < rl {
            if a < b {
                assert(release[a] < release[b]);
            } else {
                assert(release[b] < release[a]);
            }
        } else if a >= rl && b >= rl {
            if a < b {
                assert(claim[a - rl] < claim[b - rl]);
            } else {
                assert(claim[b - rl] < claim[a - rl]);
            }
        } else if a < rl {
            assert((release[a] as int) % w != i);
            assert((claim[b - rl] as int) % w == i);
        } else {
            assert((release[b] as int) % w != i);
            assert((claim[a - rl] as int) % w == i);
        }
        lemma_lock_key_injective(pa, pb);
    }
}

/// Calling the balancer twice in a row with unchanged membership performs no net writes the
/// second time: after one run of a reconciliation plan every compare-and-swap condition of the
/// same node's plan fails, so running it again leaves the store as the first run left it.
pub proof fn lemma_reconciliation_idempotent(
    store: StoreModel,
    txns: Seq<TxnRequest>,
    again: Seq<TxnRequest>,
    node: Seq<u8>,
    lease: i64,
    i: int,
    w: int,
    count: nat,
)
    requires
        w > 0,
        count <= usize::MAX + 1,
        is_reconciliation_plan(txns, node, lease, i, w, count),
        is_reconciliation_plan(again, node, lease, i, w, count),
    ensures
        forall|j: int|
            0 <= j < again.len() ==> !txn_condition_holds(
                apply_txns(store, txns),
                #[trigger] again[j],
            ),
        apply_txns(apply_txns(store, txns), again) == apply_txns(store, txns),
{
    lemma_plan_keys_distinct(txns, node, lease, i, w, count);
    lemma_apply_settles(store, txns);
    let settled = apply_txns(store, txns);
    let release = partitions_where(i, w, count, false);
    let claim = partitions_where(i, w, count, true);
    let rl = release.len() as int;
    assert forall|j: int| 0 <= j < again.len() implies !txn_condition_holds(
        settled,
        #[trigger] again[j],
    ) by {
        assert(!txn_condition_holds(settled, txns[j]));
        if j < rl {
            assert(is_release_txn(txns[j], node, release[j] as nat));
            assert(is_release_txn(again[j], node, release[j] as nat));
        } else {
            assert(is_claim_txn(txns[j], node, lease, claim[j - rl] as nat));
            assert(is_claim_txn(again[j], node, lease, claim[j - rl] as nat));
        }
    }
    lemma_apply_unsettled_noop(settled, again);
}

/// `s1` and `s2` agree on `key`.
pub open spec fn same_at(s1: StoreModel, s2: StoreModel, key: Seq<u8>) -> bool {
    &&& s1.contains_key(key) == s2.contains_key(key)
    &&& s1.contains_key(key) ==> s1[key] == s2[key]
}

proof fn lemma_apply_untouched(store: StoreModel, txns: Seq<TxnRequest>, key: Seq<u8>)
    requires
        forall|j: int| 0 <= j < txns.len() ==> #[trigger] txns[j].key@ != key,
    ensures
        same_at(apply_txns(store, txns), store, key),
    decreases txns.len(),
{
    if txns.len() > 0 {
        let front = txns.drop_last();
        assert forall|j: int| 0 <= j < front.len() implies #[trigger] front[j].key@ != key by {
            assert(front[j] == txns[j]);
        }
        lemma_apply_untouched(store, front, key);
        assert(txns[txns.len() - 1].key@ != key);
    }
}

proof fn lemma_apply_at_key(store: StoreModel, txns: Seq<TxnRequest>, m: int, key: Seq<u8>)
    requires
        0 <= m < txns.len(),
        txns[m].key@ == key,
        forall|j: int| 0 <= j < txns.len() && j != m ==> #[trigger] txns[j].key@ != key,
    ensures
        same_at(apply_txns(store, txns), apply_txn(store, txns[m]), key),
    decreases txns.len(),
{
    let front = txns.drop_last();
    let last = txns[txns.len() - 1];
    if m == txns.len() - 1 {
        assert forall|j: int| 0 <= j < front.len() implies #[trigger] front[j].key@ != key by {
            assert(front[j] == txns[j]);
        }
        lemma_apply_untouched(store, front, key);
        lemma_condition_local(apply_txns(store, front), store, last);
    } else {
        assert forall|j: int| 0 <= j < front.len() && j != m implies #[trigger] front[j].key@
            != key by {
            assert(front[j] == txns[j]);
        }
        assert(front[m] == txns[m]);
        lemma_apply_at_key(store, front, m, key);
        assert(last.key@ != key);
    }
}

/// What one run of a reconciliation plan does to the lock of partition `p`: the shard's owner
/// takes it when it is free; another node drops it when it holds it; otherwise it is left.
proof fn lemma_plan_effect_at(
    store: StoreModel,
    txns: Seq<TxnRequest>,
    node: Seq<u8>,
    lease: i64,
    i: int,
    w: int,
    count: nat,
    p: nat,
)
    requires
        w > 0,
        count <= usize::MAX + 1,
        p < count,
        is_reconciliation_plan(txns, node, lease, i, w, count),
    ensures
        ({
            let k = sync_lock_key(p);
            let after = apply_txns(store, txns);
            if (p as int) % w == i {
                if !store.contains_key(k) {
                    after.contains_key(k) && after[k] == (node, lease)
                } else {
                    same_at(after, store, k)
                }
            } else {
                if store.contains_key(k) && store[k].0 == node {
                    !after.contains_key(k)
                } else {
                    same_at(after, store, k)
                }
            }
        }),
{
    let k = sync_lock_key(p);
    let release = partitions_where(i, w, count, false);
    let claim = partitions_where(i, w, count, true);
    lemma_shard_members(i, w, count, false);
    lemma_shard_members(i, w, count, true);
    lemma_plan_keys_distinct(txns, node, lease, i, w, count);
    let rl = release.len() as int;
    let m: int = if (p as int) % w == i {
        assert(claim.contains(p as usize));
        let c = choose|c: int| 0 <= c < claim.len() && claim[c] == p as usize;
        assert(is_claim_txn(txns[rl + c], node, lease, claim[c] as nat));
        rl + c
    } else {
        assert(release.contains(p as usize));
        let c = choose|c: int| 0 <= c < release.len() && release[c] == p as usize;
        assert(is_release_txn(txns[c], node, release[c] as nat));
        c
    };
    assert(txns[m].key@ == k);
    assert forall|j: int| 0 <= j < txns.len() && j != m implies #[trigger] txns[j].key@ != k by {
        assert(txns[j].key@ != txns[m].key@);
    }
    lemma_apply_at_key(store, txns, m, k);
}

/// The store after the nodes in `order` each ran their whole plan, one after another.
pub open spec fn run_plans(store: StoreModel, plans: Seq<Seq<TxnRequest>>, order: Seq<int>) -> StoreModel
    decreases order.len(),
{
    if order.len() == 0 {
        store
    } else {
        apply_txns(run_plans(store, plans, order.drop_last()), plans[order.last()])
    }
}

/// `plans[j]` is the reconciliation plan of `members[j]` under `leases[j]`, at index `j` of a
/// stable membership of distinct nodes.
pub open spec fn fleet_plans(
    members: Seq<Seq<u8>>,
    leases: Seq<i64>,
    plans: Seq<Seq<TxnRequest>>,
    count: nat,
) -> bool {
    &&& members.len() > 0
    &&& leases.len() == members.len()
    &&& plans.len() == members.len()
    &&& count <= usize::MAX + 1
    &&& forall|a: int, b: int|
        0 <= a < members.len() && 0 <= b < members.len() && a != b ==> #[trigger] members[a]
            != #[trigger] members[b]
    &&& forall|j: int|
        0 <= j < members.len() ==> is_reconciliation_plan(
            #[trigger] plans[j],
            members[j],
            leases[j],
            j,
            members.len() as int,
            count,
        )
}

/// `order` is one round of the fleet: every member, possibly some more than once.
pub open spec fn is_round(order: Seq<int>, n: int) -> bool {
    &&& forall|t: int| 0 <= t < order.len() ==> 0 <= #[trigger] order[t] < n
    &&& forall|j: int| 0 <= j < n ==> #[trigger] order.contains(j)
}

spec fn held_by_shard_or_unvisited(
    s: StoreModel,
    k: Seq<u8>,
    members: Seq<Seq<u8>>,
    r: int,
    visited: Seq<int>,
) -> bool {
    !s.contains_key(k) || exists|x: int|
        0 <= x < members.len() && #[trigger] members[x] == s[k].0 && (x == r
            || !visited.contains(x))
}

proof fn lemma_contains_push(order: Seq<int>, x: int)
    requires
        order.len() > 0,
    ensures
        order.contains(x) <==> (order.drop_last().contains(x) || order.last() == x),
{
    let front = order.drop_last();
    if order.contains(x) {
        let t = choose|t: int| 0 <= t < order.len() && order[t] == x;
        if t < order.len() - 1 {
            assert(front[t] == x);
        }
    }
    if front.contains(x) {
        let t = choose|t: int| 0 <= t < front.len() && front[t] == x;
        assert(order[t] == x);
    }
    if order.last() == x {
        assert(order[order.len() - 1] == x);
    }
}

proof fn lemma_first_round(
    store: StoreModel,
    members: Seq<Seq<u8>>,
    leases: Seq<i64>,
    plans: Seq<Seq<TxnRequest>>,
    count: nat,
    order: Seq<int>,
    p: nat,
)
    requires
        fleet_plans(members, leases, plans, count),
        p < count,
        forall|t: int| 0 <= t < order.len() ==> 0 <= #[trigger] order[t] < members.len(),
        held_by_shard_or_unvisited(
            store,
            sync_lock_key(p),
            members,
            (p % members.len()) as int,
            Seq::empty(),
        ),
    ensures
        held_by_shard_or_unvisited(
            run_plans(store, plans, order),
            sync_lock_key(p),
            members,
            (p % members.len()) as int,
            order,
        ),
    decreases order.len(),
{
    let k = sync_lock_key(p);
    let w = members.len() as int;
    let r = (p % members.len()) as int;
    if order.len() == 0 {
        if store.contains_key(k) {
            let x = choose|x: int|
                0 <= x < members.len() && #[trigger] members[x] == store[k].0 && (x == r
                    || !Seq::<int>::empty().contains(x));
            assert(!order.contains(x));
        }
    } else {
        let front = order.drop_last();
        let j = order.last();
        assert(0 <= order[order.len() - 1] < w);
        assert forall|t: int| 0 <= t < front.len() implies 0 <= #[trigger] front[t] < w by {
            assert(front[t] == order[t]);
        }
        lemma_first_round(store, members, leases, plans, count, front, p);
        let before = run_plans(store, plans, front);
        let after = run_plans(store, plans, order);
        assert(after == apply_txns(before, plans[j]));
        assert(is_reconciliation_plan(plans[j], members[j], leases[j], j, w, count));
        lemma_plan_effect_at(before, plans[j], members[j], leases[j], j, w, count, p);
        if after.contains_key(k) {
            if (p as int) % w == j && !before.contains_key(k) {
                assert(members[j] == after[k].0);
            } else {
                assert(before.contains_key(k) && after[k] == before[k]);
                let x = choose|x: int|
                    0 <= x < members.len() && #[trigger] members[x] == before[k].0 && (x == r
                        || !front.contains(x));
                lemma_contains_push(order, x);
                if x != r {
                    if x == j {
                        assert((p as int) % w != j);
                    }
                }
                assert(members[x] == after[k].0);
            }
        }
    }
}

spec fn held_by_owner_once_visited(
    s: StoreModel,
    k: Seq<u8>,
    owner: Seq<u8>,
    r: int,
    visited: Seq<int>,
) -> bool {
    &&& s.contains_key(k) ==> s[k].0 == owner
    &&& visited.contains(r) ==> s.contains_key(k)
}

proof fn lemma_second_round(
    store: StoreModel,
    members: Seq<Seq<u8>>,
    leases: Seq<i64>,
    plans: Seq<Seq<TxnRequest>>,
    count: nat,
    order: Seq<int>,
    p: nat,
)
    requires
        fleet_plans(members, leases, plans, count),
        p < count,
        forall|t: int| 0 <= t < order.len() ==> 0 <= #[trigger] order[t] < members.len(),
        store.contains_key(sync_lock_key(p)) ==> store[sync_lock_key(p)].0 == members[(p
            % members.len()) as int],
    ensures
        held_by_owner_once_visited(
            run_plans(store, plans, order),
            sync_lock_key(p),
            members[(p % members.len()) as int],
            (p % members.len()) as int,
            order,
        ),
    decreases order.len(),
{
    let k = sync_lock_key(p);
    let w = members.len() as int;
    let r = (p % members.len()) as int;
    if order.len() > 0 {
        let front = order.drop_last();
        let j = order.last();
        assert(0 <= order[order.len() - 1] < w);
        assert forall|t: int| 0 <= t < front.len() implies 0 <= #[trigger] front[t] < w by {
            assert(front[t] == order[t]);
        }
        lemma_second_round(store, members, leases, plans, count, front, p);
        let before = run_plans(store, plans, front);
        assert(is_reconciliation_plan(plans[j], members[j], leases[j], j, w, count));
        lemma_plan_effect_at(before, plans[j], members[j], leases[j], j, w, count, p);
        lemma_contains_push(order, r);
        if j != r {
            assert(members[j] != members[r]);
        }
    }
}

/// Every partition in `[0, count)` has its lock held by the member whose shard holds it.
pub open spec fn held_by_shard_owners(s: StoreModel, members: Seq<Seq<u8>>, count: nat) -> bool {
    forall|p: nat|
        p < count ==> #[trigger] s.contains_key(sync_lock_key(p)) && s[sync_lock_key(p)].0
            == members[(p % members.len()) as int]
}

/// Coverage under a stable fleet: when the membership stays the same for two full rounds in
/// which every member runs its reconciliation, and every lock held at the start belongs to a
/// member, then afterwards every partition's lock is held by the member whose shard holds it,
/// so the members' owned partitions together are all of `[0, count)`, each owned once.
///
/// A node that left holds no locks once its lease has expired (`lemma_lease_expiry_frees_locks`);
/// a lock held by a live non-member could only be released by its holder, so no member could
/// ever take that partition.
pub proof fn lemma_stable_fleet_coverage(
    store: StoreModel,
    members: Seq<Seq<u8>>,
    leases: Seq<i64>,
    plans: Seq<Seq<TxnRequest>>,
    count: nat,
    first: Seq<int>,
    second: Seq<int>,
)
    requires
        fleet_plans(members, leases, plans, count),
        is_round(first, members.len() as int),
        is_round(second, members.len() as int),
        forall|p: nat|
            p < count && #[trigger] store.contains_key(sync_lock_key(p)) ==> exists|x: int|
                0 <= x < members.len() && #[trigger] members[x] == store[sync_lock_key(p)].0,
    ensures
        held_by_shard_owners(run_plans(run_plans(store, plans, first), plans, second), members, count),
{
    let w = members.len() as int;
    let mid = run_plans(store, plans, first);
    let end = run_plans(mid, plans, second);
    assert forall|p: nat| p < count implies #[trigger] end.contains_key(sync_lock_key(p))
        && end[sync_lock_key(p)].0 == members[(p % members.len()) as int] by {
        let k = sync_lock_key(p);
        let r = (p % members.len()) as int;
        if store.contains_key(k) {
            let x = choose|x: int| 0 <= x < members.len() && #[trigger] members[x] == store[k].0;
            assert(!Seq::<int>::empty().contains(x));
        }
        lemma_first_round(store, members, leases, plans, count, first, p);
        if mid.contains_key(k) {
            let x = choose|x: int|
                0 <= x < members.len() && #[trigger] members[x] == mid[k].0 && (x == r
                    || !first.contains(x));
            assert(first.contains(x));
        }
        lemma_second_round(mid, members, leases, plans, count, second, p);
        assert(second.contains(r));
    }
}

/// When a node's lease expires, exactly the keys bound to that lease disappear: its
/// membership record and every lock it held are freed, and all other keys stay as they were.
pub proof fn lemma_lease_expiry_frees_locks(store: StoreModel, lease: i64, key: Seq<u8>)
    ensures
        expire_lease(store, lease).contains_key(key) <==> store.contains_key(key) && store[key].1
            != lease,
        expire_lease(store, lease).contains_key(key) ==> expire_lease(store, lease)[key]
            == store[key],
{
}

proof fn lemma_confirmed_contains(locks: Seq<KeyValue>, node: Seq<u8>, k: int, p: u16)
    requires
        0 <= k < locks.len(),
        locks[k].key@ == sync_lock_key(p as nat),
        locks[k].value@ == node,
    ensures
        confirmed_partitions(locks, node).contains(p),
    decreases locks.len(),
{
    lemma_lock_key_round_trip(p);
    let front = locks.drop_last();
    let rest = confirmed_partitions(front, node);
    let all = confirmed_partitions(locks, node);
    if k == locks.len() - 1 {
        assert(all == rest.push(p));
        assert(all[all.len() - 1] == p);
    } else {
        assert(front[k] == locks[k]);
        lemma_confirmed_contains(front, node, k, p);
        let i = choose|i: int| 0 <= i < rest.len() && rest[i] == p;
        assert(all[i] == p);
    }
}

proof fn lemma_confirmed_named(locks: Seq<KeyValue>, node: Seq<u8>, q: u16)
    requires
        confirmed_partitions(locks, node).contains(q),
    ensures
        exists|i: int|
            0 <= i < locks.len() && #[trigger] lock_key_partition(locks[i].key@) == Some(q),
    decreases locks.len(),
{
    let front = locks.drop_last();
    let rest = confirmed_partitions(front, node);
    let all = confirmed_partitions(locks, node);
    let t = choose|t: int| 0 <= t < all.len() && all[t] == q;
    if t < rest.len() {
        assert(all[t] == rest[t]);
        lemma_confirmed_named(front, node, q);
        let i = choose|i: int|
            0 <= i < front.len() && #[trigger] lock_key_partition(front[i].key@) == Some(q);
        assert(front[i] == locks[i]);
    } else {
        assert(lock_key_partition(locks[locks.len() - 1].key@) == Some(q));
    }
}

/// `locks` is a range read of the lock prefix of `s`: it returns the lock of every partition
/// below `count` that `s` holds, with its holder, and every key in it that names a partition
/// names one below `count`.
pub open spec fn is_lock_read(locks: Seq<KeyValue>, s: StoreModel, count: nat) -> bool {
    &&& forall|p: nat|
        p < count && #[trigger] s.contains_key(sync_lock_key(p)) ==> exists|i: int|
            0 <= i < locks.len() && locks[i].key@ == sync_lock_key(p) && locks[i].value@ == s[sync_lock_key(
                p,
            )].0
    &&& forall|i: int|
        0 <= i < locks.len() ==> match #[trigger] lock_key_partition(locks[i].key@) {
            Some(q) => q < count,
            None => true,
        }
}

/// Some member's confirmed partitions, read from `locks`, include `q`.
pub open spec fn confirmed_by_some_member(locks: Seq<KeyValue>, members: Seq<Seq<u8>>, q: u16) -> bool {
    exists|j: int|
        0 <= j < members.len() && #[trigger] confirmed_partitions(locks, members[j]).contains(q)
}

/// Coverage under a stable fleet, as the members see it: after two full rounds with the
/// membership unchanged, a read of the locks confirms each partition below `count` to the member
/// whose shard holds it, and the members' confirmed partitions together are exactly
/// `[0, count)`.
pub proof fn lemma_stable_fleet_confirmed_union(
    store: StoreModel,
    members: Seq<Seq<u8>>,
    leases: Seq<i64>,
    plans: Seq<Seq<TxnRequest>>,
    count: nat,
    first: Seq<int>,
    second: Seq<int>,
    locks: Seq<KeyValue>,
)
    requires
        fleet_plans(members, leases, plans, count),
        count <= u16::MAX + 1,
        is_round(first, members.len() as int),
        is_round(second, members.len() as int),
        forall|p: nat|
            p < count && #[trigger] store.contains_key(sync_lock_key(p)) ==> exists|x: int|
                0 <= x < members.len() && #[trigger] members[x] == store[sync_lock_key(p)].0,
        is_lock_read(locks, run_plans(run_plans(store, plans, first), plans, second), count),
    ensures
        forall|q: u16|
            q < count ==> #[trigger] confirmed_partitions(
                locks,
                members[((q as nat) % members.len()) as int],
            ).contains(q),
        forall|q: u16| #[trigger] confirmed_by_some_member(locks, members, q) <==> q < count,
{
    lemma_stable_fleet_coverage(store, members, leases, plans, count, first, second);
    let end = run_plans(run_plans(store, plans, first), plans, second);
    assert forall|q: u16| q < count implies #[trigger] confirmed_partitions(
        locks,
        members[((q as nat) % members.len()) as int],
    ).contains(q) by {
        let p = q as nat;
        assert(end.contains_key(sync_lock_key(p)));
        let i = choose|i: int|
            0 <= i < locks.len() && locks[i].key@ == sync_lock_key(p) && locks[i].value@
                == end[sync_lock_key(p)].0;
        lemma_confirmed_contains(locks, members[((q as nat) % members.len()) as int], i, q);
    }
    assert forall|q: u16| #[trigger] confirmed_by_some_member(locks, members, q) <==> q < count by {
        if confirmed_by_some_member(locks, members, q) {
            let j = choose|j: int|
                0 <= j < members.len() && #[trigger] confirmed_partitions(locks, members[j]).contains(q);
            lemma_confirmed_named(locks, members[j], q);
            let i = choose|i: int|
                0 <= i < locks.len() && #[trigger] lock_key_partition(locks[i].key@) == Some(q);
            assert(match lock_key_partition(locks[i].key@) {
                Some(q2) => q2 < count,
                None => true,
            });
        }
        if q < count {
            let r = ((q as nat) % members.len()) as int;
            assert(confirmed_partitions(locks, members[r]).contains(q));
            assert(0 <= r < members.len());
        }
    }
}

} // verus!
