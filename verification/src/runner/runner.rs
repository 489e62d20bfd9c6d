//! Merging what the workers counted, and sharing a budget among them.

use crate::runner::report::{
    empty_status, is_basic_of, is_extension_of, lemma_merged_status_associative,
    lemma_merged_status_commutative, lemma_merged_status_well_formed, merged_status, output_for,
    report_complete, status_bounded, status_well_formed, CombinedResult, ReportType,
    RunnerReport, RunnerReportView, StatusStore, StatusView,
};
use crate::utils::arguments::Argument;
use crate::utils::utils::{cores_view, cpu_mode_to_cpu_cores, selected_cores, CpuModeError};
use std::collections::HashMap;
use std::hash::Hash;
use vstd::arithmetic::div_mod::lemma_fundamental_div_mod;
use vstd::prelude::*;
use vstd::seq_lib::group_to_multiset_ensures;
use vstd::std_specs::hash::*;
use vstd::std_specs::iter::IteratorSpec;
use vstd::utf8::encode_utf8;

verus! {

/// How often a key was counted: 0 for a key that the map does not hold.
pub open spec fn count_at<K>(m: Map<K, u64>, k: K) -> nat {
    if m.contains_key(k) {
        m[k] as nat
    } else {
        0
    }
}

/// A counter map as a mathematical map to unbounded counts.
pub open spec fn counts_of<K>(m: Map<K, u64>) -> Map<K, nat> {
    Map::new(|k: K| m.contains_key(k), |k: K| m[k] as nat)
}

/// How often a key was counted in a map of unbounded counts.
pub open spec fn tally<K>(m: Map<K, nat>, k: K) -> nat {
    if m.contains_key(k) {
        m[k]
    } else {
        0
    }
}

/// The sum of two counter maps: every key of either, with the counts added.
pub open spec fn merged_counts<K>(a: Map<K, nat>, b: Map<K, nat>) -> Map<K, nat> {
    Map::new(|k: K| a.contains_key(k) || b.contains_key(k), |k: K| tally(a, k) + tally(b, k))
}

/// The counter map after one more occurrence of `k`.
pub open spec fn bumped<K>(m: Map<K, nat>, k: K) -> Map<K, nat> {
    m.insert(k, tally(m, k) + 1)
}

/// Whether the sums of two counter maps fit their counters.
pub open spec fn counts_fit<K>(a: Map<K, u64>, b: Map<K, u64>) -> bool {
    forall|k: K| #[trigger] count_at(a, k) + count_at(b, k) <= u64::MAX
}

/// Adding counter maps does not depend on their order.
pub proof fn lemma_merged_counts_commutative<K>(a: Map<K, nat>, b: Map<K, nat>)
    ensures
        merged_counts(a, b) == merged_counts(b, a),
{
    assert(merged_counts(a, b) =~= merged_counts(b, a));
}

/// Adding counter maps does not depend on how they are grouped.
pub proof fn lemma_merged_counts_associative<K>(a: Map<K, nat>, b: Map<K, nat>, c: Map<K, nat>)
    ensures
        merged_counts(merged_counts(a, b), c) == merged_counts(a, merged_counts(b, c)),
{
    assert(merged_counts(merged_counts(a, b), c) =~= merged_counts(a, merged_counts(b, c)));
}

/// Adding the empty counter map changes nothing.
pub proof fn lemma_merged_counts_empty<K>(a: Map<K, nat>)
    ensures
        merged_counts(a, Map::empty()) == a,
        merged_counts(Map::empty(), a) == a,
{
    assert(merged_counts(a, Map::empty()) =~= a);
    assert(merged_counts(Map::<K, nat>::empty(), a) =~= a);
}

/// Adds one to the counter of `key`, which starts at 0.
pub fn bump<K: Copy + Eq + Hash>(map: &mut HashMap<K, u64>, key: K)
    requires
        obeys_key_model::<K>(),
        count_at(old(map)@, key) < u64::MAX,
    ensures
        counts_of(final(map)@) == bumped(counts_of(old(map)@), key),
        final(map)@ == old(map)@.insert(key, (count_at(old(map)@, key) + 1) as u64),
{
    broadcast use group_hash_axioms;

    let count: u64 = match map.get(&key) {
        Some(c) => *c,
        None => 0,
    };
    map.insert(key, count + 1);
    proof {
        assert(counts_of(map@) =~= bumped(counts_of(old(map)@), key));
    }
}

/// The sum of two counter maps: each key of either map, with the counts of
/// both added.
pub fn merge_map<K>(first: &HashMap<K, u64>, second: &HashMap<K, u64>) -> (result: HashMap<
    K,
    u64,
>) where K: Copy + Eq + Hash
    requires
        obeys_key_model::<K>(),
        counts_fit(first@, second@),
    ensures
        counts_of(result@) == merged_counts(counts_of(first@), counts_of(second@)),
        forall|k: K|
            result@.contains_key(k) <==> first@.contains_key(k) || second@.contains_key(k),
        forall|k: K| #[trigger] count_at(result@, k) == count_at(first@, k) + count_at(second@, k),
{
    broadcast use group_hash_axioms;
    broadcast use axiom_spec_hash_map_iter;

    let mut result: HashMap<K, u64> = HashMap::new();
    for (k, v) in it: first.iter()
        invariant
            obeys_key_model::<K>(),
            it.seq() == first.iter().remaining(),
            forall|j: int|
                0 <= j < it.index() ==> result@.contains_key(*(#[trigger] it.seq()[j]).0)
                    && result@[*it.seq()[j].0] == *it.seq()[j].1,
            forall|key: K| #[trigger]
                result@.contains_key(key) ==> first@.contains_key(key) && result@[key]
                    == first@[key],
    {
        result.insert(*k, *v);
    }
    proof {
        assert forall|key: K| first@.contains_key(key) implies result@.contains_key(key) by {
            let s = first.iter().remaining();
            assert(s.contains((&key, &first@[key])));
            let j = choose|j: int| 0 <= j < s.len() && s[j] == (&key, &first@[key]);
            assert(*s[j].0 == key);
        }
        assert(result@ =~= first@);
    }
    for (k, v) in it: second.iter()
        invariant
            obeys_key_model::<K>(),
            counts_fit(first@, second@),
            it.seq() == second.iter().remaining(),
            it.seq().no_duplicates(),
            forall|key: K| #[trigger]
                result@.contains_key(key) <==> first@.contains_key(key) || exists|j: int|
                    0 <= j < it.index() && *(#[trigger] it.seq()[j]).0 == key,
            forall|key: K| #[trigger]
                count_at(result@, key) == count_at(first@, key) + if exists|j: int|
                    0 <= j < it.index() && *(#[trigger] it.seq()[j]).0 == key {
                    count_at(second@, key)
                } else {
                    0
                },
    {
        let ghost before = result@;
        let ghost i = it.index();
        let ghost s = it.seq();
        proof {
            assert(s[i] == (k, v));
            assert(second@.contains_key(*k) && second@[*k] == *v);
            if exists|j: int| 0 <= j < i && *(#[trigger] s[j]).0 == *k {
                let j = choose|j: int| 0 <= j < i && *(#[trigger] s[j]).0 == *k;
                assert(second@[*s[j].0] == *s[j].1);
                assert(s[j] == s[i]);
            }
            assert(count_at(before, *k) == count_at(first@, *k));
            assert(count_at(first@, *k) + count_at(second@, *k) <= u64::MAX);
        }
        let count: u64 = match result.get(k) {
            Some(c) => *c,
            None => 0,
        };
        result.insert(*k, count + *v);
        proof {
            assert forall|key: K| #[trigger]
                result@.contains_key(key) <==> first@.contains_key(key) || exists|j: int|
                    0 <= j < i + 1 && *(#[trigger] s[j]).0 == key by {
                if key == *k {
                    assert(*s[i].0 == key);
                } else if exists|j: int| 0 <= j < i + 1 && *(#[trigger] s[j]).0 == key {
                    let j = choose|j: int| 0 <= j < i + 1 && *(#[trigger] s[j]).0 == key;
                    assert(j < i);
                }
            }
            assert forall|key: K| #[trigger]
                count_at(result@, key) == count_at(first@, key) + if exists|j: int|
                    0 <= j < i + 1 && *(#[trigger] s[j]).0 == key {
                    count_at(second@, key)
                } else {
                    0
                } by {
                if key == *k {
                    assert(*s[i].0 == key);
                } else {
                    assert(count_at(result@, key) == count_at(before, key));
                    if exists|j: int| 0 <= j < i + 1 && *(#[trigger] s[j]).0 == key {
                        let j = choose|j: int| 0 <= j < i + 1 && *(#[trigger] s[j]).0 == key;
                        assert(j < i);
                    }
                }
            }
        }
    }
    proof {
        let s = second.iter().remaining();
        assert forall|key: K| second@.contains_key(key) implies exists|j: int|
            0 <= j < s.len() && *(#[trigger] s[j]).0 == key by {
            assert(s.contains((&key, &second@[key])));
            let j = choose|j: int| 0 <= j < s.len() && s[j] == (&key, &second@[key]);
            assert(*s[j].0 == key);
        }
        assert forall|key: K| #[trigger]
            count_at(result@, key) == count_at(first@, key) + count_at(second@, key) by {
            if !second@.contains_key(key) {
                if exists|j: int| 0 <= j < s.len() && *(#[trigger] s[j]).0 == key {
                    let j = choose|j: int| 0 <= j < s.len() && *(#[trigger] s[j]).0 == key;
                    assert(second@.contains_key(*s[j].0));
                }
            }
        }
        assert forall|key: K|
            result@.contains_key(key) <==> first@.contains_key(key) || second@.contains_key(
                key,
            ) by {
            if exists|j: int| 0 <= j < s.len() && *(#[trigger] s[j]).0 == key {
                let j = choose|j: int| 0 <= j < s.len() && *(#[trigger] s[j]).0 == key;
                assert(second@.contains_key(*s[j].0));
            }
        }
        assert forall|key: K| #[trigger]
            counts_of(result@).contains_key(key) implies counts_of(result@)[key] == tally(
            counts_of(first@),
            key,
        ) + tally(counts_of(second@), key) by {
            assert(count_at(result@, key) == count_at(first@, key) + count_at(second@, key));
        }
        assert(counts_of(result@) =~= merged_counts(counts_of(first@), counts_of(second@)));
    }
    result
}

/// Whether the sums of two counter maps fit their counters.
pub fn maps_fit<K>(first: &HashMap<K, u64>, second: &HashMap<K, u64>) -> (r: bool) where
    K: Copy + Eq + Hash,

    requires
        obeys_key_model::<K>(),
    ensures
        r == counts_fit(first@, second@),
{
    broadcast use group_hash_axioms;
    broadcast use axiom_spec_hash_map_iter;

    for (k, v) in it: first.iter()
        invariant
            obeys_key_model::<K>(),
            it.seq() == first.iter().remaining(),
            forall|j: int|
                0 <= j < it.index() ==> count_at(first@, *(#[trigger] it.seq()[j]).0) + count_at(
                    second@,
                    *it.seq()[j].0,
                ) <= u64::MAX,
    {
        proof {
            assert(it.seq()[it.index()] == (k, v));
            assert(first@.contains_key(*k) && first@[*k] == *v);
        }
        let other: u64 = match second.get(k) {
            Some(c) => *c,
            None => 0,
        };
        if *v > u64::MAX - other {
            proof {
                assert(count_at(first@, *k) + count_at(second@, *k) > u64::MAX);
            }
            return false;
        }
    }
    proof {
        let s = first.iter().remaining();
        assert forall|key: K| #[trigger]
            count_at(first@, key) + count_at(second@, key) <= u64::MAX by {
            if first@.contains_key(key) {
                assert(s.contains((&key, &first@[key])));
                let j = choose|j: int| 0 <= j < s.len() && s[j] == (&key, &first@[key]);
                assert(*s[j].0 == key);
            }
        }
    }
    true
}

/// The share of a budget that the worker at `index` among `parts` gets: an
/// equal part, and for the first worker what is left over.
pub open spec fn share(total: nat, parts: nat, index: nat) -> nat {
    total / parts + if index == 0 {
        total % parts
    } else {
        0
    }
}

/// The shares of the first `k` workers, added up.
pub open spec fn shares_sum(total: nat, parts: nat, k: nat) -> nat
    decreases k,
{
    if k == 0 {
        0
    } else {
        shares_sum(total, parts, (k - 1) as nat) + share(total, parts, (k - 1) as nat)
    }
}

/// The shares of the first workers are as many equal parts and what is left
/// over.
pub proof fn lemma_shares_sum_prefix(total: nat, parts: nat, k: nat)
    requires
        parts > 0,
        k > 0,
    ensures
        shares_sum(total, parts, k) == k * (total / parts) + total % parts,
    decreases k,
{
    if k > 1 {
        lemma_shares_sum_prefix(total, parts, (k - 1) as nat);
        let q = total / parts;
        assert(k * q == (k - 1) * q + q) by (nonlinear_arith);
    } else {
        assert(shares_sum(total, parts, 0) == 0);
        assert(1 * (total / parts) == total / parts);
    }
}

/// The shares of all workers add up to the budget exactly.
pub proof fn lemma_shares_sum(total: nat, parts: nat)
    requires
        parts > 0,
    ensures
        shares_sum(total, parts, parts) == total,
{
    lemma_shares_sum_prefix(total, parts, parts);
    lemma_fundamental_div_mod(total as int, parts as int);
}

/// The share of a budget for the worker at `index` among `parts`.
pub fn share_of(total: u64, parts: usize, index: usize) -> (r: u64)
    requires
        parts > 0,
    ensures
        r == share(total as nat, parts as nat, index as nat),
{
    let n = parts as u64;
    proof {
        assert(total / n + total % n <= total) by (nonlinear_arith)
            requires
                n > 0,
        ;
    }
    if index == 0 {
        total / n + total % n
    } else {
        total / n
    }
}

/// The settings of the worker at `index` among `parts`: those of the run
/// with its share of the rate, of the number of queries and of the sockets.
pub open spec fn worker_argument(a: Argument, parts: nat, index: nat) -> Argument {
    Argument {
        qps: share(a.qps as nat, parts, index) as u32,
        max: share(a.max as nat, parts, index) as u64,
        client: share(a.client as nat, parts, index) as usize,
        ..a
    }
}

/// The workers of a run on the given cores: for each core, in their order,
/// the settings of its worker.
pub open spec fn workers_for(a: Argument, cores: Seq<usize>) -> Seq<(Argument, usize)> {
    Seq::new(cores.len(), |i: int| (worker_argument(a, cores.len(), i as nat), cores[i]))
}

/// The rates of the first `k` workers, added up.
pub open spec fn qps_sum(workers: Seq<(Argument, usize)>, k: nat) -> nat
    decreases k,
{
    if k == 0 {
        0
    } else {
        qps_sum(workers, (k - 1) as nat) + workers[k - 1].0.qps as nat
    }
}

/// The numbers of queries of the first `k` workers, added up.
pub open spec fn max_sum(workers: Seq<(Argument, usize)>, k: nat) -> nat
    decreases k,
{
    if k == 0 {
        0
    } else {
        max_sum(workers, (k - 1) as nat) + workers[k - 1].0.max as nat
    }
}

/// The numbers of sockets of the first `k` workers, added up.
pub open spec fn client_sum(workers: Seq<(Argument, usize)>, k: nat) -> nat
    decreases k,
{
    if k == 0 {
        0
    } else {
        client_sum(workers, (k - 1) as nat) + workers[k - 1].0.client as nat
    }
}

/// A share is no more than the budget.
pub proof fn lemma_share_bound(total: nat, parts: nat, index: nat)
    requires
        parts > 0,
    ensures
        share(total, parts, index) <= total,
{
    lemma_fundamental_div_mod(total as int, parts as int);
    assert(total / parts <= parts * (total / parts)) by (nonlinear_arith)
        requires
            parts >= 1,
            total / parts >= 0,
    ;
}

/// The budgets of the first workers of a run add up to their shares.
pub proof fn lemma_workers_sums(a: Argument, cores: Seq<usize>, k: nat)
    requires
        k <= cores.len(),
    ensures
        qps_sum(workers_for(a, cores), k) == shares_sum(a.qps as nat, cores.len(), k),
        max_sum(workers_for(a, cores), k) == shares_sum(a.max as nat, cores.len(), k),
        client_sum(workers_for(a, cores), k) == shares_sum(a.client as nat, cores.len(), k),
    decreases k,
{
    if k > 0 {
        lemma_workers_sums(a, cores, (k - 1) as nat);
        lemma_share_bound(a.qps as nat, cores.len(), (k - 1) as nat);
        lemma_share_bound(a.max as nat, cores.len(), (k - 1) as nat);
        lemma_share_bound(a.client as nat, cores.len(), (k - 1) as nat);
    }
}

/// The sum of the stores of some workers, from the first to the last.
pub open spec fn sum_status(stores: Seq<StatusView>) -> StatusView
    decreases stores.len(),
{
    if stores.len() == 0 {
        empty_status()
    } else {
        merged_status(sum_status(stores.drop_last()), stores.last())
    }
}

/// What the producers of some workers counted.
pub open spec fn producer_views(results: Seq<(StatusStore, StatusStore)>) -> Seq<StatusView> {
    results.map_values(|r: (StatusStore, StatusStore)| r.0@)
}

/// What the consumers of some workers counted.
pub open spec fn consumer_views(results: Seq<(StatusStore, StatusStore)>) -> Seq<StatusView> {
    results.map_values(|r: (StatusStore, StatusStore)| r.1@)
}

/// Whether every one of some stores is well formed.
pub open spec fn all_well_formed(stores: Seq<StatusView>) -> bool {
    forall|i: int| 0 <= i < stores.len() ==> status_well_formed(#[trigger] stores[i])
}

/// Whether the stores of some workers can be added up one after the other
/// without a number growing beyond the machine integer that holds it.
pub open spec fn summable(stores: Seq<StatusView>) -> bool {
    forall|n: int|
        0 <= n <= stores.len() ==> status_bounded(#[trigger] sum_status(stores.subrange(0, n)))
}

/// What a run has to report once its workers have ended: the sums of what
/// they counted, and the histogram of the sum of the consumers.
pub open spec fn final_report(results: Seq<(StatusStore, StatusStore)>) -> RunnerReportView {
    RunnerReportView {
        producer_report: Some(sum_status(producer_views(results))),
        consumer_report: Some(sum_status(consumer_views(results))),
        histogram: sum_status(consumer_views(results)).report,
    }
}

/// The sum of well-formed stores is well formed.
pub proof fn lemma_sum_status_well_formed(stores: Seq<StatusView>)
    requires
        all_well_formed(stores),
    ensures
        status_well_formed(sum_status(stores)),
    decreases stores.len(),
{
    if stores.len() > 0 {
        lemma_sum_status_well_formed(stores.drop_last());
        lemma_merged_status_well_formed(sum_status(stores.drop_last()), stores.last());
    }
}

/// The sum of some stores is the sum of all but one of them, merged with
/// that one.
pub proof fn lemma_sum_status_remove(stores: Seq<StatusView>, i: int)
    requires
        all_well_formed(stores),
        0 <= i < stores.len(),
    ensures
        sum_status(stores) == merged_status(sum_status(stores.remove(i)), stores[i]),
    decreases stores.len(),
{
    if i == stores.len() - 1 {
        assert(stores.remove(i) =~= stores.drop_last());
    } else {
        let front = stores.drop_last();
        let last = stores.last();
        let others = sum_status(front.remove(i));
        lemma_sum_status_remove(front, i);
        assert(stores.remove(i).drop_last() =~= front.remove(i));
        assert(stores.remove(i).last() == last);
        assert(all_well_formed(front.remove(i)));
        lemma_sum_status_well_formed(front.remove(i));
        assert(status_well_formed(stores[i]));
        assert(status_well_formed(last));
        lemma_merged_status_associative(others, stores[i], last);
        lemma_merged_status_commutative(stores[i], last);
        lemma_merged_status_associative(others, last, stores[i]);
    }
}

/// The sum of the stores of some workers does not depend on the order in
/// which they are merged: two sequences of the same stores, in whatever
/// order, have the same sum.
pub proof fn lemma_sum_status_any_order(first: Seq<StatusView>, second: Seq<StatusView>)
    requires
        all_well_formed(first),
        all_well_formed(second),
        first.to_multiset() == second.to_multiset(),
    ensures
        sum_status(first) == sum_status(second),
    decreases first.len(),
{
    broadcast use group_to_multiset_ensures;

    if first.len() == 0 {
        assert(second.to_multiset().len() == 0);
        assert(second.len() == 0);
    } else {
        let last = first.last();
        assert(first.to_multiset().count(last) > 0);
        assert(second.contains(last));
        let i = second.index_of(last);
        assert(first.drop_last() =~= first.remove(first.len() - 1));
        assert(all_well_formed(second.remove(i)));
        lemma_sum_status_any_order(first.drop_last(), second.remove(i));
        lemma_sum_status_remove(second, i);
    }
}

/// Once a sum has outgrown the machine, the stores cannot be added up.
pub proof fn lemma_not_summable(stores: Seq<StatusView>, n: int)
    requires
        0 <= n <= stores.len(),
        !status_bounded(sum_status(stores.subrange(0, n))),
    ensures
        !summable(stores),
{
}

/// Adds up what the workers of a run counted: the stores of their
/// producers, and the stores of their consumers. There is no sum where a
/// number would grow beyond the machine integer that holds it.
#[verifier::loop_isolation(false)]
pub fn merge_results(results: Vec<(StatusStore, StatusStore)>) -> (r: Option<
    (StatusStore, StatusStore),
>)
    requires
        all_well_formed(producer_views(results@)),
        all_well_formed(consumer_views(results@)),
    ensures
        r is Some <==> summable(producer_views(results@)) && summable(consumer_views(results@)),
        r matches Some(sums) ==> {
            &&& sums.0@ == sum_status(producer_views(results@))
            &&& sums.1@ == sum_status(consumer_views(results@))
            &&& sums.0.wf()
            &&& sums.1.wf()
        },
{
    let ghost producers = producer_views(results@);
    let ghost consumers = consumer_views(results@);
    let mut query_store_total = StatusStore::new();
    let mut response_store_total = StatusStore::new();
    let mut results = results;
    let ghost all = results@;
    let mut taken: Vec<(StatusStore, StatusStore)> = Vec::new();
    let n = results.len();
    // The stores are taken from the end, so they are put in order first.
    while results.len() > 0
        invariant
            results@.len() + taken@.len() == n,
            n == all.len(),
            forall|i: int| 0 <= i < results@.len() ==> results@[i] == all[i],
            forall|i: int| 0 <= i < taken@.len() ==> taken@[i] == all[n - 1 - i],
        decreases results@.len(),
    {
        match results.pop() {
            Some(status) => {
                taken.push(status);
            },
            None => {},
        }
    }
    proof {
        assert(producers.subrange(0, 0) =~= Seq::<StatusView>::empty());
        assert(consumers.subrange(0, 0) =~= Seq::<StatusView>::empty());
    }
    let mut i: usize = 0;
    while taken.len() > 0
        invariant
            i + taken@.len() == n,
            n == all.len(),
            producers == producer_views(all),
            consumers == consumer_views(all),
            all_well_formed(producers),
            all_well_formed(consumers),
            forall|j: int| 0 <= j < taken@.len() ==> taken@[j] == all[n - 1 - j],
            query_store_total@ == sum_status(producers.subrange(0, i as int)),
            response_store_total@ == sum_status(consumers.subrange(0, i as int)),
            query_store_total.wf(),
            response_store_total.wf(),
            forall|m: int|
                0 <= m <= i ==> status_bounded(#[trigger] sum_status(producers.subrange(0, m))),
            forall|m: int|
                0 <= m <= i ==> status_bounded(#[trigger] sum_status(consumers.subrange(0, m))),
        decreases taken@.len(),
    {
        match taken.pop() {
            Some(status) => {
                proof {
                    assert(status == all[i as int]);
                    assert(producers.subrange(0, i + 1).drop_last() =~= producers.subrange(
                        0,
                        i as int,
                    ));
                    assert(consumers.subrange(0, i + 1).drop_last() =~= consumers.subrange(
                        0,
                        i as int,
                    ));
                    assert(producers.subrange(0, i + 1).last() == status.0@);
                    assert(consumers.subrange(0, i + 1).last() == status.1@);
                    assert(status_well_formed(producers[i as int]));
                    assert(status_well_formed(consumers[i as int]));
                }
                if !query_store_total.fits_with(&status.0) {
                    proof {
                        lemma_not_summable(producers, i + 1);
                    }
                    return None;
                }
                if !response_store_total.fits_with(&status.1) {
                    proof {
                        lemma_not_summable(consumers, i + 1);
                    }
                    return None;
                }
                query_store_total = query_store_total.add(status.0);
                response_store_total = response_store_total.add(status.1);
                i = i + 1;
            },
            None => {},
        }
    }
    proof {
        assert(producers.subrange(0, n as int) =~= producers);
        assert(consumers.subrange(0, n as int) =~= consumers);
    }
    Some((query_store_total, response_store_total))
}

/// A run: its settings, the settings and the core of each of its workers,
/// and its report.
pub struct Runner {
    arguments: Argument,
    workers: Vec<(Argument, usize)>,
    report: RunnerReport,
}

impl Runner {
    /// The settings of the run.
    pub closed spec fn arguments(&self) -> Argument {
        self.arguments
    }

    /// The settings and the core of each worker.
    pub closed spec fn workers(&self) -> Seq<(Argument, usize)> {
        self.workers@
    }

    /// The report of the run.
    pub closed spec fn report(&self) -> RunnerReportView {
        self.report@
    }

    /// A run with the given settings on the given cores, of which there is
    /// at least one: each core gets a worker with its share of the rate, of
    /// the number of queries and of the sockets.
    pub fn new_on(arguments: Argument, cores: &Vec<usize>) -> (r: Runner)
        requires
            cores@.len() > 0,
        ensures
            r.arguments() == arguments,
            r.workers() == workers_for(arguments, cores@),
            qps_sum(r.workers(), cores@.len()) == arguments.qps,
            max_sum(r.workers(), cores@.len()) == arguments.max,
            client_sum(r.workers(), cores@.len()) == arguments.client,
            r.report() == (RunnerReportView {
                producer_report: None,
                consumer_report: None,
                histogram: None,
            }),
    {
        proof {
            lemma_workers_sums(arguments, cores@, cores@.len());
            lemma_shares_sum(arguments.qps as nat, cores@.len());
            lemma_shares_sum(arguments.max as nat, cores@.len());
            lemma_shares_sum(arguments.client as nat, cores@.len());
        }
        let core_number = cores.len();
        let mut workers: Vec<(Argument, usize)> = Vec::new();
        let mut index: usize = 0;
        while index < core_number
            invariant
                index <= core_number,
                core_number == cores@.len(),
                core_number > 0,
                workers@.len() == index,
                forall|j: int|
                    0 <= j < index ==> workers@[j] == (
                        worker_argument(arguments, core_number as nat, j as nat),
                        cores@[j],
                    ),
            decreases core_number - index,
        {
            let mut args = arguments.clone();
            let qps = share_of(arguments.qps as u64, core_number, index);
            let client = share_of(arguments.client as u64, core_number, index);
            proof {
                lemma_share_bound(arguments.qps as nat, core_number as nat, index as nat);
                lemma_share_bound(arguments.client as nat, core_number as nat, index as nat);
            }
            args.qps = qps as u32;
            args.max = share_of(arguments.max, core_number, index);
            args.client = client as usize;
            workers.push((args, cores[index]));
            index = index + 1;
        }
        proof {
            assert(workers@ =~= workers_for(arguments, cores@));
        }
        Runner { arguments, workers, report: RunnerReport::new() }
    }

    /// A run with the given settings on the cores of this machine that the
    /// settings select, the core taken where the choice is open being one of
    /// the machine's. The run has at least one worker, each worker has its
    /// share of the rate, of the number of queries and of the sockets, and
    /// the shares add up to what the settings ask for.
    pub fn new(arguments: Argument) -> (r: Result<Runner, CpuModeError>)
        ensures
            exists|cores: Seq<usize>, pick: usize| #[trigger]
                selected_cores(encode_utf8(arguments.bind_cpu@), cores, pick) == (match r {
                    Ok(runner) => Ok::<Seq<usize>, CpuModeError>(
                        runner.workers().map_values(|w: (Argument, usize)| w.1),
                    ),
                    Err(e) => Err::<Seq<usize>, CpuModeError>(e),
                }) && (cores.len() > 0 ==> cores.contains(pick)),
            r matches Ok(runner) ==> {
                &&& runner.arguments() == arguments
                &&& runner.workers().len() > 0
                &&& runner.workers() == workers_for(
                    arguments,
                    runner.workers().map_values(|w: (Argument, usize)| w.1),
                )
                &&& qps_sum(runner.workers(), runner.workers().len()) == arguments.qps
                &&& max_sum(runner.workers(), runner.workers().len()) == arguments.max
                &&& client_sum(runner.workers(), runner.workers().len()) == arguments.client
                &&& runner.report() == (RunnerReportView {
                    producer_report: None,
                    consumer_report: None,
                    histogram: None,
                })
            },
    {
        match cpu_mode_to_cpu_cores(arguments.bind_cpu.clone()) {
            Err(e) => Err(e),
            Ok(v) => {
                let runner = Self::new_on(arguments, &v);
                proof {
                    assert(runner.workers().map_values(|w: (Argument, usize)| w.1) =~= v@);
                }
                Ok(runner)
            },
        }
    }

    /// The number of workers.
    pub fn worker_number(&self) -> (r: usize)
        ensures
            r == self.workers().len(),
    {
        self.workers.len()
    }

    /// The settings and the core of the worker at `index`.
    pub fn worker(&self, index: usize) -> (r: (&Argument, usize))
        requires
            index < self.workers().len(),
        ensures
            *r.0 == self.workers()[index as int].0,
            r.1 == self.workers()[index as int].1,
    {
        (&self.workers[index].0, self.workers[index].1)
    }

    /// The form of output that the settings name, and the figures of the
    /// report of the run.
    pub fn figures(&self) -> (r: (ReportType, CombinedResult))
        requires
            report_complete(self.report()),
        ensures
            r.0 == output_for(encode_utf8(self.arguments().output@)),
            is_basic_of(r.1.basic, self.report()),
            is_extension_of(r.1.extension, self.report()),
    {
        self.report.report(self.arguments.output.clone())
    }

    /// Whether the report of the run holds the sums of which its figures
    /// are made.
    pub fn has_sums(&self) -> (r: bool)
        ensures
            r == (self.report().producer_report matches Some(p) && p.send_duration is Some
                && self.report().consumer_report is Some),
    {
        self.report.has_sums()
    }

    /// Puts what the workers counted into the report of the run, and tells
    /// whether it did: it does not where a sum would grow beyond the machine
    /// integer that holds it.
    pub fn collect(&mut self, results: Vec<(StatusStore, StatusStore)>) -> (r: bool)
        requires
            all_well_formed(producer_views(results@)),
            all_well_formed(consumer_views(results@)),
        ensures
            r <==> summable(producer_views(results@)) && summable(consumer_views(results@)),
            final(self).report() == if r {
                final_report(results@)
            } else {
                old(self).report()
            },
            final(self).arguments() == old(self).arguments(),
            final(self).workers() == old(self).workers(),
    {
        match merge_results(results) {
            Some((query_store_total, response_store_total)) => {
                self.report.set_producer_report(query_store_total);
                self.report.set_consumer_report(response_store_total.clone());
                self.report.set_histogram_report(response_store_total);
                true
            },
            None => false,
        }
    }
}

/// The collector of the interval reports of a run: it takes the reports of
/// the workers as they come, and once it has as many as there are workers it
/// gives their sum and starts anew.
pub struct IntervalCollector {
    worker_number: usize,
    round: Vec<(StatusStore, StatusStore)>,
}

impl IntervalCollector {
    /// The number of workers of a round.
    pub closed spec fn worker_number(&self) -> usize {
        self.worker_number
    }

    /// The reports taken in the round that is under way.
    pub closed spec fn round(&self) -> Seq<(StatusStore, StatusStore)> {
        self.round@
    }

    /// Whether every report taken is well formed.
    pub open spec fn wf(&self) -> bool {
        all_well_formed(producer_views(self.round())) && all_well_formed(
            consumer_views(self.round()),
        )
    }

    /// A collector for the given number of workers.
    pub fn new(worker_number: usize) -> (r: IntervalCollector)
        ensures
            r.wf(),
            r.worker_number() == worker_number,
            r.round().len() == 0,
    {
        IntervalCollector { worker_number, round: Vec::new() }
    }

    /// Takes the interval report of one worker. With it the round may be
    /// complete: then the result is the report of the sums of the round,
    /// unless a number would grow beyond the machine integer that holds it,
    /// and the next round begins.
    pub fn take(&mut self, status: (StatusStore, StatusStore)) -> (r: Option<RunnerReport>)
        requires
            old(self).wf(),
            status.0.wf(),
            status.1.wf(),
        ensures
            final(self).wf(),
            final(self).worker_number() == old(self).worker_number(),
            final(self).round() == if old(self).round().len() + 1 >= old(self).worker_number() {
                Seq::<(StatusStore, StatusStore)>::empty()
            } else {
                old(self).round().push(status)
            },
            r is Some <==> old(self).round().len() + 1 >= old(self).worker_number() && summable(
                producer_views(old(self).round().push(status)),
            ) && summable(consumer_views(old(self).round().push(status))),
            r matches Some(report) ==> report@ == final_report(old(self).round().push(status)),
    {
        let ghost before = self.round@;
        self.round.push(status);
        proof {
            assert(producer_views(self.round@) =~= producer_views(before).push(status.0@));
            assert(consumer_views(self.round@) =~= consumer_views(before).push(status.1@));
        }
        if self.round.len() < self.worker_number {
            return None;
        }
        let mut round: Vec<(StatusStore, StatusStore)> = Vec::new();
        std::mem::swap(&mut round, &mut self.round);
        match merge_results(round) {
            Some((query_store_total, response_store_total)) => {
                let mut report = RunnerReport::new();
                report.set_producer_report(query_store_total);
                report.set_consumer_report(response_store_total.clone());
                report.set_histogram_report(response_store_total);
                Some(report)
            },
            None => None,
        }
    }
}

} // verus!
