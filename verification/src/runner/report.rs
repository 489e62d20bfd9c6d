//! The counters of a worker, their sum over workers, and the figures of
//! the final report.

use crate::runner::histogram::{
    lemma_merged_associative, lemma_merged_commutative, lemma_merged_well_formed,
    lemma_percentiles_ordered, mean_of, merged,
    percentile_of, well_formed, HistogramReport, HistogramView,
};
use crate::runner::runner::{
    bump, bumped, count_at, counts_of, lemma_merged_counts_associative,
    lemma_merged_counts_commutative, lemma_merged_counts_empty, maps_fit, merge_map,
    merged_counts, tally, counts_fit,
};
use crate::utils::dns::{
    record_type_name, record_type_text, response_code_name, response_code_text,
};
use crate::utils::text::{ends_with, lowered, lowered_ends_with};
use crate::utils::utils::unix_nanos;
use crate::workers::{Header, Message, MessageView};
use std::collections::HashMap;
use vstd::prelude::*;
use vstd::std_specs::hash::*;
use vstd::std_specs::iter::IteratorSpec;
use vstd::utf8::encode_utf8;

verus! {

/// What a status store holds. Durations are in nanoseconds, times in
/// nanoseconds since the Unix epoch. `parse_error` is the number of responses
/// that could not be read.
pub struct StatusView {
    pub query_total: nat,
    pub receive_total: nat,
    pub parse_error: nat,
    pub send_duration: Option<nat>,
    pub last_update: Option<nat>,
    pub query_type: Map<u16, nat>,
    pub answer_type: Map<u16, nat>,
    pub authority_type: Map<u16, nat>,
    pub additional_type: Map<u16, nat>,
    pub reply_code: Map<u8, nat>,
    pub report: Option<HistogramView>,
}

/// The store in which nothing has been counted.
pub open spec fn empty_status() -> StatusView {
    StatusView {
        query_total: 0,
        receive_total: 0,
        parse_error: 0,
        send_duration: None,
        last_update: None,
        query_type: Map::empty(),
        answer_type: Map::empty(),
        authority_type: Map::empty(),
        additional_type: Map::empty(),
        reply_code: Map::empty(),
        report: None,
    }
}

/// The later of two optional times, or the longer of two optional
/// durations: what is absent does not count.
pub open spec fn later(a: Option<nat>, b: Option<nat>) -> Option<nat> {
    match (a, b) {
        (Some(x), Some(y)) => if x > y {
            Some(x)
        } else {
            Some(y)
        },
        (Some(x), None) => Some(x),
        (None, Some(y)) => Some(y),
        (None, None) => None,
    }
}

/// The union of two optional histograms.
pub open spec fn merged_report(a: Option<HistogramView>, b: Option<HistogramView>) -> Option<
    HistogramView,
> {
    match (a, b) {
        (Some(x), Some(y)) => Some(merged(x, y)),
        (Some(x), None) => Some(x),
        (None, Some(y)) => Some(y),
        (None, None) => None,
    }
}

/// The sum of two stores: totals and counters are added, the longer send
/// duration and the later update are kept, the histograms are merged.
pub open spec fn merged_status(a: StatusView, b: StatusView) -> StatusView {
    StatusView {
        query_total: a.query_total + b.query_total,
        receive_total: a.receive_total + b.receive_total,
        parse_error: a.parse_error + b.parse_error,
        send_duration: later(a.send_duration, b.send_duration),
        last_update: later(a.last_update, b.last_update),
        query_type: merged_counts(a.query_type, b.query_type),
        answer_type: merged_counts(a.answer_type, b.answer_type),
        authority_type: merged_counts(a.authority_type, b.authority_type),
        additional_type: merged_counts(a.additional_type, b.additional_type),
        reply_code: merged_counts(a.reply_code, b.reply_code),
        report: merged_report(a.report, b.report),
    }
}

/// Whether the histogram of a store, if it has one, is well formed.
pub open spec fn status_well_formed(s: StatusView) -> bool {
    s.report matches Some(h) ==> well_formed(h)
}

/// The sum of two well-formed stores is well formed.
pub proof fn lemma_merged_status_well_formed(a: StatusView, b: StatusView)
    requires
        status_well_formed(a),
        status_well_formed(b),
    ensures
        status_well_formed(merged_status(a, b)),
{
    if a.report is Some && b.report is Some {
        lemma_merged_well_formed(a.report->0, b.report->0);
    }
}

/// Merging the stores of two workers gives the same whichever comes first.
pub proof fn lemma_merged_status_commutative(a: StatusView, b: StatusView)
    requires
        status_well_formed(a),
        status_well_formed(b),
    ensures
        merged_status(a, b) == merged_status(b, a),
{
    lemma_merged_counts_commutative(a.query_type, b.query_type);
    lemma_merged_counts_commutative(a.answer_type, b.answer_type);
    lemma_merged_counts_commutative(a.authority_type, b.authority_type);
    lemma_merged_counts_commutative(a.additional_type, b.additional_type);
    lemma_merged_counts_commutative(a.reply_code, b.reply_code);
    if a.report is Some && b.report is Some {
        lemma_merged_commutative(a.report->0, b.report->0);
    }
}

/// Merging the stores of three workers gives the same however they are
/// grouped. With `lemma_merged_status_commutative` this makes the sum over
/// any number of workers independent of the order in which they are merged.
pub proof fn lemma_merged_status_associative(a: StatusView, b: StatusView, c: StatusView)
    requires
        status_well_formed(a),
        status_well_formed(b),
        status_well_formed(c),
    ensures
        merged_status(merged_status(a, b), c) == merged_status(a, merged_status(b, c)),
{
    lemma_merged_counts_associative(a.query_type, b.query_type, c.query_type);
    lemma_merged_counts_associative(a.answer_type, b.answer_type, c.answer_type);
    lemma_merged_counts_associative(a.authority_type, b.authority_type, c.authority_type);
    lemma_merged_counts_associative(a.additional_type, b.additional_type, c.additional_type);
    lemma_merged_counts_associative(a.reply_code, b.reply_code, c.reply_code);
    if a.report is Some && b.report is Some && c.report is Some {
        lemma_merged_associative(a.report->0, b.report->0, c.report->0);
    }
}

/// Merging with the empty store changes nothing.
pub proof fn lemma_merged_status_empty(a: StatusView)
    ensures
        merged_status(a, empty_status()) == a,
        merged_status(empty_status(), a) == a,
{
    lemma_merged_counts_empty(a.query_type);
    lemma_merged_counts_empty(a.answer_type);
    lemma_merged_counts_empty(a.authority_type);
    lemma_merged_counts_empty(a.additional_type);
    lemma_merged_counts_empty(a.reply_code);
}

/// The sum of the counts of all keys below `n`.
pub open spec fn sum_below(m: Map<u16, nat>, n: nat) -> nat
    decreases n,
{
    if n == 0 {
        0
    } else {
        sum_below(m, (n - 1) as nat) + tally(m, (n - 1) as u16)
    }
}

/// The sum of all counts of a map keyed by record type.
pub open spec fn sum_of(m: Map<u16, nat>) -> nat {
    sum_below(m, 0x10000)
}

/// The sum of the counts of the keys below `n` that are in `seen`.
pub open spec fn sum_seen(m: Map<u16, nat>, seen: Set<u16>, n: nat) -> nat
    decreases n,
{
    if n == 0 {
        0
    } else {
        sum_seen(m, seen, (n - 1) as nat) + if seen.contains((n - 1) as u16) {
            tally(m, (n - 1) as u16)
        } else {
            0
        }
    }
}

/// One more key seen adds its count, once.
pub proof fn lemma_sum_seen_insert(m: Map<u16, nat>, seen: Set<u16>, k: u16, n: nat)
    requires
        !seen.contains(k),
        n <= 0x10000,
    ensures
        sum_seen(m, seen.insert(k), n) == sum_seen(m, seen, n) + if k < n {
            tally(m, k)
        } else {
            0
        },
    decreases n,
{
    if n > 0 {
        lemma_sum_seen_insert(m, seen, k, (n - 1) as nat);
    }
}

/// The counts of the keys seen add up to no more than all counts, and to
/// all of them once every key of the map is seen.
pub proof fn lemma_sum_seen_bound(m: Map<u16, nat>, seen: Set<u16>, n: nat)
    requires
        n <= 0x10000,
    ensures
        sum_seen(m, seen, n) <= sum_below(m, n),
        (forall|k: u16| m.contains_key(k) ==> seen.contains(k)) ==> sum_seen(m, seen, n)
            == sum_below(m, n),
    decreases n,
{
    if n > 0 {
        lemma_sum_seen_bound(m, seen, (n - 1) as nat);
    }
}

/// Nothing seen, nothing counted.
pub proof fn lemma_sum_seen_none(m: Map<u16, nat>, n: nat)
    ensures
        sum_seen(m, Set::empty(), n) == 0,
    decreases n,
{
    if n > 0 {
        lemma_sum_seen_none(m, (n - 1) as nat);
    }
}

/// The counter map after one more occurrence of each of `types`.
pub open spec fn bumped_all(m: Map<u16, nat>, types: Seq<u16>) -> Map<u16, nat>
    decreases types.len(),
{
    if types.len() == 0 {
        m
    } else {
        bumped(bumped_all(m, types.drop_last()), types.last())
    }
}

/// The sum of the counts of all response codes below `n`.
pub open spec fn codes_below(m: Map<u8, nat>, n: nat) -> nat
    decreases n,
{
    if n == 0 {
        0
    } else {
        codes_below(m, (n - 1) as nat) + tally(m, (n - 1) as u8)
    }
}

/// The number of responses that a map of response codes counts.
pub open spec fn code_total(m: Map<u8, nat>) -> nat {
    codes_below(m, 0x100)
}

/// An empty map of response codes counts no response.
pub proof fn lemma_code_total_empty(n: nat)
    ensures
        codes_below(Map::empty(), n) == 0,
    decreases n,
{
    if n > 0 {
        lemma_code_total_empty((n - 1) as nat);
    }
}

/// One more response under a code is one more in the sum of the codes
/// that reach it.
pub proof fn lemma_codes_below_bumped(m: Map<u8, nat>, code: u8, n: nat)
    requires
        n <= 0x100,
    ensures
        codes_below(bumped(m, code), n) == codes_below(m, n) + if code < n {
            1nat
        } else {
            0nat
        },
    decreases n,
{
    if n > 0 {
        lemma_codes_below_bumped(m, code, (n - 1) as nat);
    }
}

/// Counting a response, by its header or in full, adds one to the number
/// of responses that the response codes of a store count.
pub proof fn lemma_code_total_counted(s: StatusView, message: MessageView, now: nat)
    ensures
        code_total(after_header(s, message.header.response_code, now).reply_code) == code_total(
            s.reply_code,
        ) + 1,
        code_total(after_message(s, message, now).reply_code) == code_total(s.reply_code) + 1,
{
    lemma_codes_below_bumped(s.reply_code, message.header.response_code, 0x100);
}

/// The store of queries that were counted elsewhere, as of the time `now`.
pub open spec fn counted_status(counts: Map<u16, nat>, now: nat) -> StatusView {
    StatusView {
        query_total: sum_of(counts),
        last_update: Some(now),
        query_type: counts,
        ..empty_status()
    }
}

/// A store after a query of the given type was sent.
pub open spec fn after_query(s: StatusView, query_type: u16) -> StatusView {
    StatusView {
        query_total: s.query_total + 1,
        query_type: bumped(s.query_type, query_type),
        ..s
    }
}

/// A store before its last query, of the given type, was counted, the
/// count of the type having been `previous`.
pub open spec fn before_query(s: StatusView, query_type: u16, previous: Option<nat>) -> StatusView {
    StatusView {
        query_total: (s.query_total - 1) as nat,
        query_type: match previous {
            Some(n) => s.query_type.insert(query_type, n),
            None => s.query_type.remove(query_type),
        },
        ..s
    }
}

/// Counting a query and taking it back leaves a store as it was.
pub proof fn lemma_query_taken_back(s: StatusView, query_type: u16)
    ensures
        before_query(
            after_query(s, query_type),
            query_type,
            if s.query_type.contains_key(query_type) {
                Some(s.query_type[query_type])
            } else {
                None
            },
        ) == s,
{
    let previous = if s.query_type.contains_key(query_type) {
        Some(s.query_type[query_type])
    } else {
        None
    };
    assert(before_query(after_query(s, query_type), query_type, previous).query_type
        =~= s.query_type);
}

/// A store after the header of a response was read at time `now`.
pub open spec fn after_header(s: StatusView, response_code: u8, now: nat) -> StatusView {
    StatusView {
        receive_total: s.receive_total + 1,
        reply_code: bumped(s.reply_code, response_code),
        last_update: Some(now),
        ..s
    }
}

/// A store after a whole response was read at time `now`: beyond what is
/// counted of its header, the type of its first question and the types of
/// all its records are counted.
pub open spec fn after_message(s: StatusView, message: MessageView, now: nat) -> StatusView {
    StatusView {
        receive_total: s.receive_total + 1,
        query_type: bumped(s.query_type, message.queries[0]),
        answer_type: bumped_all(s.answer_type, message.answers),
        additional_type: bumped_all(s.additional_type, message.additionals),
        authority_type: bumped_all(s.authority_type, message.name_servers),
        reply_code: bumped(s.reply_code, message.header.response_code),
        last_update: Some(now),
        ..s
    }
}

/// No count of a map bumped for each of `types` exceeds the old count by
/// more than their number.
pub proof fn lemma_bumped_all_bound(m: Map<u16, nat>, types: Seq<u16>, k: u16)
    ensures
        tally(bumped_all(m, types), k) <= tally(m, k) + types.len(),
    decreases types.len(),
{
    if types.len() > 0 {
        lemma_bumped_all_bound(m, types.drop_last(), k);
    }
}

/// Whether a counter map has room to count each of `types`.
pub open spec fn types_fit(m: Map<u16, nat>, types: Seq<u16>) -> bool {
    forall|i: int| 0 <= i < types.len() ==> tally(m, #[trigger] types[i]) + types.len() <= u64::MAX
}

/// Whether a counter map has room to count each of `types`.
fn types_have_room(map: &HashMap<u16, u64>, types: &Vec<u16>) -> (r: bool)
    ensures
        r == types_fit(counts_of(map@), types@),
{
    broadcast use group_hash_axioms;

    let n = types.len();
    let mut i: usize = 0;
    while i < n
        invariant
            i <= n,
            n == types@.len(),
            forall|j: int|
                0 <= j < i ==> tally(counts_of(map@), #[trigger] types@[j]) + n <= u64::MAX,
        decreases n - i,
    {
        let count: u64 = match map.get(&types[i]) {
            Some(c) => *c,
            None => 0,
        };
        if count > u64::MAX - (n as u64) {
            proof {
                assert(tally(counts_of(map@), types@[i as int]) + n > u64::MAX);
            }
            return false;
        }
        i = i + 1;
    }
    true
}

/// Bumps the counter of each of `types`.
fn bump_all(map: &mut HashMap<u16, u64>, types: &Vec<u16>)
    requires
        types_fit(counts_of(old(map)@), types@),
    ensures
        counts_of(final(map)@) == bumped_all(counts_of(old(map)@), types@),
{
    broadcast use group_hash_axioms;

    let mut i: usize = 0;
    while i < types.len()
        invariant
            i <= types@.len(),
            types_fit(counts_of(old(map)@), types@),
            counts_of(map@) == bumped_all(counts_of(old(map)@), types@.subrange(0, i as int)),
        decreases types@.len() - i,
    {
        let t = types[i];
        proof {
            let seen = types@.subrange(0, i as int);
            lemma_bumped_all_bound(counts_of(old(map)@), seen, t);
            assert(tally(counts_of(old(map)@), types@[i as int]) + types@.len() <= u64::MAX);
            assert(tally(counts_of(map@), t) == count_at(map@, t));
            assert(types@.subrange(0, i + 1).drop_last() =~= seen);
        }
        bump(map, t);
        i = i + 1;
    }
    proof {
        assert(types@.subrange(0, types@.len() as int) =~= types@);
    }
}

/// The sums of two counter maps fit their counters exactly where every
/// count of the sum of the maps does.
pub proof fn lemma_counts_bounded<K>(a: Map<K, u64>, b: Map<K, u64>)
    ensures
        counts_fit(a, b) <==> counts_bounded(merged_counts(counts_of(a), counts_of(b))),
{
    let m = merged_counts(counts_of(a), counts_of(b));
    assert forall|k: K| #[trigger] tally(m, k) == count_at(a, k) + count_at(b, k) by {}
    if counts_fit(a, b) {
        assert forall|k: K| #[trigger] tally(m, k) <= u64::MAX by {
            assert(count_at(a, k) + count_at(b, k) <= u64::MAX);
        }
    }
    if counts_bounded(m) {
        assert forall|k: K| #[trigger] count_at(a, k) + count_at(b, k) <= u64::MAX by {
            assert(tally(m, k) <= u64::MAX);
        }
    }
}

/// The counters of one worker: what it sent and what came back.
#[derive(Debug)]
pub struct StatusStore {
    query_total: u64,
    receive_total: u64,
    parse_error: u64,
    send_duration: Option<u64>,
    last_update: Option<u64>,
    query_type: HashMap<u16, u64>,
    answer_type: HashMap<u16, u64>,
    authority_type: HashMap<u16, u64>,
    additional_type: HashMap<u16, u64>,
    reply_code: HashMap<u8, u64>,
    report: Option<HistogramReport>,
}

/// An optional machine integer as an optional natural number.
pub open spec fn option_nat(v: Option<u64>) -> Option<nat> {
    match v {
        Some(x) => Some(x as nat),
        None => None,
    }
}

/// An optional histogram report as an optional histogram.
pub open spec fn option_report(v: Option<HistogramReport>) -> Option<HistogramView> {
    match v {
        Some(x) => Some(x@),
        None => None,
    }
}

impl View for StatusStore {
    type V = StatusView;

    closed spec fn view(&self) -> StatusView {
        StatusView {
            query_total: self.query_total as nat,
            receive_total: self.receive_total as nat,
            parse_error: self.parse_error as nat,
            send_duration: option_nat(self.send_duration),
            last_update: option_nat(self.last_update),
            query_type: counts_of(self.query_type@),
            answer_type: counts_of(self.answer_type@),
            authority_type: counts_of(self.authority_type@),
            additional_type: counts_of(self.additional_type@),
            reply_code: counts_of(self.reply_code@),
            report: option_report(self.report),
        }
    }
}

/// Whether every count of a map fits a counter.
pub open spec fn counts_bounded<K>(m: Map<K, nat>) -> bool {
    forall|k: K| #[trigger] tally(m, k) <= u64::MAX
}

/// Whether every number of a store fits the machine integer that holds it.
pub open spec fn status_bounded(s: StatusView) -> bool {
    &&& s.query_total <= u64::MAX
    &&& s.receive_total <= u64::MAX
    &&& s.parse_error <= u64::MAX
    &&& s.send_duration matches Some(d) ==> d <= u64::MAX
    &&& s.last_update matches Some(t) ==> t <= u64::MAX
    &&& counts_bounded(s.query_type)
    &&& counts_bounded(s.answer_type)
    &&& counts_bounded(s.authority_type)
    &&& counts_bounded(s.additional_type)
    &&& counts_bounded(s.reply_code)
    &&& s.report matches Some(h) ==> h.count <= u64::MAX
}

impl Clone for StatusStore {
    fn clone(&self) -> (r: Self)
        ensures
            r@ == self@,
    {
        StatusStore {
            query_total: self.query_total,
            receive_total: self.receive_total,
            parse_error: self.parse_error,
            send_duration: self.send_duration,
            last_update: self.last_update,
            query_type: self.query_type.clone(),
            answer_type: self.answer_type.clone(),
            authority_type: self.authority_type.clone(),
            additional_type: self.additional_type.clone(),
            reply_code: self.reply_code.clone(),
            report: match &self.report {
                Some(r) => Some(r.clone()),
                None => None,
            },
        }
    }
}

impl StatusStore {
    /// Whether the store's histogram, if it has one, is well formed.
    pub open spec fn wf(&self) -> bool {
        status_well_formed(self@)
    }

    /// A store in which nothing has been counted.
    pub fn new() -> (r: StatusStore)
        ensures
            r@ == empty_status(),
            r.wf(),
    {
        let r = StatusStore {
            query_total: 0,
            receive_total: 0,
            parse_error: 0,
            send_duration: None,
            last_update: None,
            query_type: HashMap::new(),
            answer_type: HashMap::new(),
            authority_type: HashMap::new(),
            additional_type: HashMap::new(),
            reply_code: HashMap::new(),
            report: None,
        };
        proof {
            assert(r@.query_type =~= Map::empty());
            assert(r@.answer_type =~= Map::empty());
            assert(r@.authority_type =~= Map::empty());
            assert(r@.additional_type =~= Map::empty());
            assert(r@.reply_code =~= Map::empty());
        }
        r
    }

    /// A store for queries that were counted elsewhere: their total is the
    /// sum of the counts, and the store was last updated at the time `now`.
    pub fn new_from_query_status_at(query_status: HashMap<u16, u64>, now: u64) -> (r:
        StatusStore)
        requires
            sum_of(counts_of(query_status@)) <= u64::MAX,
        ensures
            r.wf(),
            r@ == counted_status(counts_of(query_status@), now as nat),
    {
        broadcast use group_hash_axioms;
        broadcast use axiom_spec_hash_map_iter;

        let ghost counts = counts_of(query_status@);
        let ghost mut seen: Set<u16> = Set::empty();
        let mut query_total: u64 = 0;
        proof {
            lemma_sum_seen_none(counts, 0x10000);
        }
        for (k, v) in it: query_status.iter()
            invariant
                counts == counts_of(query_status@),
                sum_of(counts) <= u64::MAX,
                it.seq() == query_status.iter().remaining(),
                it.seq().no_duplicates(),
                query_total == sum_seen(counts, seen, 0x10000),
                forall|j: int| 0 <= j < it.index() ==> seen.contains(*(#[trigger] it.seq()[j]).0),
                forall|key: u16|
                    seen.contains(key) ==> exists|j: int|
                        0 <= j < it.index() && *(#[trigger] it.seq()[j]).0 == key,
        {
            proof {
                let i = it.index();
                let s = it.seq();
                assert(s[i] == (k, v));
                assert(query_status@.contains_key(*k) && query_status@[*k] == *v);
                if seen.contains(*k) {
                    let j = choose|j: int| 0 <= j < i && *(#[trigger] s[j]).0 == *k;
                    assert(query_status@[*s[j].0] == *s[j].1);
                    assert(s[j] == s[i]);
                }
                lemma_sum_seen_insert(counts, seen, *k, 0x10000);
                lemma_sum_seen_bound(counts, seen.insert(*k), 0x10000);
                assert(tally(counts, *k) == *v);
                assert forall|key: u16| seen.insert(*k).contains(key) implies exists|j: int|
                    0 <= j < i + 1 && *(#[trigger] s[j]).0 == key by {
                    if key == *k {
                        assert(*s[i].0 == key);
                    } else {
                        let j = choose|j: int| 0 <= j < i && *(#[trigger] s[j]).0 == key;
                        assert(*s[j].0 == key);
                    }
                }
                seen = seen.insert(*k);
            }
            query_total = query_total + *v;
        }
        proof {
            let s = query_status.iter().remaining();
            assert forall|key: u16| counts.contains_key(key) implies seen.contains(key) by {
                assert(s.contains((&key, &query_status@[key])));
                let j = choose|j: int| 0 <= j < s.len() && s[j] == (&key, &query_status@[key]);
                assert(*s[j].0 == key);
            }
            lemma_sum_seen_bound(counts, seen, 0x10000);
        }
        let r = StatusStore {
            query_total,
            receive_total: 0,
            parse_error: 0,
            send_duration: None,
            last_update: Some(now),
            query_type: query_status,
            answer_type: HashMap::new(),
            authority_type: HashMap::new(),
            additional_type: HashMap::new(),
            reply_code: HashMap::new(),
            report: None,
        };
        proof {
            assert(r@.answer_type =~= Map::empty());
            assert(r@.authority_type =~= Map::empty());
            assert(r@.additional_type =~= Map::empty());
            assert(r@.reply_code =~= Map::empty());
        }
        r
    }

    /// A store for queries that were counted elsewhere, last updated now by
    /// the system clock.
    pub fn new_from_query_status(query_status: HashMap<u16, u64>) -> (r: StatusStore)
        requires
            sum_of(counts_of(query_status@)) <= u64::MAX,
        ensures
            r.wf(),
            exists|now: nat| r@ == #[trigger] counted_status(counts_of(query_status@), now),
    {
        let now = unix_nanos();
        Self::new_from_query_status_at(query_status, now)
    }

    /// Sets the number of queries sent.
    pub fn set_query_total(&mut self, total: u64)
        ensures
            final(self)@ == (StatusView { query_total: total as nat, ..old(self)@ }),
    {
        self.query_total = total;
    }

    /// Sets the number of responses received.
    pub fn set_receive_total(&mut self, total: u64)
        ensures
            final(self)@ == (StatusView { receive_total: total as nat, ..old(self)@ }),
    {
        self.receive_total = total;
    }

    /// Sets the number of responses that could not be read.
    pub fn set_parse_error(&mut self, total: u64)
        ensures
            final(self)@ == (StatusView { parse_error: total as nat, ..old(self)@ }),
    {
        self.parse_error = total;
    }

    /// The number of responses that could not be read.
    pub fn parse_error(&self) -> (r: u64)
        ensures
            r == self@.parse_error,
    {
        self.parse_error
    }

    /// Sets the time spent sending, in nanoseconds.
    pub fn set_send_duration(&mut self, duration: u64)
        ensures
            final(self)@ == (StatusView { send_duration: Some(duration as nat), ..old(self)@ }),
    {
        self.send_duration = Some(duration);
    }

    /// The number of queries sent.
    pub fn query_total(&self) -> (r: u64)
        ensures
            r == self@.query_total,
    {
        self.query_total
    }

    /// The number of responses received.
    pub fn receive_total(&self) -> (r: u64)
        ensures
            r == self@.receive_total,
    {
        self.receive_total
    }

    /// The time spent sending, in nanoseconds, once it is known.
    pub fn send_duration(&self) -> (r: Option<u64>)
        ensures
            option_nat(r) == self@.send_duration,
    {
        self.send_duration
    }

    /// When a response was last counted, in nanoseconds since the epoch.
    pub fn last_update(&self) -> (r: Option<u64>)
        ensures
            option_nat(r) == self@.last_update,
    {
        self.last_update
    }

    /// Whether one more query of the given type can be counted.
    pub fn can_update_query(&self, query_type: u16) -> (r: bool)
        ensures
            r == (self@.query_total < u64::MAX && tally(self@.query_type, query_type)
                < u64::MAX),
    {
        broadcast use group_hash_axioms;

        let count: u64 = match self.query_type.get(&query_type) {
            Some(c) => *c,
            None => 0,
        };
        self.query_total < u64::MAX && count < u64::MAX
    }

    /// Counts a query of the given type as sent.
    pub fn update_query(&mut self, query_type: u16)
        requires
            old(self)@.query_total < u64::MAX,
            tally(old(self)@.query_type, query_type) < u64::MAX,
        ensures
            final(self)@ == after_query(old(self)@, query_type),
    {
        self.query_total = self.query_total + 1;
        bump(&mut self.query_type, query_type);
    }

    /// The count of queries of one record type, if the store holds one.
    pub fn query_count(&self, query_type: u16) -> (r: Option<u64>)
        ensures
            r is Some <==> self@.query_type.contains_key(query_type),
            r matches Some(n) ==> n == self@.query_type[query_type],
    {
        broadcast use group_hash_axioms;

        match self.query_type.get(&query_type) {
            Some(c) => Some(*c),
            None => None,
        }
    }

    /// Takes back the last query counted, of the given type: the total is
    /// one less, and the count of the type is again what it was before,
    /// `previous`, or gone where there was none.
    pub fn revert_query(&mut self, query_type: u16, previous: Option<u64>)
        requires
            old(self)@.query_total > 0,
        ensures
            final(self)@ == before_query(old(self)@, query_type, option_nat(previous)),
    {
        broadcast use group_hash_axioms;

        self.query_total = self.query_total - 1;
        match previous {
            Some(n) => {
                self.query_type.insert(query_type, n);
            },
            None => {
                self.query_type.remove(&query_type);
            },
        }
        proof {
            assert(self@.query_type =~= before_query(
                old(self)@,
                query_type,
                option_nat(previous),
            ).query_type);
        }
    }

    /// The number of queries counted for each record type.
    pub fn get_query(&mut self) -> (r: HashMap<u16, u64>)
        ensures
            counts_of(r@) == old(self)@.query_type,
            final(self)@ == old(self)@,
    {
        self.query_type.clone()
    }

    /// The number of answer records counted for each record type.
    pub fn get_answer(&self) -> (r: HashMap<u16, u64>)
        ensures
            counts_of(r@) == self@.answer_type,
    {
        self.answer_type.clone()
    }

    /// The number of name server records counted for each record type.
    pub fn get_authority(&self) -> (r: HashMap<u16, u64>)
        ensures
            counts_of(r@) == self@.authority_type,
    {
        self.authority_type.clone()
    }

    /// The number of additional records counted for each record type.
    pub fn get_additional(&self) -> (r: HashMap<u16, u64>)
        ensures
            counts_of(r@) == self@.additional_type,
    {
        self.additional_type.clone()
    }

    /// The number of responses counted for each response code.
    pub fn get_reply_code(&self) -> (r: HashMap<u8, u64>)
        ensures
            counts_of(r@) == self@.reply_code,
    {
        self.reply_code.clone()
    }

    /// The histogram of the store, if it has one.
    pub fn histogram_report(&self) -> (r: Option<HistogramReport>)
        ensures
            option_report(r) == self@.report,
    {
        match &self.report {
            Some(h) => Some(h.clone()),
            None => None,
        }
    }

    /// Replaces the histogram of the store.
    pub fn update_histogram_report(&mut self, report: Option<HistogramReport>)
        ensures
            final(self)@ == (StatusView { report: option_report(report), ..old(self)@ }),
    {
        self.report = report;
    }

    /// Whether one more response with this header can be counted.
    pub fn can_update_response(&self, header: &Header) -> (r: bool)
        ensures
            r == (self@.receive_total < u64::MAX && tally(
                self@.reply_code,
                header.response_code,
            ) < u64::MAX),
    {
        broadcast use group_hash_axioms;

        let count: u64 = match self.reply_code.get(&header.response_code) {
            Some(c) => *c,
            None => 0,
        };
        self.receive_total < u64::MAX && count < u64::MAX
    }

    /// Counts a response of which the header was read at the time `now`.
    pub fn update_response_from_header_at(&mut self, header: &Header, now: u64)
        requires
            old(self)@.receive_total < u64::MAX,
            tally(old(self)@.reply_code, header.response_code) < u64::MAX,
        ensures
            final(self)@ == after_header(old(self)@, header.response_code, now as nat),
    {
        self.receive_total = self.receive_total + 1;
        bump(&mut self.reply_code, header.response_code);
        self.last_update = Some(now);
    }

    /// Counts a response of which the header was read, as of now by the
    /// system clock.
    pub fn update_response_from_header(&mut self, header: &Header)
        requires
            old(self)@.receive_total < u64::MAX,
            tally(old(self)@.reply_code, header.response_code) < u64::MAX,
        ensures
            exists|now: nat|
                final(self)@ == #[trigger] after_header(old(self)@, header.response_code, now),
    {
        let now = unix_nanos();
        self.update_response_from_header_at(header, now);
    }

    /// Whether a store can count the given response in full.
    pub open spec fn has_room_for(s: StatusView, message: MessageView) -> bool {
        &&& message.queries.len() > 0
        &&& s.receive_total < u64::MAX
        &&& tally(s.reply_code, message.header.response_code) < u64::MAX
        &&& tally(s.query_type, message.queries[0]) < u64::MAX
        &&& types_fit(s.answer_type, message.answers)
        &&& types_fit(s.additional_type, message.additionals)
        &&& types_fit(s.authority_type, message.name_servers)
    }

    /// Whether the store can count the given response in full.
    pub fn can_update_from_message(&self, message: &Message) -> (r: bool)
        ensures
            r == Self::has_room_for(self@, message@),
    {
        broadcast use group_hash_axioms;

        if message.queries.len() == 0 || self.receive_total == u64::MAX {
            return false;
        }
        let code: u64 = match self.reply_code.get(&message.header.response_code) {
            Some(c) => *c,
            None => 0,
        };
        let asked: u64 = match self.query_type.get(&message.queries[0]) {
            Some(c) => *c,
            None => 0,
        };
        code < u64::MAX && asked < u64::MAX && types_have_room(
            &self.answer_type,
            &message.answers,
        ) && types_have_room(&self.additional_type, &message.additionals) && types_have_room(
            &self.authority_type,
            &message.name_servers,
        )
    }

    /// Counts a response that was read in full at the time `now`.
    pub fn update_response_from_message_at(&mut self, message: &Message, now: u64)
        requires
            Self::has_room_for(old(self)@, message@),
        ensures
            final(self)@ == after_message(old(self)@, message@, now as nat),
    {
        self.receive_total = self.receive_total + 1;
        bump(&mut self.query_type, message.queries[0]);
        bump_all(&mut self.answer_type, &message.answers);
        bump_all(&mut self.additional_type, &message.additionals);
        bump_all(&mut self.authority_type, &message.name_servers);
        bump(&mut self.reply_code, message.header.response_code);
        self.last_update = Some(now);
    }

    /// Counts a response that was read in full, as of now by the system
    /// clock.
    pub fn update_response_from_message(&mut self, message: &Message)
        requires
            Self::has_room_for(old(self)@, message@),
        ensures
            exists|now: nat| final(self)@ == #[trigger] after_message(old(self)@, message@, now),
    {
        let now = unix_nanos();
        self.update_response_from_message_at(message, now);
    }

    /// Whether the sum of two stores fits the machine integers of a store.
    pub open spec fn can_add(a: StatusView, b: StatusView) -> bool {
        status_bounded(merged_status(a, b))
    }

    /// Whether the sum of this store and another fits the machine integers
    /// of a store.
    pub fn fits_with(&self, rhs: &StatusStore) -> (r: bool)
        ensures
            r == Self::can_add(self@, rhs@),
    {
        broadcast use group_hash_axioms;

        proof {
            lemma_counts_bounded(self.query_type@, rhs.query_type@);
            lemma_counts_bounded(self.answer_type@, rhs.answer_type@);
            lemma_counts_bounded(self.authority_type@, rhs.authority_type@);
            lemma_counts_bounded(self.additional_type@, rhs.additional_type@);
            lemma_counts_bounded(self.reply_code@, rhs.reply_code@);
        }
        if self.query_total > u64::MAX - rhs.query_total {
            return false;
        }
        if self.receive_total > u64::MAX - rhs.receive_total {
            return false;
        }
        if self.parse_error > u64::MAX - rhs.parse_error {
            return false;
        }
        let reports_fit = match (&self.report, &rhs.report) {
            (Some(a), Some(b)) => a.fits_with(b),
            (Some(a), None) => a.count() <= u64::MAX,
            (None, Some(b)) => b.count() <= u64::MAX,
            (None, None) => true,
        };
        reports_fit && maps_fit(&self.query_type, &rhs.query_type) && maps_fit(
            &self.answer_type,
            &rhs.answer_type,
        ) && maps_fit(&self.authority_type, &rhs.authority_type) && maps_fit(
            &self.additional_type,
            &rhs.additional_type,
        ) && maps_fit(&self.reply_code, &rhs.reply_code)
    }

    /// The sum of two stores.
    pub fn add(self, rhs: StatusStore) -> (r: StatusStore)
        requires
            self.wf(),
            rhs.wf(),
            Self::can_add(self@, rhs@),
        ensures
            r.wf(),
            r@ == merged_status(self@, rhs@),
    {
        let ghost a = self@;
        let ghost b = rhs@;
        proof {
            lemma_merged_status_well_formed(a, b);
            let m = merged_status(a, b);
            assert forall|k: u16| #[trigger]
                count_at(self.query_type@, k) + count_at(rhs.query_type@, k) <= u64::MAX by {
                assert(tally(m.query_type, k) <= u64::MAX);
            }
            assert forall|k: u16| #[trigger]
                count_at(self.answer_type@, k) + count_at(rhs.answer_type@, k) <= u64::MAX by {
                assert(tally(m.answer_type, k) <= u64::MAX);
            }
            assert forall|k: u16| #[trigger]
                count_at(self.authority_type@, k) + count_at(rhs.authority_type@, k)
                    <= u64::MAX by {
                assert(tally(m.authority_type, k) <= u64::MAX);
            }
            assert forall|k: u16| #[trigger]
                count_at(self.additional_type@, k) + count_at(rhs.additional_type@, k)
                    <= u64::MAX by {
                assert(tally(m.additional_type, k) <= u64::MAX);
            }
            assert forall|k: u8| #[trigger]
                count_at(self.reply_code@, k) + count_at(rhs.reply_code@, k) <= u64::MAX by {
                assert(tally(m.reply_code, k) <= u64::MAX);
            }
        }
        let send_duration = match (self.send_duration, rhs.send_duration) {
            (Some(v1), Some(v2)) => if v1 > v2 {
                Some(v1)
            } else {
                Some(v2)
            },
            (Some(v1), None) => Some(v1),
            (None, Some(v2)) => Some(v2),
            (None, None) => None,
        };
        let last_update = match (self.last_update, rhs.last_update) {
            (Some(v1), Some(v2)) => if v1 > v2 {
                Some(v1)
            } else {
                Some(v2)
            },
            (Some(v1), None) => Some(v1),
            (None, Some(v2)) => Some(v2),
            (None, None) => None,
        };
        let query_type = merge_map(&self.query_type, &rhs.query_type);
        let answer_type = merge_map(&self.answer_type, &rhs.answer_type);
        let authority_type = merge_map(&self.authority_type, &rhs.authority_type);
        let additional_type = merge_map(&self.additional_type, &rhs.additional_type);
        let reply_code = merge_map(&self.reply_code, &rhs.reply_code);
        let query_total = self.query_total + rhs.query_total;
        let receive_total = self.receive_total + rhs.receive_total;
        let parse_error = self.parse_error + rhs.parse_error;
        let report = match (self.report, rhs.report) {
            (Some(v1), Some(v2)) => Some(v1.add(v2)),
            (None, Some(v2)) => Some(v2),
            (Some(v1), None) => Some(v1),
            (None, None) => None,
        };
        StatusStore {
            query_total,
            receive_total,
            parse_error,
            send_duration,
            last_update,
            query_type,
            answer_type,
            authority_type,
            additional_type,
            reply_code,
            report,
        }
    }
}

/// A name with its count.
#[derive(Debug)]
pub struct ItemKeyValue {
    pub key: String,
    pub value: u64,
}

/// The name of a record type with the number of responses to it and, where
/// it was asked for at all, the number of queries for it: the rate of
/// answers is a hundred times the one divided by the other.
#[derive(Debug)]
pub struct ItemKeyValueRate {
    pub key: String,
    pub value: u64,
    pub asked: Option<u64>,
}

/// The main figures of a run. Durations are in nanoseconds. The rate of
/// answered queries is a hundred times `response_total` divided by
/// `query_total`. `parse_error` is the number of responses, among those
/// received, that could not be read.
#[derive(Debug)]
pub struct BasicStats {
    pub response_code: Vec<ItemKeyValue>,
    pub duration: u64,
    pub query_total: u64,
    pub response_total: u64,
    pub parse_error: u64,
    pub qps: u64,
    pub min_lantency: u64,
    pub max_lantency: u64,
    pub mean_lantency: u64,
    pub p99: u64,
    pub p95: u64,
    pub p90: u64,
    pub p50: u64,
}

/// The figures by record type.
#[derive(Debug)]
pub struct ExtensionStats {
    pub query_type: Vec<ItemKeyValue>,
    pub response_type: Vec<ItemKeyValueRate>,
    pub answer_result: Vec<ItemKeyValue>,
    pub additional_result: Vec<ItemKeyValue>,
    pub authority_result: Vec<ItemKeyValue>,
}

/// All figures of a report.
#[derive(Debug)]
pub struct CombinedResult {
    pub basic: BasicStats,
    pub extension: ExtensionStats,
}

/// The form in which a report is put out.
#[derive(Clone, Copy, Debug, PartialEq, Eq, Structural)]
pub enum ReportType {
    Basic,
    YAML,
    JSON,
}

/// The entries of a counter map for the keys below `n`, by ascending key.
pub open spec fn entries_below(m: Map<u16, nat>, n: nat) -> Seq<(u16, nat)>
    decreases n,
{
    if n == 0 {
        Seq::empty()
    } else {
        let rest = entries_below(m, (n - 1) as nat);
        if m.contains_key((n - 1) as u16) {
            rest.push(((n - 1) as u16, m[(n - 1) as u16]))
        } else {
            rest
        }
    }
}

/// The entries of a map of response codes for the codes below `n`, by
/// ascending code.
pub open spec fn code_entries_below(m: Map<u8, nat>, n: nat) -> Seq<(u8, nat)>
    decreases n,
{
    if n == 0 {
        Seq::empty()
    } else {
        let rest = code_entries_below(m, (n - 1) as nat);
        if m.contains_key((n - 1) as u8) {
            rest.push(((n - 1) as u8, m[(n - 1) as u8]))
        } else {
            rest
        }
    }
}

/// The counts by record type, each under the name of its type, by
/// ascending number of the type.
pub open spec fn named_counts(m: Map<u16, nat>) -> Seq<(Seq<char>, nat)> {
    entries_below(m, 0x10000).map_values(|e: (u16, nat)| (record_type_text(e.0), e.1))
}

/// The counts by response code, each under the name of its code, by
/// ascending code.
pub open spec fn named_codes(m: Map<u8, nat>) -> Seq<(Seq<char>, nat)> {
    code_entries_below(m, 0x100).map_values(|e: (u8, nat)| (response_code_text(e.0), e.1))
}

/// The responses by record type, each with the number of queries of that
/// type if there were any, by ascending number of the type.
pub open spec fn rated_counts(answered: Map<u16, nat>, asked: Map<u16, nat>) -> Seq<
    (Seq<char>, nat, Option<nat>),
> {
    entries_below(answered, 0x10000).map_values(
        |e: (u16, nat)|
            (
                record_type_text(e.0),
                e.1,
                if asked.contains_key(e.0) {
                    Some(asked[e.0])
                } else {
                    None
                },
            ),
    )
}

/// A list of named counts as a mathematical sequence.
pub open spec fn items_of(items: Seq<ItemKeyValue>) -> Seq<(Seq<char>, nat)> {
    items.map_values(|i: ItemKeyValue| (i.key@, i.value as nat))
}

/// A list of named counts with their queries as a mathematical sequence.
pub open spec fn rated_items_of(items: Seq<ItemKeyValueRate>) -> Seq<
    (Seq<char>, nat, Option<nat>),
> {
    items.map_values(|i: ItemKeyValueRate| (i.key@, i.value as nat, option_nat(i.asked)))
}

/// Queries per second, rounded down: the number of queries by the seconds
/// they took. Queries in no time count as the largest rate there is.
pub open spec fn qps_of(query_total: nat, nanos: nat) -> nat {
    if nanos == 0 {
        if query_total == 0 {
            0
        } else {
            u64::MAX as nat
        }
    } else if query_total * 1_000_000_000 / nanos > u64::MAX {
        u64::MAX as nat
    } else {
        query_total * 1_000_000_000 / nanos
    }
}

/// The form of output that the name of a target asks for: JSON or YAML by
/// its ending, whatever the case of the letters; else plain text.
pub open spec fn output_for(target: Seq<u8>) -> ReportType {
    if ends_with(lowered(target), seq![0x2eu8, 0x6a, 0x73, 0x6f, 0x6e]) {
        ReportType::JSON
    } else if ends_with(lowered(target), seq![0x2eu8, 0x79, 0x61, 0x6d, 0x6c]) {
        ReportType::YAML
    } else {
        ReportType::Basic
    }
}

/// The counts of a map by record type, named, by ascending type.
pub fn format_result(result_map: &HashMap<u16, u64>) -> (r: Vec<ItemKeyValue>)
    ensures
        items_of(r@) == named_counts(counts_of(result_map@)),
{
    broadcast use group_hash_axioms;

    let ghost m = counts_of(result_map@);
    let mut r: Vec<ItemKeyValue> = Vec::new();
    let mut k: u32 = 0;
    while k < 0x10000
        invariant
            k <= 0x10000,
            m == counts_of(result_map@),
            items_of(r@) == entries_below(m, k as nat).map_values(
                |e: (u16, nat)| (record_type_text(e.0), e.1),
            ),
        decreases 0x10000 - k,
    {
        let key = k as u16;
        let ghost before = r@;
        match result_map.get(&key) {
            Some(v) => {
                r.push(ItemKeyValue { key: record_type_name(key), value: *v });
                proof {
                    assert(items_of(r@) =~= items_of(before).push(
                        (record_type_text(key), *v as nat),
                    ));
                    assert(entries_below(m, (k + 1) as nat).map_values(
                        |e: (u16, nat)| (record_type_text(e.0), e.1),
                    ) =~= entries_below(m, k as nat).map_values(
                        |e: (u16, nat)| (record_type_text(e.0), e.1),
                    ).push((record_type_text(key), *v as nat)));
                }
            },
            None => {},
        }
        k = k + 1;
    }
    r
}

/// The counts of a map by response code, named, by ascending code.
pub fn format_code_result(result_map: &HashMap<u8, u64>) -> (r: Vec<ItemKeyValue>)
    ensures
        items_of(r@) == named_codes(counts_of(result_map@)),
{
    broadcast use group_hash_axioms;

    let ghost m = counts_of(result_map@);
    let mut r: Vec<ItemKeyValue> = Vec::new();
    let mut k: u16 = 0;
    while k < 0x100
        invariant
            k <= 0x100,
            m == counts_of(result_map@),
            items_of(r@) == code_entries_below(m, k as nat).map_values(
                |e: (u8, nat)| (response_code_text(e.0), e.1),
            ),
        decreases 0x100 - k,
    {
        let key = k as u8;
        let ghost before = r@;
        match result_map.get(&key) {
            Some(v) => {
                r.push(ItemKeyValue { key: response_code_name(key), value: *v });
                proof {
                    assert(items_of(r@) =~= items_of(before).push(
                        (response_code_text(key), *v as nat),
                    ));
                    assert(code_entries_below(m, (k + 1) as nat).map_values(
                        |e: (u8, nat)| (response_code_text(e.0), e.1),
                    ) =~= code_entries_below(m, k as nat).map_values(
                        |e: (u8, nat)| (response_code_text(e.0), e.1),
                    ).push((response_code_text(key), *v as nat)));
                }
            },
            None => {},
        }
        k = k + 1;
    }
    r
}

/// The responses by record type with the queries of the same type.
fn format_rated_result(answered: &HashMap<u16, u64>, asked: &HashMap<u16, u64>) -> (r: Vec<
    ItemKeyValueRate,
>)
    ensures
        rated_items_of(r@) == rated_counts(counts_of(answered@), counts_of(asked@)),
{
    broadcast use group_hash_axioms;

    let ghost m = counts_of(answered@);
    let ghost q = counts_of(asked@);
    let ghost f = |e: (u16, nat)|
        (
            record_type_text(e.0),
            e.1,
            if q.contains_key(e.0) {
                Some(q[e.0])
            } else {
                None
            },
        );
    let mut r: Vec<ItemKeyValueRate> = Vec::new();
    let mut k: u32 = 0;
    while k < 0x10000
        invariant
            k <= 0x10000,
            m == counts_of(answered@),
            q == counts_of(asked@),
            f == |e: (u16, nat)|
                (
                    record_type_text(e.0),
                    e.1,
                    if q.contains_key(e.0) {
                        Some(q[e.0])
                    } else {
                        None
                    },
                ),
            rated_items_of(r@) == entries_below(m, k as nat).map_values(f),
        decreases 0x10000 - k,
    {
        let key = k as u16;
        let ghost before = r@;
        match answered.get(&key) {
            Some(v) => {
                let queries: Option<u64> = match asked.get(&key) {
                    Some(n) => Some(*n),
                    None => None,
                };
                r.push(ItemKeyValueRate { key: record_type_name(key), value: *v, asked: queries });
                proof {
                    assert(rated_items_of(r@) =~= rated_items_of(before).push(
                        f((key, *v as nat)),
                    ));
                    assert(entries_below(m, (k + 1) as nat).map_values(f) =~= entries_below(
                        m,
                        k as nat,
                    ).map_values(f).push(f((key, *v as nat))));
                }
            },
            None => {},
        }
        k = k + 1;
    }
    r
}

/// Queries per second, rounded down.
pub fn queries_per_second(query_total: u64, nanos: u64) -> (r: u64)
    ensures
        r == qps_of(query_total as nat, nanos as nat),
{
    if nanos == 0 {
        if query_total == 0 {
            0
        } else {
            u64::MAX
        }
    } else {
        let scaled: u128 = query_total as u128 * 1_000_000_000;
        let rate: u128 = scaled / (nanos as u128);
        if rate > u64::MAX as u128 {
            u64::MAX
        } else {
            rate as u64
        }
    }
}

/// What a run has to report: the sum of what the producers counted, the
/// sum of what the consumers counted, and the latency histogram.
pub struct RunnerReportView {
    pub producer_report: Option<StatusView>,
    pub consumer_report: Option<StatusView>,
    pub histogram: Option<HistogramView>,
}

/// An optional store as what it holds.
pub open spec fn option_status(v: Option<StatusStore>) -> Option<StatusView> {
    match v {
        Some(x) => Some(x@),
        None => None,
    }
}

/// The report of a run, filled in once its workers have ended.
#[derive(Debug)]
pub struct RunnerReport {
    producer_report: Option<StatusStore>,
    consumer_report: Option<StatusStore>,
    histogram: Option<HistogramReport>,
}

impl View for RunnerReport {
    type V = RunnerReportView;

    closed spec fn view(&self) -> RunnerReportView {
        RunnerReportView {
            producer_report: option_status(self.producer_report),
            consumer_report: option_status(self.consumer_report),
            histogram: option_report(self.histogram),
        }
    }
}

/// Whether a report holds what its figures are made of: both sums, the
/// time spent sending, and a histogram that is well formed if there is one.
pub open spec fn report_complete(r: RunnerReportView) -> bool {
    &&& r.producer_report matches Some(p) && p.send_duration is Some
    &&& r.consumer_report is Some
    &&& r.histogram matches Some(h) ==> well_formed(h)
}

/// Whether the main figures are those of the report. The figures of the
/// latency are in order, from the smallest to the largest.
pub open spec fn is_basic_of(b: BasicStats, r: RunnerReportView) -> bool {
    let p = r.producer_report->0;
    let c = r.consumer_report->0;
    &&& items_of(b.response_code@) == named_codes(c.reply_code)
    &&& b.duration == p.send_duration->0
    &&& b.query_total == p.query_total
    &&& b.response_total == c.receive_total
    &&& b.parse_error == c.parse_error
    &&& b.qps == qps_of(p.query_total, p.send_duration->0)
    &&& b.min_lantency <= b.p50 <= b.p90 <= b.p95 <= b.p99 <= b.max_lantency
    &&& match r.histogram {
        Some(h) => {
            &&& b.min_lantency == h.min
            &&& b.max_lantency == h.max
            &&& b.mean_lantency == mean_of(h)
            &&& b.p99 == percentile_of(h, 99)
            &&& b.p95 == percentile_of(h, 95)
            &&& b.p90 == percentile_of(h, 90)
            &&& b.p50 == percentile_of(h, 50)
        },
        None => {
            &&& b.min_lantency == 0
            &&& b.max_lantency == 0
            &&& b.mean_lantency == 0
            &&& b.p99 == 0
            &&& b.p95 == 0
            &&& b.p90 == 0
            &&& b.p50 == 0
        },
    }
}

/// Whether the figures by record type are those of the report.
pub open spec fn is_extension_of(e: ExtensionStats, r: RunnerReportView) -> bool {
    let p = r.producer_report->0;
    let c = r.consumer_report->0;
    &&& items_of(e.query_type@) == named_counts(p.query_type)
    &&& rated_items_of(e.response_type@) == rated_counts(c.query_type, p.query_type)
    &&& items_of(e.answer_result@) == named_counts(c.answer_type)
    &&& items_of(e.additional_result@) == named_counts(c.additional_type)
    &&& items_of(e.authority_result@) == named_counts(c.authority_type)
}

impl BasicStats {
    fn without_latency(
        response_code: Vec<ItemKeyValue>,
        duration: u64,
        query_total: u64,
        response_total: u64,
        parse_error: u64,
    ) -> (r: BasicStats)
        ensures
            r.response_code == response_code,
            r.duration == duration,
            r.query_total == query_total,
            r.response_total == response_total,
            r.parse_error == parse_error,
            r.qps == qps_of(query_total as nat, duration as nat),
            r.min_lantency == 0 && r.max_lantency == 0 && r.mean_lantency == 0,
            r.p99 == 0 && r.p95 == 0 && r.p90 == 0 && r.p50 == 0,
    {
        BasicStats {
            response_code,
            duration,
            query_total,
            response_total,
            parse_error,
            qps: queries_per_second(query_total, duration),
            min_lantency: 0,
            max_lantency: 0,
            mean_lantency: 0,
            p99: 0,
            p95: 0,
            p90: 0,
            p50: 0,
        }
    }

    /// The main figures of a report.
    pub fn new(report: &RunnerReport) -> (r: BasicStats)
        requires
            report_complete(report@),
        ensures
            is_basic_of(r, report@),
    {
        match (&report.producer_report, &report.consumer_report) {
            (Some(producer), Some(consumer)) => {
                let duration = match producer.send_duration {
                    Some(d) => d,
                    None => 0,
                };
                let mut stats = Self::without_latency(
                    format_code_result(&consumer.reply_code),
                    duration,
                    producer.query_total,
                    consumer.receive_total,
                    consumer.parse_error,
                );
                match &report.histogram {
                    Some(histogram) => {
                        proof {
                            lemma_percentiles_ordered(histogram@);
                        }
                        stats.min_lantency = histogram.min();
                        stats.max_lantency = histogram.max();
                        stats.mean_lantency = histogram.mean();
                        stats.p99 = histogram.percent99();
                        stats.p95 = histogram.percent95();
                        stats.p90 = histogram.percent90();
                        stats.p50 = histogram.percent50();
                    },
                    None => {},
                }
                stats
            },
            _ => Self::without_latency(Vec::new(), 0, 0, 0, 0),
        }
    }
}

impl ExtensionStats {
    /// The figures of a report by record type.
    pub fn new(report: &RunnerReport) -> (r: ExtensionStats)
        requires
            report_complete(report@),
        ensures
            is_extension_of(r, report@),
    {
        match (&report.producer_report, &report.consumer_report) {
            (Some(producer), Some(consumer)) => ExtensionStats {
                query_type: format_result(&producer.query_type),
                response_type: format_rated_result(&consumer.query_type, &producer.query_type),
                answer_result: format_result(&consumer.answer_type),
                additional_result: format_result(&consumer.additional_type),
                authority_result: format_result(&consumer.authority_type),
            },
            _ => ExtensionStats {
                query_type: Vec::new(),
                response_type: Vec::new(),
                answer_result: Vec::new(),
                additional_result: Vec::new(),
                authority_result: Vec::new(),
            },
        }
    }
}

impl ReportType {
    /// All figures of a report.
    pub fn formatted_data(report: &RunnerReport) -> (r: CombinedResult)
        requires
            report_complete(report@),
        ensures
            is_basic_of(r.basic, report@),
            is_extension_of(r.extension, report@),
    {
        CombinedResult { basic: BasicStats::new(report), extension: ExtensionStats::new(report) }
    }

    /// The form of output that the name of a target asks for.
    pub fn for_target(target: &str) -> (r: ReportType)
        ensures
            r == output_for(encode_utf8(target@)),
    {
        let name = target.as_bytes();
        let json: [u8; 5] = [0x2e, 0x6a, 0x73, 0x6f, 0x6e];
        let yaml: [u8; 5] = [0x2e, 0x79, 0x61, 0x6d, 0x6c];
        proof {
            assert(json@ =~= seq![0x2eu8, 0x6a, 0x73, 0x6f, 0x6e]);
            assert(yaml@ =~= seq![0x2eu8, 0x79, 0x61, 0x6d, 0x6c]);
        }
        if lowered_ends_with(name, json.as_slice()) {
            ReportType::JSON
        } else if lowered_ends_with(name, yaml.as_slice()) {
            ReportType::YAML
        } else {
            ReportType::Basic
        }
    }
}

impl RunnerReport {
    /// A report that holds nothing yet.
    pub fn new() -> (r: RunnerReport)
        ensures
            r@ == (RunnerReportView {
                producer_report: None,
                consumer_report: None,
                histogram: None,
            }),
    {
        RunnerReport { producer_report: None, consumer_report: None, histogram: None }
    }

    /// Puts in the sum of what the producers counted.
    pub fn set_producer_report(&mut self, store: StatusStore)
        ensures
            final(self)@ == (RunnerReportView { producer_report: Some(store@), ..old(self)@ }),
    {
        self.producer_report = Some(store);
    }

    /// Puts in the sum of what the consumers counted.
    pub fn set_consumer_report(&mut self, store: StatusStore)
        ensures
            final(self)@ == (RunnerReportView { consumer_report: Some(store@), ..old(self)@ }),
    {
        self.consumer_report = Some(store);
    }

    /// Puts in the latency histogram of a store.
    pub fn set_histogram_report(&mut self, store: StatusStore)
        ensures
            final(self)@ == (RunnerReportView { histogram: store@.report, ..old(self)@ }),
    {
        self.histogram = store.report;
    }

    /// Whether the report holds both sums and the time spent sending, of
    /// which its figures are made.
    pub fn has_sums(&self) -> (r: bool)
        ensures
            r == (self@.producer_report matches Some(p) && p.send_duration is Some
                && self@.consumer_report is Some),
    {
        match (&self.producer_report, &self.consumer_report) {
            (Some(p), Some(_)) => p.send_duration.is_some(),
            _ => false,
        }
    }

    /// The form of output that `target` names, and the figures to put out.
    pub fn report(&self, target: String) -> (r: (ReportType, CombinedResult))
        requires
            report_complete(self@),
        ensures
            r.0 == output_for(encode_utf8(target@)),
            is_basic_of(r.1.basic, self@),
            is_extension_of(r.1.extension, self@),
    {
        (ReportType::for_target(target.as_str()), ReportType::formatted_data(self))
    }
}

} // verus!
