//! The producer of queries: it hands out the packets of its cache, one for
//! each token of its rate limiter, until the run has sent enough or has
//! lasted long enough.

use crate::runner::cache::{
    cache_well_formed, content_view, new_cache, same_but_id, templates_for, Cache, CacheError,
    CacheView,
};
use crate::runner::limiter::{
    check_limiter, limiter_rate, new_limiter, Limiter, RateDecision,
};
use crate::runner::report::{
    after_query, before_query, empty_status, lemma_query_taken_back, option_nat, StatusStore,
    StatusView,
};
use crate::runner::runner::tally;
use crate::runner::cache::random_id;
use crate::utils::arguments::Argument;
use crate::utils::utils::unix_nanos;
use vstd::prelude::*;

verus! {

/// What the producer answers to a request for a packet.
#[derive(Debug)]
pub enum PacketGeneratorStatus<'a> {
    /// A packet to send, with the number of its record type.
    Success(&'a [u8], u16),
    /// Nothing before this many nanoseconds have passed.
    Wait(u64),
    /// Nothing any more.
    Stop,
}

/// What the producer answers, the packet taken as a sequence of bytes.
pub enum Outcome {
    Success(Seq<u8>, u16),
    Wait(u64),
    Stop,
}

impl<'a> View for PacketGeneratorStatus<'a> {
    type V = Outcome;

    open spec fn view(&self) -> Outcome {
        match *self {
            PacketGeneratorStatus::Success(data, query_type) => Outcome::Success(
                data@,
                query_type,
            ),
            PacketGeneratorStatus::Wait(nanos) => Outcome::Wait(nanos),
            PacketGeneratorStatus::Stop => Outcome::Stop,
        }
    }
}

/// What a producer holds. `stop_at` and `started` are in nanoseconds since
/// the Unix epoch; `max_counter` and `stop_at` are 0 where there is no such
/// bound. `rate` is the number of queries per second that the limiter was
/// made for, and 0 where there is no limiter. `last` holds, after a packet
/// was handed out, its record type and what the store had counted for that
/// type before.
pub struct ProducerView {
    pub store: StatusView,
    pub max_counter: nat,
    pub counter: nat,
    pub stop_at: nat,
    pub started: nat,
    pub limited: bool,
    pub rate: u32,
    pub cache: CacheView,
    pub last: Option<(u16, Option<nat>)>,
}

/// The producer of the queries of one worker.
pub struct QueryProducer {
    pub store: StatusStore,
    max_counter: u64,
    counter: u64,
    stop_at: u64,
    started: u64,
    rate_limiter: Option<Limiter>,
    cache: Cache,
    last: Option<(u16, Option<u64>)>,
}

/// What was counted before, as natural numbers.
pub open spec fn last_view(last: Option<(u16, Option<u64>)>) -> Option<(u16, Option<nat>)> {
    match last {
        Some((t, previous)) => Some((t, option_nat(previous))),
        None => None,
    }
}

impl View for QueryProducer {
    type V = ProducerView;

    closed spec fn view(&self) -> ProducerView {
        ProducerView {
            store: self.store@,
            max_counter: self.max_counter as nat,
            counter: self.counter as nat,
            stop_at: self.stop_at as nat,
            started: self.started as nat,
            limited: self.rate_limiter is Some,
            rate: match self.rate_limiter {
                Some(limiter) => limiter_rate(limiter),
                None => 0,
            },
            cache: self.cache@,
            last: last_view(self.last),
        }
    }
}

/// Whether the run has sent enough or lasted long enough at the time `now`,
/// in nanoseconds since the epoch.
pub open spec fn should_stop(p: ProducerView, now: nat) -> bool {
    (p.max_counter != 0 && p.counter >= p.max_counter) || (p.stop_at != 0 && now >= p.stop_at)
}

/// The record type of the packet that the producer hands out next.
pub open spec fn next_type(p: ProducerView) -> u16 {
    p.cache.templates[Cache::next_place(p.cache)].1
}

/// What the store has counted for a record type, if anything.
pub open spec fn counted(s: StatusView, query_type: u16) -> Option<nat> {
    if s.query_type.contains_key(query_type) {
        Some(s.query_type[query_type])
    } else {
        None
    }
}

/// The time from `started` to `now`, and none if the clock went back.
pub open spec fn elapsed(now: nat, started: nat) -> nat {
    if now >= started {
        (now - started) as nat
    } else {
        0
    }
}

/// The producer after a request at the time `now`, the limiter having said
/// `decision` and `id` being the transaction id to use where none is
/// fixed.
/// While the limiter says to wait, nothing happens. Once the run has sent
/// enough or lasted long enough, the store gets the number of packets handed
/// out and the time since the start. Else the next packet of the cache is
/// drawn and counted.
pub open spec fn after_retrieve(
    p: ProducerView,
    decision: RateDecision,
    now: nat,
    id: u16,
) -> ProducerView {
    if decision is Wait {
        ProducerView { last: None, ..p }
    } else if should_stop(p, now) {
        ProducerView {
            store: StatusView {
                query_total: p.counter,
                send_duration: Some(elapsed(now, p.started)),
                ..p.store
            },
            last: None,
            ..p
        }
    } else {
        ProducerView {
            store: after_query(p.store, next_type(p)),
            counter: p.counter + 1,
            cache: Cache::after_draw(p.cache, id),
            last: Some((next_type(p), counted(p.store, next_type(p)))),
            ..p
        }
    }
}

/// What the producer answers to a request at the time `now`.
pub open spec fn outcome_of(p: ProducerView, decision: RateDecision, now: nat, id: u16) -> Outcome {
    match decision {
        RateDecision::Wait(nanos) => Outcome::Wait(nanos),
        _ => if should_stop(p, now) {
            Outcome::Stop
        } else {
            let cache = Cache::after_draw(p.cache, id);
            Outcome::Success(
                cache.templates[cache.counter as int].0,
                cache.templates[cache.counter as int].1,
            )
        },
    }
}

/// The producer after the last packet handed out was given back: counter
/// and store are as they were before it was drawn. Where no packet was
/// handed out by the last request, nothing is given back.
pub open spec fn after_return(p: ProducerView) -> ProducerView {
    match p.last {
        Some((query_type, previous)) => ProducerView {
            store: before_query(p.store, query_type, previous),
            counter: (p.counter - 1) as nat,
            last: None,
            ..p
        },
        None => p,
    }
}

/// Whether a producer can count one more packet.
pub open spec fn has_room(p: ProducerView) -> bool {
    &&& p.counter < u64::MAX
    &&& p.store.query_total < u64::MAX
    &&& tally(p.store.query_type, next_type(p)) < u64::MAX
}

/// Whether a producer is in order: its cache can hand out packets, what
/// it has to give back was counted, and it has handed out no more packets
/// than the run asks for.
pub open spec fn producer_well_formed(p: ProducerView) -> bool {
    &&& cache_well_formed(p.cache)
    &&& p.last is Some ==> p.counter > 0
    &&& p.max_counter != 0 ==> p.counter <= p.max_counter
}

/// The time at which a run that starts at `now` and is to last for
/// `until_stop` seconds is to stop, both times in nanoseconds since the
/// epoch: 0 for a run without time limit, and no later than the last time
/// that a machine integer can hold.
pub open spec fn stop_time(now: nat, until_stop: nat) -> nat {
    if until_stop == 0 {
        0
    } else if now + until_stop * 1_000_000_000 > u64::MAX {
        u64::MAX as nat
    } else {
        now + until_stop * 1_000_000_000
    }
}

/// A new producer for settings and templates, started at the time `now`.
pub open spec fn new_producer(
    args: Argument,
    templates: Seq<(Seq<u8>, u16)>,
    now: nat,
) -> ProducerView {
    ProducerView {
        store: empty_status(),
        max_counter: args.max as nat,
        counter: 0,
        stop_at: stop_time(now, args.until_stop as nat),
        started: now,
        limited: args.qps != 0,
        rate: args.qps,
        cache: new_cache(templates, args),
        last: None,
    }
}

/// Giving back a packet right after it was handed out leaves counter and
/// store exactly as they were before the request, whatever the limiter and
/// the clock said; so does giving back after a request that was told to
/// wait. (A request that ends the run writes its totals into the store,
/// and these stay.)
pub proof fn lemma_retrieve_return_back(p: ProducerView, decision: RateDecision, now: nat, id: u16)
    requires
        decision is Wait || !should_stop(p, now),
    ensures
        after_return(after_retrieve(p, decision, now, id)).counter == p.counter,
        after_return(after_retrieve(p, decision, now, id)).store == p.store,
{
    if !(decision is Wait) {
        lemma_query_taken_back(p.store, next_type(p));
    }
}

/// The producer after a series of requests, each with what the limiter said
/// to it, the time, and the transaction id to use.
pub open spec fn after_requests(
    p: ProducerView,
    requests: Seq<(RateDecision, nat, u16)>,
) -> ProducerView
    decreases requests.len(),
{
    if requests.len() == 0 {
        p
    } else {
        let last = requests.last();
        after_retrieve(after_requests(p, requests.drop_last()), last.0, last.1, last.2)
    }
}

/// The number of requests that the limiter did not hold back.
pub open spec fn let_through(requests: Seq<(RateDecision, nat, u16)>) -> nat
    decreases requests.len(),
{
    if requests.len() == 0 {
        0
    } else {
        let_through(requests.drop_last()) + if requests.last().0 is Wait {
            0nat
        } else {
            1nat
        }
    }
}

/// The producer hands out at most one packet for each request that the
/// limiter lets through: over any series of requests, the number of packets
/// handed out grows by no more than the number of requests that were not told
/// to wait.
pub proof fn lemma_one_packet_per_token(
    p: ProducerView,
    requests: Seq<(RateDecision, nat, u16)>,
)
    ensures
        after_requests(p, requests).counter <= p.counter + let_through(requests),
    decreases requests.len(),
{
    if requests.len() > 0 {
        lemma_one_packet_per_token(p, requests.drop_last());
    }
}

impl QueryProducer {
    /// Whether the producer is in order.
    pub open spec fn wf(&self) -> bool {
        producer_well_formed(self@)
    }

    /// A producer for the settings, started at the time `now` in
    /// nanoseconds since the epoch. `content` is what the query file holds,
    /// where the settings name one and it could be read.
    pub fn new_at(argument: &Argument, content: Option<&[u8]>, now: u64) -> (r: Result<
        QueryProducer,
        CacheError,
    >)
        ensures
            match r {
                Ok(p) => p.wf() && templates_for(*argument, content_view(content)) == Ok::<
                    Seq<(Seq<u8>, u16)>,
                    CacheError,
                >(p@.cache.templates) && p@ == new_producer(
                    *argument,
                    p@.cache.templates,
                    now as nat,
                ),
                Err(e) => templates_for(*argument, content_view(content)) == Err::<
                    Seq<(Seq<u8>, u16)>,
                    CacheError,
                >(e),
            },
    {
        let cache = match Cache::new(argument, content) {
            Ok(c) => c,
            Err(e) => {
                return Err(e);
            },
        };
        let stop_at: u64 = if argument.until_stop > 0 {
            let room = (u64::MAX - now) / 1_000_000_000;
            if argument.until_stop > room {
                proof {
                    assert(now + argument.until_stop * 1_000_000_000 > u64::MAX)
                        by (nonlinear_arith)
                        requires
                            room == (u64::MAX - now) / 1_000_000_000,
                            argument.until_stop > room,
                    ;
                }
                u64::MAX
            } else {
                proof {
                    assert(now + argument.until_stop * 1_000_000_000 <= u64::MAX)
                        by (nonlinear_arith)
                        requires
                            room == (u64::MAX - now) / 1_000_000_000,
                            argument.until_stop <= room,
                            now <= u64::MAX,
                    ;
                }
                now + argument.until_stop * 1_000_000_000
            }
        } else {
            0
        };
        let rate_limiter = if argument.qps == 0 {
            None
        } else {
            Some(new_limiter(argument.qps))
        };
        Ok(
            QueryProducer {
                store: StatusStore::new(),
                max_counter: argument.max,
                counter: 0,
                stop_at,
                started: now,
                rate_limiter,
                cache,
                last: None,
            },
        )
    }

    /// A producer for the settings, started now by the system clock.
    pub fn new(argument: &Argument, content: Option<&[u8]>) -> (r: Result<
        QueryProducer,
        CacheError,
    >)
        ensures
            match r {
                Ok(p) => p.wf() && templates_for(*argument, content_view(content)) == Ok::<
                    Seq<(Seq<u8>, u16)>,
                    CacheError,
                >(p@.cache.templates) && exists|now: nat|
                    p@ == #[trigger] new_producer(*argument, p@.cache.templates, now),
                Err(e) => templates_for(*argument, content_view(content)) == Err::<
                    Seq<(Seq<u8>, u16)>,
                    CacheError,
                >(e),
            },
    {
        let now = unix_nanos();
        Self::new_at(argument, content, now)
    }

    /// Writes the time spent sending, in nanoseconds, into the store.
    pub fn set_send_duration(&mut self, duration: u64)
        ensures
            final(self)@ == (ProducerView {
                store: StatusView { send_duration: Some(duration as nat), ..old(self)@.store },
                ..old(self)@
            }),
    {
        self.store.set_send_duration(duration);
    }

    /// A copy of the store as it is now.
    pub fn snapshot(&self) -> (r: StatusStore)
        ensures
            r@ == self@.store,
    {
        self.store.clone()
    }

    /// The store of the producer, which ends with this.
    pub fn into_store(self) -> (r: StatusStore)
        ensures
            r@ == self@.store,
    {
        self.store
    }

    /// Where the transaction id stands in the packets.
    pub fn id_offset(&self) -> (r: usize)
        requires
            self.wf(),
        ensures
            r == self@.cache.offset,
            r <= 2,
    {
        self.cache.offset()
    }

    /// The number of packets handed out and not given back.
    pub fn counter(&self) -> (r: u64)
        ensures
            r == self@.counter,
    {
        self.counter
    }

    /// Whether the producer can count one more packet.
    pub fn can_retrieve(&self) -> (r: bool)
        requires
            self.wf(),
        ensures
            r == has_room(self@),
    {
        self.counter < u64::MAX && self.store.can_update_query(self.cache.next_type())
    }

    /// Answers a request for a packet at the time `now`, in nanoseconds
    /// since the epoch, the limiter having said `decision`; `id` is the
    /// transaction id to use where none is fixed.
    pub fn retrieve_with(&mut self, decision: RateDecision, now: u64, id: u16) -> (r:
        PacketGeneratorStatus<'_>)
        requires
            old(self).wf(),
            has_room(old(self)@),
        ensures
            final(self).wf(),
            final(self)@ == after_retrieve(old(self)@, decision, now as nat, id),
            r@ == outcome_of(old(self)@, decision, now as nat, id),
            r@ matches Outcome::Success(data, query_type) ==> query_type == next_type(old(self)@)
                && same_but_id(
                data,
                old(self)@.cache.templates[Cache::next_place(old(self)@.cache)].0,
                old(self)@.cache.offset,
            ),
    {
        self.last = None;
        match decision {
            RateDecision::Wait(nanos) => {
                return PacketGeneratorStatus::Wait(nanos);
            },
            _ => {},
        }
        if (self.max_counter != 0 && self.counter >= self.max_counter) || (self.stop_at != 0 && now
            >= self.stop_at) {
            self.store.set_query_total(self.counter);
            self.store.set_send_duration(
                if now >= self.started {
                    now - self.started
                } else {
                    0
                },
            );
            return PacketGeneratorStatus::Stop;
        }
        let query_type = self.cache.next_type();
        self.last = Some((query_type, self.store.query_count(query_type)));
        self.store.update_query(query_type);
        self.counter = self.counter + 1;
        let message = self.cache.build_message_with(id);
        PacketGeneratorStatus::Success(message.0, message.1)
    }

    /// Answers a request for a packet: `Wait` while the limiter holds it
    /// back, `Stop` once the run has sent enough or lasted long enough, else
    /// the next packet. Without a limiter the answer is never `Wait`.
    pub fn retrieve(&mut self) -> (r: PacketGeneratorStatus<'_>)
        requires
            old(self).wf(),
            has_room(old(self)@),
        ensures
            final(self).wf(),
            exists|decision: RateDecision, now: nat, id: u16|
                (decision is Disabled <==> !old(self)@.limited) && final(self)@
                    == #[trigger] after_retrieve(old(self)@, decision, now, id) && r@ == outcome_of(
                    old(self)@,
                    decision,
                    now,
                    id,
                ),
            !old(self)@.limited ==> !(r@ is Wait),
            r@ matches Outcome::Success(data, query_type) ==> query_type == next_type(old(self)@)
                && same_but_id(
                data,
                old(self)@.cache.templates[Cache::next_place(old(self)@.cache)].0,
                old(self)@.cache.offset,
            ),
    {
        let decision = self.check_rate();
        let now = unix_nanos();
        let id = random_id();
        self.retrieve_with(decision, now, id)
    }

    /// What the rate limiter says to one more query now: `Disabled` where
    /// there is no limiter, and only there. A limiter that says `Ready` has
    /// given its token away with that.
    pub(crate) fn check_rate(&self) -> (r: RateDecision)
        ensures
            r is Disabled <==> !self@.limited,
    {
        match &self.rate_limiter {
            Some(limiter) => check_limiter(limiter),
            None => RateDecision::Disabled,
        }
    }

    /// Gives back the packet that the last request handed out, where a send
    /// failed and should not count.
    pub fn return_back(&mut self)
        requires
            old(self).wf(),
            old(self)@.last is Some ==> old(self)@.store.query_total > 0,
        ensures
            final(self).wf(),
            final(self)@ == after_return(old(self)@),
    {
        match self.last {
            Some((query_type, previous)) => {
                self.store.revert_query(query_type, previous);
                self.counter = self.counter - 1;
                self.last = None;
            },
            None => {},
        }
    }
}

} // verus!
