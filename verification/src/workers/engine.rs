//! The decisions of the event loop of one worker. The driver of a
//! transport opens the sockets, waits for readiness, reads and writes; for
//! every event it asks the loop what to do, and tells it how a send went.
//! Each socket is armed for writing until a query has gone out, then for
//! reading until the response is in, and so on in turn.

use crate::runner::cache::{cache_well_formed, content_view, random_id, templates_for, CacheError};
use crate::runner::consumer::{
    after_event, has_room as consumer_has_room, with_report, ConsumerView, ResponseConsumer,
};
use crate::runner::histogram::{empty_histogram, well_formed};
use crate::runner::limiter::RateDecision;
use crate::runner::producer::{
    after_retrieve, after_return, has_room as producer_has_room, new_producer, outcome_of,
    producer_well_formed, Outcome, PacketGeneratorStatus, ProducerView, QueryProducer,
};
use crate::runner::report::{
    code_total, empty_status, lemma_code_total_counted, lemma_code_total_empty,
    status_well_formed, StatusStore, StatusView,
};
use crate::utils::arguments::Argument;
use crate::utils::dns::{decode_header, decode_message, decoded_header, decoded_response};
use crate::utils::utils::unix_nanos;
use crate::workers::tcp::{first_frame, take_frame, SocketStatus};
use crate::workers::{
    EventView, Header, Message, MessageOrHeader, MessageView, HEADER_SIZE,
};
use std::collections::HashMap;
use vstd::prelude::*;
use vstd::std_specs::hash::*;

verus! {

/// The time without a successful send after which a worker ends, in
/// nanoseconds: five seconds.
pub const QUIESCENT_NANOS: u64 = 5_000_000_000;

/// What a socket is armed for.
#[derive(Clone, Copy, Debug, PartialEq, Eq, Structural)]
pub enum Interest {
    /// The socket is to send the next query.
    Write,
    /// The socket awaits the response to the query it sent.
    Read,
    /// The socket is closed.
    Closed,
}

/// What the driver is to do for a socket.
#[derive(Debug)]
pub enum Directive<'a> {
    /// Send these bytes, and tell the loop how it went.
    Send(&'a [u8]),
    /// Arm the socket anew for the given readiness.
    Reregister(Interest),
    /// Nothing.
    Nothing,
}

/// What the driver is to do, the bytes taken as a sequence.
pub enum DirectiveView {
    Send(Seq<u8>),
    Reregister(Interest),
    Nothing,
}

impl<'a> View for Directive<'a> {
    type V = DirectiveView;

    open spec fn view(&self) -> DirectiveView {
        match *self {
            Directive::Send(data) => DirectiveView::Send(data@),
            Directive::Reregister(interest) => DirectiveView::Reregister(interest),
            Directive::Nothing => DirectiveView::Nothing,
        }
    }
}

/// Whether the send time of a query with this transaction id is kept for
/// the measure of its latency: one id in ten is.
pub open spec fn is_sampled(id: u16) -> bool {
    id % 10 == 1
}

/// The transaction id of a packet: the two bytes at `offset`, most
/// significant first.
pub open spec fn packet_id(packet: Seq<u8>, offset: int) -> u16 {
    ((packet[offset] as int) * 256 + packet[offset + 1] as int) as u16
}

/// The number of sockets that await a response.
pub open spec fn count_reading(interests: Seq<Interest>) -> nat
    decreases interests.len(),
{
    if interests.len() == 0 {
        0
    } else {
        count_reading(interests.drop_last()) + if interests.last() == Interest::Read {
            1nat
        } else {
            0nat
        }
    }
}

/// Whether every socket is closed.
pub open spec fn all_closed(interests: Seq<Interest>) -> bool {
    forall|i: int| 0 <= i < interests.len() ==> interests[i] == Interest::Closed
}

/// Arming one socket anew changes the number of sockets that await a
/// response by what the socket adds to it.
pub proof fn lemma_count_reading_update(interests: Seq<Interest>, i: int, to: Interest)
    requires
        0 <= i < interests.len(),
    ensures
        count_reading(interests.update(i, to)) + if interests[i] == Interest::Read {
            1nat
        } else {
            0nat
        } == count_reading(interests) + if to == Interest::Read {
            1nat
        } else {
            0nat
        },
    decreases interests.len(),
{
    let updated = interests.update(i, to);
    if i == interests.len() - 1 {
        assert(updated.drop_last() =~= interests.drop_last());
    } else {
        assert(updated.drop_last() =~= interests.drop_last().update(i, to));
        lemma_count_reading_update(interests.drop_last(), i, to);
    }
}

/// What the loop of a worker holds. Times are in nanoseconds since the
/// Unix epoch. `pending` names the socket that is sending, with the
/// transaction id of what it sends. `time_store` holds the send times of the
/// sampled queries by their transaction id.
pub struct EventLoopView {
    pub producer: ProducerView,
    pub consumer: ConsumerView,
    pub interests: Seq<Interest>,
    pub buffers: Seq<Seq<u8>>,
    pub pending: Option<(usize, u16)>,
    pub time_store: Map<u16, u64>,
    pub send_counter: u64,
    pub receive_counter: u64,
    pub parse_errors: u64,
    pub last_send: u64,
    pub start: u64,
    pub next_status_send: u64,
    pub interval: u64,
    pub max_send: u64,
    pub full_message: bool,
}

/// Whether the state of a loop is in order. It implies that no more
/// responses are counted than queries were sent, that no more queries are
/// sent than the run asks for, and that every response counted under a code
/// or as a parse error was received.
pub open spec fn loop_well_formed(w: EventLoopView) -> bool {
    &&& producer_well_formed(w.producer)
    &&& w.max_send == w.producer.max_counter
    &&& well_formed(w.consumer.histogram)
    &&& status_well_formed(w.consumer.store)
    &&& status_well_formed(w.producer.store)
    &&& w.buffers.len() == w.interests.len()
    &&& w.producer.counter == w.producer.store.query_total
    &&& w.producer.counter <= u64::MAX
    &&& w.send_counter + if w.pending is Some {
        1int
    } else {
        0int
    } == w.producer.counter
    &&& w.receive_counter + count_reading(w.interests) <= w.send_counter
    &&& w.consumer.store.receive_total <= w.receive_counter
    &&& code_total(w.consumer.store.reply_code) + w.parse_errors <= w.receive_counter
    &&& forall|id: u16| w.time_store.contains_key(id) ==> is_sampled(id)
    &&& match w.pending {
        Some((socket, _)) => socket < w.interests.len() && w.interests[socket as int]
            == Interest::Write && w.producer.last is Some,
        None => true,
    }
}

/// In a loop that is in order, the consumer has counted no more responses
/// than the producer has counted queries, and where the run asks for a
/// number of queries, no more have been sent.
pub proof fn lemma_received_at_most_sent(w: EventLoopView)
    requires
        loop_well_formed(w),
    ensures
        w.consumer.store.receive_total <= w.producer.store.query_total,
        w.receive_counter <= w.send_counter,
        w.max_send != 0 ==> w.send_counter <= w.max_send,
{
}

/// A worker that has received as many responses as the run asks for has
/// sent exactly as many queries, and reports both numbers: the producer's
/// store holds that number of queries, and the consumer's store, brought up
/// to date, that number of responses.
pub proof fn lemma_complete_run(w: EventLoopView, until: u64)
    requires
        loop_well_formed(w),
        w.max_send > 0,
        w.receive_counter == w.max_send,
    ensures
        w.send_counter == w.max_send,
        w.pending is None,
        with_totals(w, until).producer.store.query_total == w.max_send,
        with_totals(w, until).consumer.store.receive_total == w.max_send,
{
}

/// Whether a socket can take the next query: it is armed for writing, no
/// send is under way, and the producer can count one more.
pub open spec fn can_write(w: EventLoopView, socket: usize) -> bool {
    &&& socket < w.interests.len()
    &&& w.interests[socket as int] == Interest::Write
    &&& w.pending is None
    &&& producer_has_room(w.producer)
}

/// The loop after a socket became writable at the time `now`, the rate
/// limiter having said `decision` and `id` being the transaction id to use where
/// none is fixed. A socket that can take a query asks the producer for one;
/// a packet that the producer hands out is under way to that socket.
pub open spec fn after_writable(
    w: EventLoopView,
    socket: usize,
    decision: RateDecision,
    now: u64,
    id: u16,
) -> EventLoopView {
    if !can_write(w, socket) {
        w
    } else {
        match outcome_of(w.producer, decision, now as nat, id) {
            Outcome::Success(data, _) => EventLoopView {
                producer: after_retrieve(w.producer, decision, now as nat, id),
                pending: Some((socket, packet_id(data, w.producer.cache.offset as int))),
                ..w
            },
            _ => EventLoopView {
                producer: after_retrieve(w.producer, decision, now as nat, id),
                ..w
            },
        }
    }
}

/// What the driver is to do after a socket became writable: send the
/// packet that the producer hands out, arm the socket for writing again
/// while the rate limiter says to wait, and nothing once the producer has
/// stopped or where the socket cannot take a query.
pub open spec fn directive_after_writable(
    w: EventLoopView,
    socket: usize,
    decision: RateDecision,
    now: u64,
    id: u16,
) -> DirectiveView {
    if !can_write(w, socket) {
        DirectiveView::Nothing
    } else {
        match outcome_of(w.producer, decision, now as nat, id) {
            Outcome::Success(data, _) => DirectiveView::Send(data),
            Outcome::Wait(_) => DirectiveView::Reregister(Interest::Write),
            Outcome::Stop => DirectiveView::Nothing,
        }
    }
}

/// The loop after the driver has told how the send under way went, at the
/// time `now`. A send that went out in full counts: its time is the time of
/// the last send and, for a sampled transaction id, is kept for the measure
/// of the latency; the socket awaits the response. Any other outcome gives
/// the packet back to the producer and keeps no time; the socket stays
/// armed for writing, or is closed where the connection is gone.
pub open spec fn after_sent(w: EventLoopView, outcome: SocketStatus, now: u64) -> EventLoopView {
    match w.pending {
        None => w,
        Some((socket, key)) => if outcome == SocketStatus::Success {
            EventLoopView {
                pending: None,
                send_counter: (w.send_counter + 1) as u64,
                last_send: now,
                time_store: if is_sampled(key) {
                    w.time_store.insert(key, now)
                } else {
                    w.time_store
                },
                interests: w.interests.update(socket as int, Interest::Read),
                ..w
            }
        } else {
            EventLoopView {
                pending: None,
                producer: after_return(w.producer),
                interests: if outcome == SocketStatus::Close {
                    w.interests.update(socket as int, Interest::Closed)
                } else {
                    w.interests
                },
                ..w
            }
        },
    }
}

/// What the driver is to do after a send: arm the socket for reading once
/// the query is out, for writing again after a failure that left the
/// connection up, and nothing else.
pub open spec fn directive_after_sent(w: EventLoopView, outcome: SocketStatus) -> DirectiveView {
    match w.pending {
        None => DirectiveView::Nothing,
        Some(_) => if outcome == SocketStatus::Success {
            DirectiveView::Reregister(Interest::Read)
        } else if outcome == SocketStatus::Close {
            DirectiveView::Nothing
        } else {
            DirectiveView::Reregister(Interest::Write)
        },
    }
}

/// The time that a response with the given transaction id took, at the
/// time `now`: the time since the query was sent, if its send time was kept;
/// else 0, which stands for a time that was not measured.
pub open spec fn latency_of(time_store: Map<u16, u64>, key: u16, now: u64) -> u64 {
    if is_sampled(key) && time_store.contains_key(key) && now >= time_store[key] {
        (now - time_store[key]) as u64
    } else {
        0
    }
}

/// The event that a response is for the consumer: its header, or all of it
/// where whole messages are checked, with the time it took; none for bytes
/// that cannot be read.
pub open spec fn event_of(response: Seq<u8>, full_message: bool, latency: u64) -> Option<
    EventView,
> {
    if full_message {
        match decoded_response(response) {
            Some(m) => Some(EventView::Message(m, latency)),
            None => None,
        }
    } else {
        match decoded_header(response) {
            Some(h) => Some(EventView::Header(h, latency)),
            None => None,
        }
    }
}

/// The loop after a whole response was read from a socket at the time
/// `now`: the response counts as received; where it can be read it is handed
/// to the consumer with the time it took, else it counts as a parse error;
/// the socket is armed for writing again.
pub open spec fn after_response(
    w: EventLoopView,
    socket: usize,
    response: Seq<u8>,
    now: u64,
) -> EventLoopView {
    let latency = if response.len() >= 2 {
        latency_of(w.time_store, packet_id(response, 0), now)
    } else {
        0
    };
    let event = event_of(response, w.full_message, latency);
    EventLoopView {
        receive_counter: (w.receive_counter + 1) as u64,
        parse_errors: if event is None {
            (w.parse_errors + 1) as u64
        } else {
            w.parse_errors
        },
        consumer: match event {
            Some(e) => if consumer_has_room(w.consumer, e) {
                after_event(w.consumer, e, now as nat)
            } else {
                w.consumer
            },
            None => w.consumer,
        },
        interests: w.interests.update(socket as int, Interest::Write),
        ..w
    }
}

/// The loop after bytes were read from a socket at the time `now`, on a
/// transport that frames its messages by their length or on one that does
/// not. Bytes for a socket that awaits no response are dropped. A datagram
/// is a response. On a stream the bytes are added to what was read before,
/// and a response is taken off once it is there in full.
pub open spec fn after_readable(
    w: EventLoopView,
    socket: usize,
    bytes: Seq<u8>,
    now: u64,
) -> EventLoopView {
    if socket >= w.interests.len() || w.interests[socket as int] != Interest::Read {
        w
    } else if w.producer.cache.offset == 2 {
        match first_frame(w.buffers[socket as int] + bytes) {
            None => EventLoopView {
                buffers: w.buffers.update(socket as int, w.buffers[socket as int] + bytes),
                ..w
            },
            Some((response, rest)) => after_response(
                EventLoopView { buffers: w.buffers.update(socket as int, rest), ..w },
                socket,
                response,
                now,
            ),
        }
    } else {
        after_response(w, socket, bytes, now)
    }
}

/// What the driver is to do after a read: arm the socket for writing once
/// a whole response is in, and nothing until then.
pub open spec fn directive_after_readable(
    w: EventLoopView,
    socket: usize,
    bytes: Seq<u8>,
) -> DirectiveView {
    if socket >= w.interests.len() || w.interests[socket as int] != Interest::Read {
        DirectiveView::Nothing
    } else if w.producer.cache.offset == 2 && first_frame(w.buffers[socket as int] + bytes)
        is None {
        DirectiveView::Nothing
    } else {
        DirectiveView::Reregister(Interest::Write)
    }
}

/// The loop after the connection of a socket was lost: the socket is
/// closed, and a packet that was under way to it is given back to the
/// producer.
pub open spec fn after_closed(w: EventLoopView, socket: usize) -> EventLoopView {
    if socket >= w.interests.len() {
        w
    } else if w.pending matches Some((s, _)) && s == socket {
        EventLoopView {
            pending: None,
            producer: after_return(w.producer),
            interests: w.interests.update(socket as int, Interest::Closed),
            ..w
        }
    } else {
        EventLoopView { interests: w.interests.update(socket as int, Interest::Closed), ..w }
    }
}

/// Whether no query has gone out for more than five seconds at the time
/// `now`.
pub open spec fn quiescent(w: EventLoopView, now: u64) -> bool {
    now > w.last_send && now - w.last_send > QUIESCENT_NANOS
}

/// Whether the worker is to end at the time `now`: it has received as many
/// responses as the run asks for, or it has sent nothing for more than five
/// seconds, or it has no socket left.
pub open spec fn is_over(w: EventLoopView, now: u64) -> bool {
    ||| w.max_send > 0 && w.receive_counter == w.max_send
    ||| quiescent(w, now)
    ||| all_closed(w.interests)
}

/// Whether an interval report is due at the time `now`.
pub open spec fn report_due(w: EventLoopView, now: u64) -> bool {
    w.interval != 0 && now >= w.next_status_send
}

/// The time from `from` to `to`, and none if the clock went back.
pub open spec fn span(from: u64, to: u64) -> u64 {
    if to >= from {
        (to - from) as u64
    } else {
        0
    }
}

/// The time `interval` after `now`, or the end of time.
pub open spec fn time_after(now: u64, interval: u64) -> u64 {
    if now + interval > u64::MAX {
        u64::MAX
    } else {
        (now + interval) as u64
    }
}

/// The loop with its stores brought up to date for a report on the time
/// from the start to `until`: the producer's store gets that time, the
/// consumer's store the number of responses received, the number of those
/// that could not be read, and the histogram of the latencies.
pub open spec fn with_totals(w: EventLoopView, until: u64) -> EventLoopView {
    EventLoopView {
        producer: ProducerView {
            store: StatusView {
                send_duration: Some(span(w.start, until) as nat),
                ..w.producer.store
            },
            ..w.producer
        },
        consumer: with_report(
            ConsumerView {
                store: StatusView {
                    receive_total: w.receive_counter as nat,
                    parse_error: w.parse_errors as nat,
                    ..w.consumer.store
                },
                ..w.consumer
            },
        ),
        ..w
    }
}

/// The loop after it was asked for an interval report at the time `now`:
/// where one is due, the stores are brought up to date, and the next is due
/// an interval later.
pub open spec fn after_report(w: EventLoopView, now: u64) -> EventLoopView {
    if report_due(w, now) {
        EventLoopView { next_status_send: time_after(now, w.interval), ..with_totals(w, now) }
    } else {
        w
    }
}

/// The number of nanoseconds in the given number of seconds, or the
/// largest number there is.
pub open spec fn seconds_to_nanos(seconds: u64) -> u64 {
    if seconds * 1_000_000_000 > u64::MAX {
        u64::MAX
    } else {
        (seconds * 1_000_000_000) as u64
    }
}

/// A new loop for the settings of a worker with the given templates and
/// number of sockets, started at the time `now`: every socket is armed for
/// writing.
pub open spec fn new_loop(
    args: Argument,
    templates: Seq<(Seq<u8>, u16)>,
    sockets: usize,
    now: u64,
) -> EventLoopView {
    EventLoopView {
        producer: new_producer(args, templates, now as nat),
        consumer: ConsumerView { store: empty_status(), histogram: empty_histogram() },
        interests: Seq::new(sockets as nat, |i: int| Interest::Write),
        buffers: Seq::new(sockets as nat, |i: int| Seq::<u8>::empty()),
        pending: None,
        time_store: Map::empty(),
        send_counter: 0,
        receive_counter: 0,
        parse_errors: 0,
        last_send: now,
        start: now,
        next_status_send: time_after(now, seconds_to_nanos(args.output_interval)),
        interval: seconds_to_nanos(args.output_interval),
        max_send: args.max,
        full_message: args.check_all_message,
    }
}

/// No socket of a new loop awaits a response.
pub proof fn lemma_count_reading_new(n: nat)
    ensures
        count_reading(Seq::new(n, |i: int| Interest::Write)) == 0,
    decreases n,
{
    if n > 0 {
        assert(Seq::new(n, |i: int| Interest::Write).drop_last() =~= Seq::new(
            (n - 1) as nat,
            |i: int| Interest::Write,
        ));
        lemma_count_reading_new((n - 1) as nat);
    }
}

/// The size of the buffer into which a datagram is received: the twelve
/// bytes of a header where only the header is checked; where whole messages
/// are checked, the payload size of the settings, and no less than a header.
pub open spec fn datagram_size(args: Argument) -> usize {
    if args.check_all_message && args.edns_size > HEADER_SIZE {
        args.edns_size as usize
    } else {
        HEADER_SIZE
    }
}

/// The size of the buffer into which a datagram is received.
pub fn receive_buffer_size(arguments: &Argument) -> (r: usize)
    ensures
        r == datagram_size(*arguments),
{
    if arguments.check_all_message && arguments.edns_size as usize > HEADER_SIZE {
        arguments.edns_size as usize
    } else {
        HEADER_SIZE
    }
}

/// The buffers of the sockets as sequences.
pub open spec fn buffers_view(buffers: Seq<Vec<u8>>) -> Seq<Seq<u8>> {
    buffers.map_values(|b: Vec<u8>| b@)
}

/// The event loop of one worker.
pub struct EventLoop {
    producer: QueryProducer,
    consumer: ResponseConsumer,
    interests: Vec<Interest>,
    buffers: Vec<Vec<u8>>,
    pending: Option<(usize, u16)>,
    time_store: HashMap<u16, u64>,
    send_counter: u64,
    receive_counter: u64,
    parse_errors: u64,
    last_send: u64,
    start: u64,
    next_status_send: u64,
    interval: u64,
    max_send: u64,
    full_message: bool,
}

impl View for EventLoop {
    type V = EventLoopView;

    closed spec fn view(&self) -> EventLoopView {
        EventLoopView {
            producer: self.producer@,
            consumer: self.consumer@,
            interests: self.interests@,
            buffers: buffers_view(self.buffers@),
            pending: self.pending,
            time_store: self.time_store@,
            send_counter: self.send_counter,
            receive_counter: self.receive_counter,
            parse_errors: self.parse_errors,
            last_send: self.last_send,
            start: self.start,
            next_status_send: self.next_status_send,
            interval: self.interval,
            max_send: self.max_send,
            full_message: self.full_message,
        }
    }
}

impl EventLoop {
    /// Whether the loop is in order.
    pub open spec fn wf(&self) -> bool {
        loop_well_formed(self@)
    }

    /// A loop for the settings of a worker with the given number of
    /// sockets, started at the time `now`. `content` is what the query file
    /// holds, where the settings name one and it could be read.
    pub fn new_at(argument: &Argument, content: Option<&[u8]>, sockets: usize, now: u64) -> (r:
        Result<EventLoop, CacheError>)
        ensures
            match r {
                Ok(w) => w.wf() && templates_for(*argument, content_view(content)) == Ok::<
                    Seq<(Seq<u8>, u16)>,
                    CacheError,
                >(w@.producer.cache.templates) && w@ == new_loop(
                    *argument,
                    w@.producer.cache.templates,
                    sockets,
                    now,
                ),
                Err(e) => templates_for(*argument, content_view(content)) == Err::<
                    Seq<(Seq<u8>, u16)>,
                    CacheError,
                >(e),
            },
    {
        let producer = match QueryProducer::new_at(argument, content, now) {
            Ok(p) => p,
            Err(e) => {
                return Err(e);
            },
        };
        let mut interests: Vec<Interest> = Vec::new();
        let mut buffers: Vec<Vec<u8>> = Vec::new();
        let mut i: usize = 0;
        while i < sockets
            invariant
                i <= sockets,
                interests@ == Seq::new(i as nat, |j: int| Interest::Write),
                buffers_view(buffers@) == Seq::new(i as nat, |j: int| Seq::<u8>::empty()),
            decreases sockets - i,
        {
            let ghost before = buffers@;
            let empty: Vec<u8> = Vec::new();
            interests.push(Interest::Write);
            buffers.push(empty);
            proof {
                assert(interests@ =~= Seq::new((i + 1) as nat, |j: int| Interest::Write));
                assert(buffers_view(buffers@) =~= buffers_view(before).push(Seq::<u8>::empty()));
                assert(buffers_view(buffers@) =~= Seq::new(
                    (i + 1) as nat,
                    |j: int| Seq::<u8>::empty(),
                ));
            }
            i = i + 1;
        }
        let interval: u64 = if argument.output_interval > u64::MAX / 1_000_000_000 {
            u64::MAX
        } else {
            argument.output_interval * 1_000_000_000
        };
        let next_status_send: u64 = if now > u64::MAX - interval {
            u64::MAX
        } else {
            now + interval
        };
        proof {
            lemma_count_reading_new(sockets as nat);
            lemma_code_total_empty(0x100);
        }
        Ok(
            EventLoop {
                producer,
                consumer: ResponseConsumer::new(),
                interests,
                buffers,
                pending: None,
                time_store: HashMap::new(),
                send_counter: 0,
                receive_counter: 0,
                parse_errors: 0,
                last_send: now,
                start: now,
                next_status_send,
                interval,
                max_send: argument.max,
                full_message: argument.check_all_message,
            },
        )
    }

    /// A loop for the settings of a worker with the given number of
    /// sockets, started now by the system clock.
    pub fn new(argument: &Argument, content: Option<&[u8]>, sockets: usize) -> (r: Result<
        EventLoop,
        CacheError,
    >)
        ensures
            match r {
                Ok(w) => w.wf() && templates_for(*argument, content_view(content)) == Ok::<
                    Seq<(Seq<u8>, u16)>,
                    CacheError,
                >(w@.producer.cache.templates) && exists|now: u64|
                    w@ == #[trigger] new_loop(
                        *argument,
                        w@.producer.cache.templates,
                        sockets,
                        now,
                    ),
                Err(e) => templates_for(*argument, content_view(content)) == Err::<
                    Seq<(Seq<u8>, u16)>,
                    CacheError,
                >(e),
            },
    {
        let now = unix_nanos();
        Self::new_at(argument, content, sockets, now)
    }

    /// The number of queries that went out.
    pub fn send_counter(&self) -> (r: u64)
        ensures
            r == self@.send_counter,
    {
        self.send_counter
    }

    /// The number of responses that came in.
    pub fn receive_counter(&self) -> (r: u64)
        ensures
            r == self@.receive_counter,
    {
        self.receive_counter
    }

    /// The number of responses that could not be read.
    pub fn parse_errors(&self) -> (r: u64)
        ensures
            r == self@.parse_errors,
    {
        self.parse_errors
    }

    /// What the socket at `socket` is armed for.
    pub fn interest(&self, socket: usize) -> (r: Interest)
        requires
            socket < self@.interests.len(),
        ensures
            r == self@.interests[socket as int],
    {
        self.interests[socket]
    }

    /// Whether the worker is to end at the time `now`. It is to end as soon
    /// as it has sent nothing for more than five seconds.
    pub fn should_exit_at(&self, now: u64) -> (r: bool)
        ensures
            r == is_over(self@, now),
            quiescent(self@, now) ==> r,
    {
        if self.max_send > 0 && self.receive_counter == self.max_send {
            return true;
        }
        if now > self.last_send && now - self.last_send > QUIESCENT_NANOS {
            return true;
        }
        let mut i: usize = 0;
        while i < self.interests.len()
            invariant
                i <= self.interests@.len(),
                forall|j: int| 0 <= j < i ==> self.interests@[j] == Interest::Closed,
                !(self.max_send > 0 && self.receive_counter == self.max_send),
                !quiescent(self@, now),
            decreases self.interests@.len() - i,
        {
            match self.interests[i] {
                Interest::Closed => {},
                _ => {
                    return false;
                },
            }
            i = i + 1;
        }
        true
    }

    /// Whether the worker is to end now, by the system clock.
    pub fn should_exit(&self) -> (r: bool)
        ensures
            exists|now: u64| r == #[trigger] is_over(self@, now),
    {
        let now = unix_nanos();
        self.should_exit_at(now)
    }

    /// Tells what to do for a socket that has become writable at the time
    /// `now`, the rate limiter having said `decision`; `id` is the
    /// transaction id to use where none is fixed.
    pub fn on_writable_with(
        &mut self,
        socket: usize,
        decision: RateDecision,
        now: u64,
        id: u16,
    ) -> (r: Directive<'_>)
        requires
            old(self).wf(),
        ensures
            final(self).wf(),
            final(self)@ == after_writable(old(self)@, socket, decision, now, id),
            r@ == directive_after_writable(old(self)@, socket, decision, now, id),
    {
        if socket >= self.interests.len() {
            return Directive::Nothing;
        }
        match self.interests[socket] {
            Interest::Write => {},
            _ => {
                return Directive::Nothing;
            },
        }
        if self.pending.is_some() || !self.producer.can_retrieve() {
            return Directive::Nothing;
        }
        let offset: usize = self.producer.id_offset();
        match self.producer.retrieve_with(decision, now, id) {
            PacketGeneratorStatus::Success(data, _) => {
                let key: u16 = (data[offset] as u16) * 256 + (data[offset + 1] as u16);
                self.pending = Some((socket, key));
                Directive::Send(data)
            },
            PacketGeneratorStatus::Wait(_) => Directive::Reregister(Interest::Write),
            PacketGeneratorStatus::Stop => Directive::Nothing,
        }
    }

    /// Tells what to do for a socket that has become writable now.
    pub fn on_writable(&mut self, socket: usize) -> (r: Directive<'_>)
        requires
            old(self).wf(),
        ensures
            final(self).wf(),
            exists|decision: RateDecision, now: u64, id: u16|
                (decision is Disabled <==> !old(self)@.producer.limited) && final(self)@
                    == #[trigger] after_writable(old(self)@, socket, decision, now, id) && r@
                    == directive_after_writable(old(self)@, socket, decision, now, id),
    {
        let decision = self.producer.check_rate();
        let now = unix_nanos();
        let id = random_id();
        self.on_writable_with(socket, decision, now, id)
    }

    /// Takes note of how the send under way went, at the time `now`, and
    /// tells what to do for its socket.
    pub fn on_sent_at(&mut self, outcome: SocketStatus, now: u64) -> (r: Directive<'static>)
        requires
            old(self).wf(),
        ensures
            final(self).wf(),
            final(self)@ == after_sent(old(self)@, outcome, now),
            r@ == directive_after_sent(old(self)@, outcome),
    {
        broadcast use group_hash_axioms;

        let (socket, key) = match self.pending {
            None => {
                return Directive::Nothing;
            },
            Some(p) => p,
        };
        let ghost before = self@;
        self.pending = None;
        match outcome {
            SocketStatus::Success => {
                self.send_counter = self.send_counter + 1;
                self.last_send = now;
                if key % 10 == 1 {
                    self.time_store.insert(key, now);
                }
                proof {
                    lemma_count_reading_update(before.interests, socket as int, Interest::Read);
                }
                self.interests.set(socket, Interest::Read);
                Directive::Reregister(Interest::Read)
            },
            SocketStatus::Close => {
                self.producer.return_back();
                proof {
                    lemma_count_reading_update(before.interests, socket as int, Interest::Closed);
                }
                self.interests.set(socket, Interest::Closed);
                Directive::Nothing
            },
            _ => {
                self.producer.return_back();
                Directive::Reregister(Interest::Write)
            },
        }
    }

    /// Takes note of how the send under way went, as of now, and tells what
    /// to do for its socket.
    pub fn on_sent(&mut self, outcome: SocketStatus) -> (r: Directive<'static>)
        requires
            old(self).wf(),
        ensures
            final(self).wf(),
            exists|now: u64| final(self)@ == #[trigger] after_sent(old(self)@, outcome, now),
            r@ == directive_after_sent(old(self)@, outcome),
    {
        let now = unix_nanos();
        self.on_sent_at(outcome, now)
    }

    /// Counts a whole response read from a socket that awaits one.
    fn count_response(&mut self, socket: usize, response: &[u8], now: u64)
        requires
            old(self).wf(),
            socket < old(self)@.interests.len(),
            old(self)@.interests[socket as int] == Interest::Read,
        ensures
            final(self).wf(),
            final(self)@ == after_response(old(self)@, socket, response@, now),
    {
        broadcast use group_hash_axioms;

        let ghost before = self@;
        proof {
            lemma_count_reading_update(before.interests, socket as int, Interest::Write);
            lemma_count_reading_positive(before.interests, socket as int);
        }
        let latency: u64 = if response.len() >= 2 {
            let key: u16 = (response[0] as u16) * 256 + (response[1] as u16);
            if key % 10 == 1 {
                match self.time_store.get(&key) {
                    Some(sent) => if now >= *sent {
                        now - *sent
                    } else {
                        0
                    },
                    None => 0,
                }
            } else {
                0
            }
        } else {
            0
        };
        let event: Option<MessageOrHeader> = if self.full_message {
            match decode_message(response) {
                Some(m) => Some(MessageOrHeader::Message((m, latency))),
                None => None,
            }
        } else {
            match decode_header(response) {
                Some(h) => Some(MessageOrHeader::Header((h, latency))),
                None => None,
            }
        };
        self.receive_counter = self.receive_counter + 1;
        match event {
            Some(e) => {
                proof {
                    assert(event_of(response@, before.full_message, latency) == Some(e@));
                    match e@ {
                        EventView::Message(m, _) => {
                            lemma_code_total_counted(before.consumer.store, m, now as nat);
                        },
                        EventView::Header(h, _) => {
                            lemma_code_total_counted(
                                before.consumer.store,
                                MessageView {
                                    header: h,
                                    queries: Seq::empty(),
                                    answers: Seq::empty(),
                                    name_servers: Seq::empty(),
                                    additionals: Seq::empty(),
                                },
                                now as nat,
                            );
                        },
                        EventView::End => {},
                    }
                }
                if self.consumer.can_receive(&e) {
                    self.consumer.receive_at(&e, now);
                }
            },
            None => {
                self.parse_errors = self.parse_errors + 1;
            },
        }
        self.interests.set(socket, Interest::Write);
    }

    /// Takes the bytes read from a socket at the time `now`, and tells what
    /// to do for the socket.
    pub fn on_readable_at(&mut self, socket: usize, bytes: &[u8], now: u64) -> (r: Directive<
        'static,
    >)
        requires
            old(self).wf(),
        ensures
            final(self).wf(),
            final(self)@ == after_readable(old(self)@, socket, bytes@, now),
            r@ == directive_after_readable(old(self)@, socket, bytes@),
    {
        if socket >= self.interests.len() {
            return Directive::Nothing;
        }
        match self.interests[socket] {
            Interest::Read => {},
            _ => {
                return Directive::Nothing;
            },
        }
        let ghost before = self@;
        if self.producer.id_offset() == 2 {
            let mut stream: Vec<u8> = Vec::new();
            proof {
                assert(buffers_view(self.buffers@)[socket as int] == self.buffers@[socket as int]@);
            }
            std::mem::swap(&mut stream, &mut self.buffers[socket]);
            let mut i: usize = 0;
            while i < bytes.len()
                invariant
                    i <= bytes@.len(),
                    stream@ == before.buffers[socket as int] + bytes@.subrange(0, i as int),
                decreases bytes@.len() - i,
            {
                stream.push(bytes[i]);
                proof {
                    assert(bytes@.subrange(0, i + 1) =~= bytes@.subrange(0, i as int).push(
                        bytes@[i as int],
                    ));
                    assert(stream@ =~= before.buffers[socket as int] + bytes@.subrange(0, i + 1));
                }
                i = i + 1;
            }
            proof {
                assert(bytes@.subrange(0, bytes@.len() as int) =~= bytes@);
            }
            let frame = take_frame(&mut stream);
            let ghost rest = stream@;
            std::mem::swap(&mut stream, &mut self.buffers[socket]);
            proof {
                assert(buffers_view(self.buffers@) =~= before.buffers.update(socket as int, rest));
            }
            match frame {
                None => Directive::Nothing,
                Some(response) => {
                    self.count_response(socket, response.as_slice(), now);
                    Directive::Reregister(Interest::Write)
                },
            }
        } else {
            self.count_response(socket, bytes, now);
            Directive::Reregister(Interest::Write)
        }
    }

    /// Takes the bytes read from a socket now, and tells what to do for the
    /// socket.
    pub fn on_readable(&mut self, socket: usize, bytes: &[u8]) -> (r: Directive<'static>)
        requires
            old(self).wf(),
        ensures
            final(self).wf(),
            exists|now: u64|
                final(self)@ == #[trigger] after_readable(old(self)@, socket, bytes@, now),
            r@ == directive_after_readable(old(self)@, socket, bytes@),
    {
        let now = unix_nanos();
        self.on_readable_at(socket, bytes, now)
    }

    /// Takes note that the connection of a socket is lost.
    pub fn on_closed(&mut self, socket: usize)
        requires
            old(self).wf(),
        ensures
            final(self).wf(),
            final(self)@ == after_closed(old(self)@, socket),
    {
        if socket >= self.interests.len() {
            return ;
        }
        let ghost before = self@;
        proof {
            lemma_count_reading_update(before.interests, socket as int, Interest::Closed);
        }
        match self.pending {
            Some((s, _)) => {
                if s == socket {
                    self.pending = None;
                    self.producer.return_back();
                }
            },
            None => {},
        }
        self.interests.set(socket, Interest::Closed);
    }

    fn bring_up_to_date(&mut self, until: u64)
        requires
            old(self).wf(),
        ensures
            final(self).wf(),
            final(self)@ == with_totals(old(self)@, until),
    {
        let duration: u64 = if until >= self.start {
            until - self.start
        } else {
            0
        };
        self.producer.set_send_duration(duration);
        self.consumer.store.set_receive_total(self.receive_counter);
        self.consumer.store.set_parse_error(self.parse_errors);
        self.consumer.update_report();
    }

    /// Gives the report of an interval at the time `now`, where one is due:
    /// the store of the producer and the store of the consumer as they are
    /// then. The consumer has counted no more responses than the producer
    /// has counted queries; the responses counted by code and the parse
    /// errors are together no more than the responses.
    pub fn interval_report_at(&mut self, now: u64) -> (r: Option<(StatusStore, StatusStore)>)
        requires
            old(self).wf(),
        ensures
            final(self).wf(),
            final(self)@ == after_report(old(self)@, now),
            r is Some <==> report_due(old(self)@, now),
            r matches Some(stores) ==> stores.0@ == final(self)@.producer.store && stores.1@
                == final(self)@.consumer.store && code_total(stores.1@.reply_code)
                + stores.1@.parse_error <= stores.1@.receive_total <= stores.0@.query_total,
    {
        if self.interval == 0 || now < self.next_status_send {
            return None;
        }
        self.bring_up_to_date(now);
        self.next_status_send = if now > u64::MAX - self.interval {
            u64::MAX
        } else {
            now + self.interval
        };
        Some((self.producer.snapshot(), self.consumer.store.clone()))
    }

    /// Gives the report of an interval, where one is due now.
    pub fn interval_report(&mut self) -> (r: Option<(StatusStore, StatusStore)>)
        requires
            old(self).wf(),
        ensures
            final(self).wf(),
            exists|now: u64|
                final(self)@ == #[trigger] after_report(old(self)@, now) && (r is Some
                    <==> report_due(old(self)@, now)),
            r matches Some(stores) ==> stores.0@ == final(self)@.producer.store && stores.1@
                == final(self)@.consumer.store && code_total(stores.1@.reply_code)
                + stores.1@.parse_error <= stores.1@.receive_total <= stores.0@.query_total,
    {
        let now = unix_nanos();
        self.interval_report_at(now)
    }

    /// Ends the worker: gives the store of the producer, with the time from
    /// the start to the last send, and the store of the consumer, with the
    /// number of responses received, the number of those that could not be
    /// read, and the histogram of the latencies. The consumer has counted no
    /// more responses than the producer has counted queries; the responses
    /// counted by code and the parse errors are together no more than the
    /// responses.
    pub fn finish(self) -> (r: (StatusStore, StatusStore))
        requires
            self.wf(),
        ensures
            r.0@ == with_totals(self@, self@.last_send).producer.store,
            r.1@ == with_totals(self@, self@.last_send).consumer.store,
            code_total(r.1@.reply_code) + r.1@.parse_error <= r.1@.receive_total
                <= r.0@.query_total,
            r.0.wf(),
            r.1.wf(),
    {
        let mut this = self;
        let until = this.last_send;
        this.bring_up_to_date(until);
        let EventLoop { producer, consumer, .. } = this;
        (producer.into_store(), consumer.store)
    }
}

/// Where a socket awaits a response, at least one socket does.
pub proof fn lemma_count_reading_positive(interests: Seq<Interest>, i: int)
    requires
        0 <= i < interests.len(),
        interests[i] == Interest::Read,
    ensures
        count_reading(interests) >= 1,
    decreases interests.len(),
{
    if i < interests.len() - 1 {
        lemma_count_reading_positive(interests.drop_last(), i);
    }
}

} // verus!
