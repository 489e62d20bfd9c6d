//! The consumer of responses: it counts them and records their latency.

use crate::runner::histogram::{
    empty_histogram, record, well_formed, Histogram, HistogramView,
};
use crate::runner::report::{
    after_header, after_message, empty_status, status_well_formed, StatusStore, StatusView,
};
use crate::runner::runner::tally;
use crate::utils::utils::unix_nanos;
use crate::workers::{EventView, MessageOrHeader};
use vstd::prelude::*;

verus! {

/// What a consumer holds: its counters and its latencies.
pub struct ConsumerView {
    pub store: StatusView,
    pub histogram: HistogramView,
}

/// The consumer of the responses of one worker.
#[derive(Debug)]
pub struct ResponseConsumer {
    pub store: StatusStore,
    pub histogram: Histogram,
}

impl View for ResponseConsumer {
    type V = ConsumerView;

    open spec fn view(&self) -> ConsumerView {
        ConsumerView { store: self.store@, histogram: self.histogram@ }
    }
}

/// A consumer with the histogram of its latencies put into its store, or
/// with no histogram there while no latency is recorded.
pub open spec fn with_report(c: ConsumerView) -> ConsumerView {
    ConsumerView {
        store: StatusView {
            report: if c.histogram.count == 0 {
                None
            } else {
                Some(c.histogram)
            },
            ..c.store
        },
        ..c
    }
}

/// A consumer after one event at the time `now`: a response is counted
/// and, where its time was measured, recorded; the end of the run puts the
/// histogram into the store.
pub open spec fn after_event(c: ConsumerView, event: EventView, now: nat) -> ConsumerView {
    match event {
        EventView::Message(m, elapse) => ConsumerView {
            store: after_message(c.store, m, now),
            histogram: record(c.histogram, elapse as nat),
        },
        EventView::Header(h, elapse) => ConsumerView {
            store: after_header(c.store, h.response_code, now),
            histogram: record(c.histogram, elapse as nat),
        },
        EventView::End => with_report(c),
    }
}

/// Whether a consumer can take an event: its counters have room for what
/// the event counts.
pub open spec fn has_room(c: ConsumerView, event: EventView) -> bool {
    match event {
        EventView::Message(m, _) => StatusStore::has_room_for(c.store, m) && c.histogram.count
            < u64::MAX,
        EventView::Header(h, _) => c.store.receive_total < u64::MAX && tally(
            c.store.reply_code,
            h.response_code,
        ) < u64::MAX && c.histogram.count < u64::MAX,
        EventView::End => true,
    }
}

impl ResponseConsumer {
    /// Whether the histograms of the consumer are well formed.
    pub open spec fn wf(&self) -> bool {
        well_formed(self.histogram@) && status_well_formed(self.store@)
    }

    /// A consumer that has seen nothing.
    pub fn new() -> (r: ResponseConsumer)
        ensures
            r.wf(),
            r@ == (ConsumerView { store: empty_status(), histogram: empty_histogram() }),
    {
        ResponseConsumer { store: StatusStore::new(), histogram: Histogram::new() }
    }

    /// Whether the consumer can take the event.
    pub fn can_receive(&self, message: &MessageOrHeader) -> (r: bool)
        ensures
            r == has_room(self@, message@),
    {
        match message {
            MessageOrHeader::Message((m, _)) => self.store.can_update_from_message(m)
                && self.histogram.count() < u64::MAX,
            MessageOrHeader::Header((h, _)) => self.store.can_update_response(h)
                && self.histogram.count() < u64::MAX,
            MessageOrHeader::End => true,
        }
    }

    /// Takes one event, at the time `now`.
    pub fn receive_at(&mut self, message: &MessageOrHeader, now: u64)
        requires
            old(self).wf(),
            has_room(old(self)@, message@),
        ensures
            final(self).wf(),
            final(self)@ == after_event(old(self)@, message@, now as nat),
    {
        match message {
            MessageOrHeader::Message((m, elapse)) => {
                self.store.update_response_from_message_at(m, now);
                self.histogram.add(*elapse);
            },
            MessageOrHeader::Header((h, elapse)) => {
                self.store.update_response_from_header_at(h, now);
                self.histogram.add(*elapse);
            },
            MessageOrHeader::End => {
                self.update_report();
            },
        }
    }

    /// Takes one event, as of now by the system clock.
    pub fn receive(&mut self, message: &MessageOrHeader)
        requires
            old(self).wf(),
            has_room(old(self)@, message@),
        ensures
            final(self).wf(),
            exists|now: nat| final(self)@ == #[trigger] after_event(old(self)@, message@, now),
    {
        let now = unix_nanos();
        self.receive_at(message, now);
    }

    /// Puts the histogram of the latencies recorded so far into the store.
    pub fn update_report(&mut self)
        requires
            old(self).wf(),
        ensures
            final(self).wf(),
            final(self)@ == with_report(old(self)@),
    {
        self.store.update_histogram_report(self.histogram.report());
    }
}

} // verus!
