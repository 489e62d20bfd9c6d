//! What the transports share: the parts of a response that are counted,
//! and the decisions of the event loop of one worker.

pub mod doh;
pub mod engine;
pub mod tcp;

use vstd::prelude::*;

verus! {

/// The length of a DNS header on the wire.
pub const HEADER_SIZE: usize = 12;

/// What is read of the header of a response: its transaction id and the
/// four bits of its response code.
#[derive(Clone, Copy, Debug, PartialEq, Eq, Structural)]
pub struct Header {
    pub id: u16,
    pub response_code: u8,
}

/// What is read of a whole response: its header, and the record types of
/// its questions, answers, name servers and additional records, in the order
/// of the wire.
#[derive(Debug)]
pub struct Message {
    pub header: Header,
    pub queries: Vec<u16>,
    pub answers: Vec<u16>,
    pub name_servers: Vec<u16>,
    pub additionals: Vec<u16>,
}

/// What is read of a whole response, its lists taken as sequences.
pub struct MessageView {
    pub header: Header,
    pub queries: Seq<u16>,
    pub answers: Seq<u16>,
    pub name_servers: Seq<u16>,
    pub additionals: Seq<u16>,
}

impl View for Message {
    type V = MessageView;

    open spec fn view(&self) -> MessageView {
        MessageView {
            header: self.header,
            queries: self.queries@,
            answers: self.answers@,
            name_servers: self.name_servers@,
            additionals: self.additionals@,
        }
    }
}

/// An event for the response consumer: a response with the time it took in
/// nanoseconds (0 where the time was not measured), or the end of the run.
#[derive(Debug)]
pub enum MessageOrHeader {
    Message((Message, u64)),
    Header((Header, u64)),
    End,
}

/// An event for the response consumer, its lists taken as sequences.
pub enum EventView {
    Message(MessageView, u64),
    Header(Header, u64),
    End,
}

impl View for MessageOrHeader {
    type V = EventView;

    open spec fn view(&self) -> EventView {
        match *self {
            MessageOrHeader::Message((m, latency)) => EventView::Message(m@, latency),
            MessageOrHeader::Header((h, latency)) => EventView::Header(h, latency),
            MessageOrHeader::End => EventView::End,
        }
    }
}

} // verus!
