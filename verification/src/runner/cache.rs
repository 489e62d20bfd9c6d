//! The query templates of a worker: wire packets built once, handed out in
//! turn, each time under a fresh transaction id unless a fixed one is set.

use crate::utils::arguments::{Argument, Protocol};
use crate::utils::dns::{encode_query, encoded_query, record_type_from_text, record_type_of};
use crate::utils::text::is_space;
use crate::utils::utils::{fields_of, split_fields};
use crate::workers::HEADER_SIZE;
use vstd::prelude::*;
use vstd::utf8::encode_utf8;

verus! {

/// Why no templates can be built.
#[derive(Clone, Copy, Debug, PartialEq, Eq, Structural)]
pub enum CacheError {
    /// The domain to ask for is no domain name, or cannot be encoded.
    DomainParseError,
    /// The type to ask for is no record type.
    TypeParseError,
    /// The query file cannot be read, or holds no query.
    FileReadError,
}

/// A transaction id drawn by `rand::random`. Nothing is claimed of the id.
#[verifier::external_body]
pub(crate) fn random_id() -> u16 {
    rand::random::<u16>()
}

/// Where the transaction id stands in a packet: after the two bytes of the
/// length on a stream transport, else at the start.
pub open spec fn id_offset(protocol: Protocol) -> nat {
    if protocol == Protocol::TCP || protocol == Protocol::DOT {
        2
    } else {
        0
    }
}

/// The extension record of the queries: present unless switched off, with
/// the DNSSEC flag and the payload size of the settings.
pub open spec fn edns_of(args: Argument) -> Option<(bool, u16)> {
    if args.disable_edns {
        None
    } else {
        Some((args.enable_dnssec, args.edns_size))
    }
}

/// A message as it goes on a stream: its length in two bytes, most
/// significant first, then the message.
pub open spec fn framed(raw: Seq<u8>) -> Seq<u8> {
    seq![(raw.len() / 256) as u8, (raw.len() % 256) as u8] + raw
}

/// A packet under another transaction id: the two bytes at `offset` are
/// those of the id, most significant first.
pub open spec fn with_id(packet: Seq<u8>, offset: nat, id: u16) -> Seq<u8> {
    packet.update(offset as int, (id / 256) as u8).update(offset as int + 1, (id % 256) as u8)
}

/// Whether two packets are the same but for the transaction id.
pub open spec fn same_but_id(a: Seq<u8>, b: Seq<u8>, offset: nat) -> bool {
    &&& a.len() == b.len()
    &&& forall|i: int| 0 <= i < a.len() && i != offset && i != offset + 1 ==> a[i] == b[i]
}

/// The packet of a query for one name and type under the settings, with
/// transaction id 0: the encoded query, framed for a stream transport. There
/// is none where the name is no domain name, and none for a message that
/// lacks a header or is longer than a frame can say.
pub open spec fn packet_of(domain: Seq<u8>, query_type: u16, args: Argument) -> Option<Seq<u8>> {
    match encoded_query(domain, query_type, !args.disable_rd, args.enable_cd, edns_of(args)) {
        None => None,
        Some(raw) => if raw.len() < HEADER_SIZE || raw.len() > 0xffff {
            None
        } else if id_offset(args.protocol) == 2 {
            Some(framed(raw))
        } else {
            Some(raw)
        },
    }
}

/// On a stream transport the packet of a query is its packet on a datagram
/// transport, behind the two bytes that hold its length: the settings being
/// the same but for the transport, there is a packet on the one where there
/// is a packet on the other.
pub proof fn lemma_stream_packet_is_framed(
    domain: Seq<u8>,
    query_type: u16,
    stream: Argument,
    datagram: Argument,
)
    requires
        id_offset(stream.protocol) == 2,
        id_offset(datagram.protocol) == 0,
        stream == (Argument { protocol: stream.protocol, ..datagram }),
    ensures
        match packet_of(domain, query_type, datagram) {
            Some(raw) => packet_of(domain, query_type, stream) == Some(framed(raw)) && raw.len()
                >= HEADER_SIZE && framed(raw).len() == raw.len() + 2,
            None => packet_of(domain, query_type, stream) is None,
        },
{
}

/// The template of a query for one name and type: its packet, under the
/// fixed transaction id if one is set, with the number of the type.
pub open spec fn template_of(domain: Seq<u8>, query_type: u16, args: Argument) -> Option<
    (Seq<u8>, u16),
> {
    match packet_of(domain, query_type, args) {
        None => None,
        Some(packet) => if args.packet_id == 0 {
            Some((packet, query_type))
        } else {
            Some((with_id(packet, id_offset(args.protocol), args.packet_id), query_type))
        },
    }
}

/// The words of a line: the runs of bytes between white space.
pub open spec fn words_of(s: Seq<u8>) -> Seq<Seq<u8>>
    decreases s.len(),
{
    if s.len() == 0 {
        Seq::empty()
    } else {
        let words = words_of(s.drop_last());
        if is_space(s.last()) {
            words
        } else if s.len() >= 2 && !is_space(s[s.len() - 2]) {
            words.update(words.len() - 1, words.last().push(s.last()))
        } else {
            words.push(seq![s.last()])
        }
    }
}

/// The template that a line of a query file asks for: a query for the name
/// in its first word and the type in its second, or type A where there is
/// no second word. A line without words, with an unknown type, or with a
/// name that is no domain name asks for none.
pub open spec fn template_of_line(line: Seq<u8>, args: Argument) -> Option<(Seq<u8>, u16)> {
    let words = words_of(line);
    if words.len() == 0 {
        None
    } else {
        let query_type = if words.len() >= 2 {
            record_type_of(words[1])
        } else {
            record_type_of(seq![0x41u8])
        };
        match query_type {
            None => None,
            Some(t) => template_of(words[0], t, args),
        }
    }
}

/// The templates of the lines of a query file, in the order of the lines.
pub open spec fn templates_of_lines(lines: Seq<Seq<u8>>, args: Argument) -> Seq<(Seq<u8>, u16)>
    decreases lines.len(),
{
    if lines.len() == 0 {
        Seq::empty()
    } else {
        let rest = templates_of_lines(lines.drop_last(), args);
        match template_of_line(lines.last(), args) {
            Some(t) => rest.push(t),
            None => rest,
        }
    }
}

/// The templates of a query file: those of its lines.
pub open spec fn templates_of_file(content: Seq<u8>, args: Argument) -> Seq<(Seq<u8>, u16)> {
    templates_of_lines(fields_of(content, 0x0a), args)
}

/// The one template of settings without a query file: a query for their
/// domain and type, both of which must be readable.
pub open spec fn template_for(args: Argument) -> Result<Seq<(Seq<u8>, u16)>, CacheError> {
    match record_type_of(encode_utf8(args.qty@)) {
        None => Err(CacheError::TypeParseError),
        Some(t) => match template_of(encode_utf8(args.domain@), t, args) {
            None => Err(CacheError::DomainParseError),
            Some(template) => Ok(seq![template]),
        },
    }
}

/// The templates of a worker under the settings: those of the query file
/// where the settings name one, `content` being what the file holds, or
/// `None` where it could not be read; else the one template of the domain
/// and type of the settings. A file that cannot be read or that asks for no
/// query is an error, and so are a type and a domain that cannot be read.
pub open spec fn templates_for(args: Argument, content: Option<Seq<u8>>) -> Result<
    Seq<(Seq<u8>, u16)>,
    CacheError,
> {
    if args.file@.len() == 0 {
        template_for(args)
    } else {
        match content {
            None => Err(CacheError::FileReadError),
            Some(bytes) => if templates_of_file(bytes, args).len() == 0 {
                Err(CacheError::FileReadError)
            } else {
                Ok(templates_of_file(bytes, args))
            },
        }
    }
}

/// What is in a file, if it was read, as a sequence of bytes.
pub open spec fn content_view(content: Option<&[u8]>) -> Option<Seq<u8>> {
    match content {
        Some(bytes) => Some(bytes@),
        None => None,
    }
}

/// A new cache with the given templates under the settings.
pub open spec fn new_cache(templates: Seq<(Seq<u8>, u16)>, args: Argument) -> CacheView {
    CacheView {
        templates,
        counter: 0,
        packet_id: args.packet_id,
        offset: id_offset(args.protocol),
    }
}

/// Templates as a mathematical sequence.
pub open spec fn templates_view(templates: Seq<(Vec<u8>, u16)>) -> Seq<(Seq<u8>, u16)> {
    templates.map_values(|t: (Vec<u8>, u16)| (t.0@, t.1))
}

/// What a cache holds: its templates, the place of the one handed out
/// last, the fixed transaction id (0 for a fresh one at each draw), and the
/// place of the id in a packet.
pub struct CacheView {
    pub templates: Seq<(Seq<u8>, u16)>,
    pub counter: nat,
    pub packet_id: u16,
    pub offset: nat,
}

/// The query templates of a worker.
#[derive(Debug)]
pub struct Cache {
    packet_id_number: u16,
    cache: Vec<(Vec<u8>, u16)>,
    counter: usize,
    offset: usize,
}

impl View for Cache {
    type V = CacheView;

    closed spec fn view(&self) -> CacheView {
        CacheView {
            templates: templates_view(self.cache@),
            counter: self.counter as nat,
            packet_id: self.packet_id_number,
            offset: self.offset as nat,
        }
    }
}

/// Whether a cache can hand out templates: it has one, the counter points
/// at one, and each has room for the transaction id.
pub open spec fn cache_well_formed(c: CacheView) -> bool {
    &&& c.templates.len() > 0
    &&& c.counter < c.templates.len()
    &&& c.offset <= 2
    &&& forall|i: int|
        0 <= i < c.templates.len() ==> (#[trigger] c.templates[i]).0.len() >= c.offset + 2
}

/// Cuts a line into its words.
pub fn split_words(line: &[u8]) -> (r: Vec<Vec<u8>>)
    ensures
        r@.len() == words_of(line@).len(),
        forall|i: int| 0 <= i < r@.len() ==> (#[trigger] r@[i])@ == words_of(line@)[i],
{
    let mut done: Vec<Vec<u8>> = Vec::new();
    let mut current: Vec<u8> = Vec::new();
    let mut in_word = false;
    let mut i: usize = 0;
    while i < line.len()
        invariant
            i <= line@.len(),
            in_word == (i > 0 && !is_space(line@[i - 1])),
            words_of(line@.subrange(0, i as int)).len() == done@.len() + if in_word {
                1int
            } else {
                0int
            },
            forall|j: int|
                0 <= j < done@.len() ==> (#[trigger] done@[j])@ == words_of(
                    line@.subrange(0, i as int),
                )[j],
            in_word ==> current@ == words_of(line@.subrange(0, i as int)).last(),
            !in_word ==> current@.len() == 0,
        decreases line@.len() - i,
    {
        let b = line[i];
        proof {
            assert(line@.subrange(0, i + 1).drop_last() =~= line@.subrange(0, i as int));
            assert(line@.subrange(0, i + 1).last() == b);
            if i > 0 {
                assert(line@.subrange(0, i + 1)[i - 1] == line@[i - 1]);
            }
        }
        let space = b == 0x20 || (0x09 <= b && b <= 0x0d);
        if space {
            if in_word {
                done.push(current);
                current = Vec::new();
            }
            in_word = false;
        } else {
            current.push(b);
            proof {
                if !in_word {
                    assert(current@ =~= seq![b]);
                }
            }
            in_word = true;
        }
        i = i + 1;
    }
    proof {
        assert(line@.subrange(0, line@.len() as int) =~= line@);
    }
    if in_word {
        done.push(current);
    }
    done
}

impl Cache {
    /// Whether the cache can hand out templates.
    pub open spec fn wf(&self) -> bool {
        cache_well_formed(self@)
    }

    /// The packet of a query for one name and type under the settings.
    pub fn build_packet(domain: &[u8], qty: u16, args: &Argument) -> (r: Option<Vec<u8>>)
        ensures
            match r {
                Some(packet) => packet_of(domain@, qty, *args) == Some(packet@),
                None => packet_of(domain@, qty, *args) is None,
            },
            r matches Some(packet) ==> packet@.len() >= id_offset(args.protocol) + HEADER_SIZE,
    {
        let edns = if args.disable_edns {
            None
        } else {
            Some((args.enable_dnssec, args.edns_size))
        };
        match encode_query(domain, qty, !args.disable_rd, args.enable_cd, edns) {
            None => None,
            Some(raw) => {
                let size = raw.len();
                if size < HEADER_SIZE || size > 0xffff {
                    None
                } else if args.protocol.length_prefixed() {
                    let mut raw_with_size: Vec<u8> = Vec::new();
                    raw_with_size.push((size / 256) as u8);
                    raw_with_size.push((size % 256) as u8);
                    let mut i: usize = 0;
                    while i < size
                        invariant
                            i <= size,
                            size == raw@.len(),
                            raw_with_size@ == seq![(size / 256) as u8, (size % 256) as u8]
                                + raw@.subrange(0, i as int),
                        decreases size - i,
                    {
                        raw_with_size.push(raw[i]);
                        proof {
                            assert(raw@.subrange(0, i + 1) =~= raw@.subrange(0, i as int).push(
                                raw@[i as int],
                            ));
                        }
                        i = i + 1;
                    }
                    proof {
                        assert(raw@.subrange(0, size as int) =~= raw@);
                    }
                    Some(raw_with_size)
                } else {
                    Some(raw)
                }
            },
        }
    }

    /// The template of a query for one name and type under the settings.
    fn build_template(domain: &[u8], qty: u16, args: &Argument) -> (r: Option<(Vec<u8>, u16)>)
        ensures
            match r {
                Some(t) => template_of(domain@, qty, *args) == Some((t.0@, t.1)),
                None => template_of(domain@, qty, *args) is None,
            },
            r matches Some(t) ==> t.0@.len() >= id_offset(args.protocol) + HEADER_SIZE,
    {
        match Self::build_packet(domain, qty, args) {
            None => None,
            Some(mut packet) => {
                if args.packet_id != 0 {
                    let offset: usize = if args.protocol.length_prefixed() {
                        2
                    } else {
                        0
                    };
                    packet.set(offset, (args.packet_id / 256) as u8);
                    packet.set(offset + 1, (args.packet_id % 256) as u8);
                }
                Some((packet, qty))
            },
        }
    }

    /// The templates of a query file, one for each line that asks for one.
    pub fn new_from_file(args: &Argument, content: &[u8]) -> (r: Vec<(Vec<u8>, u16)>)
        ensures
            templates_view(r@) == templates_of_file(content@, *args),
            forall|i: int|
                0 <= i < r@.len() ==> (#[trigger] r@[i]).0@.len() >= id_offset(args.protocol)
                    + HEADER_SIZE,
    {
        let lines = split_fields(content, 0x0a);
        let ghost texts = fields_of(content@, 0x0a);
        let mut query_data: Vec<(Vec<u8>, u16)> = Vec::new();
        let mut i: usize = 0;
        while i < lines.len()
            invariant
                i <= lines@.len(),
                lines@.len() == texts.len(),
                forall|j: int| 0 <= j < lines@.len() ==> (#[trigger] lines@[j])@ == texts[j],
                templates_view(query_data@) == templates_of_lines(
                    texts.subrange(0, i as int),
                    *args,
                ),
                forall|j: int|
                    0 <= j < query_data@.len() ==> (#[trigger] query_data@[j]).0@.len()
                        >= id_offset(args.protocol) + HEADER_SIZE,
            decreases lines@.len() - i,
        {
            proof {
                assert(texts.subrange(0, i + 1).drop_last() =~= texts.subrange(0, i as int));
                assert(texts.subrange(0, i + 1).last() == lines@[i as int]@);
            }
            let ghost before = query_data@;
            match Self::template_of_line(lines[i].as_slice(), args) {
                Some(t) => {
                    query_data.push(t);
                    proof {
                        assert(templates_view(query_data@) =~= templates_view(before).push(
                            (t.0@, t.1),
                        ));
                    }
                },
                None => {},
            }
            i = i + 1;
        }
        proof {
            assert(texts.subrange(0, texts.len() as int) =~= texts);
        }
        query_data
    }

    /// The template that a line of a query file asks for.
    fn template_of_line(line: &[u8], args: &Argument) -> (r: Option<(Vec<u8>, u16)>)
        ensures
            match r {
                Some(t) => template_of_line(line@, *args) == Some((t.0@, t.1)),
                None => template_of_line(line@, *args) is None,
            },
            r matches Some(t) ==> t.0@.len() >= id_offset(args.protocol) + HEADER_SIZE,
    {
        let words = split_words(line);
        if words.len() == 0 {
            return None;
        }
        let a: [u8; 1] = [0x41];
        proof {
            assert(a@ =~= seq![0x41u8]);
        }
        let query_type = if words.len() >= 2 {
            record_type_from_text(words[1].as_slice())
        } else {
            record_type_from_text(a.as_slice())
        };
        match query_type {
            None => None,
            Some(t) => Self::build_template(words[0].as_slice(), t, args),
        }
    }

    /// The one template of the settings: a query for their domain and type.
    pub fn new_from_argument(args: &Argument) -> (r: Result<Vec<(Vec<u8>, u16)>, CacheError>)
        ensures
            match r {
                Ok(v) => template_for(*args) == Ok::<Seq<(Seq<u8>, u16)>, CacheError>(
                    templates_view(v@),
                ) && v@.len() == 1 && v@[0].0@.len() >= id_offset(args.protocol) + HEADER_SIZE,
                Err(e) => template_for(*args) == Err::<Seq<(Seq<u8>, u16)>, CacheError>(e),
            },
    {
        let qty = match record_type_from_text(args.qty.as_str().as_bytes()) {
            Some(t) => t,
            None => {
                return Err(CacheError::TypeParseError);
            },
        };
        match Self::build_template(args.domain.as_str().as_bytes(), qty, args) {
            None => Err(CacheError::DomainParseError),
            Some(t) => {
                let mut query_data: Vec<(Vec<u8>, u16)> = Vec::new();
                query_data.push(t);
                proof {
                    assert(templates_view(query_data@) =~= seq![(t.0@, t.1)]);
                }
                Ok(query_data)
            },
        }
    }

    /// The templates of a worker under the settings: those of the query
    /// file where the settings name one, `content` being what the file
    /// holds, or `None` where it could not be read; else the one template of
    /// the domain and type of the settings.
    pub fn new(argument: &Argument, content: Option<&[u8]>) -> (r: Result<Cache, CacheError>)
        ensures
            match r {
                Ok(cache) => cache.wf() && templates_for(*argument, content_view(content)) == Ok::<
                    Seq<(Seq<u8>, u16)>,
                    CacheError,
                >(cache@.templates) && cache@ == new_cache(cache@.templates, *argument),
                Err(e) => templates_for(*argument, content_view(content)) == Err::<
                    Seq<(Seq<u8>, u16)>,
                    CacheError,
                >(e),
            },
    {
        let offset: usize = if argument.protocol.length_prefixed() {
            2
        } else {
            0
        };
        let cache = if argument.file.as_str().is_empty() {
            match Self::new_from_argument(argument) {
                Ok(v) => v,
                Err(e) => {
                    return Err(e);
                },
            }
        } else {
            match content {
                None => {
                    return Err(CacheError::FileReadError);
                },
                Some(bytes) => {
                    let v = Self::new_from_file(argument, bytes);
                    if v.len() == 0 {
                        return Err(CacheError::FileReadError);
                    }
                    v
                },
            }
        };
        Ok(Cache { packet_id_number: argument.packet_id, cache, counter: 0, offset })
    }

    /// Where the transaction id stands in the packets.
    pub fn offset(&self) -> (r: usize)
        requires
            self.wf(),
        ensures
            r == self@.offset,
            r <= 2,
    {
        self.offset
    }

    /// The number of templates.
    pub fn len(&self) -> (r: usize)
        ensures
            r == self@.templates.len(),
    {
        self.cache.len()
    }

    /// The place of the template that the next draw hands out.
    pub open spec fn next_place(c: CacheView) -> int {
        ((c.counter + 1) % c.templates.len()) as int
    }

    /// The record type of the template that the next draw hands out.
    pub fn next_type(&self) -> (r: u16)
        requires
            self.wf(),
        ensures
            r == self@.templates[Self::next_place(self@)].1,
    {
        let size = self.cache.len();
        proof {
            assert(self@.templates.len() == self.cache@.len());
            assert(self.counter < self.cache@.len());
        }
        let next = if self.counter + 1 == size {
            0
        } else {
            self.counter + 1
        };
        proof {
            let c = self@;
            if self.counter + 1 == self.cache@.len() {
                assert((c.counter + 1) % c.templates.len() == 0) by (nonlinear_arith)
                    requires
                        c.counter + 1 == c.templates.len(),
                ;
            } else {
                assert((c.counter + 1) % c.templates.len() == c.counter + 1) by (nonlinear_arith)
                    requires
                        c.counter + 1 < c.templates.len(),
                ;
            }
            assert(c.templates[next as int] == (
                self.cache@[next as int].0@,
                self.cache@[next as int].1,
            ));
        }
        self.cache[next].1
    }

    /// What a cache holds after a draw under the transaction id `id`: the
    /// counter has moved on by one, around the end, and the template it now
    /// points at is stamped with the id unless the cache has a fixed one.
    pub open spec fn after_draw(c: CacheView, id: u16) -> CacheView {
        let next = (c.counter + 1) % c.templates.len();
        CacheView {
            counter: next,
            templates: if c.packet_id == 0 {
                c.templates.update(
                    next as int,
                    (with_id(c.templates[next as int].0, c.offset, id), c.templates[next as int].1),
                )
            } else {
                c.templates
            },
            ..c
        }
    }

    /// Hands out the next template with its record type, under the fresh
    /// transaction id `id` unless the cache has a fixed one.
    pub fn build_message_with(&mut self, id: u16) -> (r: (&[u8], u16))
        requires
            old(self).wf(),
        ensures
            final(self).wf(),
            final(self)@ == Self::after_draw(old(self)@, id),
            (r.0@, r.1) == final(self)@.templates[final(self)@.counter as int],
            same_but_id(
                r.0@,
                old(self)@.templates[final(self)@.counter as int].0,
                old(self)@.offset,
            ),
            r.1 == old(self)@.templates[final(self)@.counter as int].1,
    {
        let ghost before = self@;
        proof {
            assert(before.templates.len() == self.cache@.len());
            assert(self.counter < self.cache@.len());
        }
        let size = self.cache.len();
        let next = if self.counter + 1 == size {
            0
        } else {
            self.counter + 1
        };
        proof {
            assert(next == (before.counter + 1) % before.templates.len()) by {
                if self.counter + 1 == self.cache@.len() {
                    assert((before.counter + 1) % before.templates.len() == 0) by (nonlinear_arith)
                        requires
                            before.counter + 1 == before.templates.len(),
                    ;
                } else {
                    assert((before.counter + 1) % before.templates.len() == before.counter + 1)
                        by (nonlinear_arith)
                        requires
                            before.counter + 1 < before.templates.len(),
                    ;
                }
            }
            assert(before.templates[next as int] == (
                self.cache@[next as int].0@,
                self.cache@[next as int].1,
            ));
        }
        self.counter = next;
        if self.packet_id_number == 0 {
            let offset = self.offset;
            let mut entry = (Vec::new(), 0u16);
            std::mem::swap(&mut entry, &mut self.cache[next]);
            entry.0.set(offset, (id / 256) as u8);
            entry.0.set(offset + 1, (id % 256) as u8);
            std::mem::swap(&mut entry, &mut self.cache[next]);
            proof {
                assert(self@.templates =~= Self::after_draw(before, id).templates);
            }
        }
        proof {
            assert(self@.templates[next as int] == (
                self.cache@[next as int].0@,
                self.cache@[next as int].1,
            ));
            assert forall|i: int| 0 <= i < self@.templates.len() implies (
            #[trigger] self@.templates[i]).0.len() >= self@.offset + 2 by {
                assert(before.templates[i].0.len() >= before.offset + 2);
            }
        }
        let data = &self.cache[next];
        (data.0.as_slice(), data.1)
    }

    /// Hands out the next template with its record type, under a
    /// transaction id drawn at random unless the cache has a fixed one.
    pub fn build_message(&mut self) -> (r: (&[u8], u16))
        requires
            old(self).wf(),
        ensures
            final(self).wf(),
            exists|id: u16| final(self)@ == #[trigger] Self::after_draw(old(self)@, id),
            (r.0@, r.1) == final(self)@.templates[final(self)@.counter as int],
            same_but_id(
                r.0@,
                old(self)@.templates[final(self)@.counter as int].0,
                old(self)@.offset,
            ),
            r.1 == old(self)@.templates[final(self)@.counter as int].1,
    {
        let id = if self.packet_id_number == 0 {
            random_id()
        } else {
            0
        };
        self.build_message_with(id)
    }
}

} // verus!
