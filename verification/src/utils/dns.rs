//! The DNS wire format, as far as the engine needs it. Encoding and
//! decoding are the work of the `trust_dns_client` crate; the functions here
//! hand it plain values and take plain values back.

use crate::workers::{Header, Message, MessageView};
use std::str::FromStr;
use trust_dns_client::op::{Edns, Query, ResponseCode};
use trust_dns_client::rr::{Name, RecordType};
use trust_dns_client::serialize::binary::BinDecodable;
use vstd::prelude::*;

verus! {

/// The mnemonic that `trust_dns_client` prints for a record type.
pub uninterp spec fn record_type_text(code: u16) -> Seq<char>;

/// The text that `trust_dns_client` prints for the response code with the
/// given low four bits.
pub uninterp spec fn response_code_text(low: u8) -> Seq<char>;

/// The record type that `trust_dns_client` reads from a mnemonic given as
/// UTF-8 text, if any.
pub uninterp spec fn parsed_record_type(text: Seq<u8>) -> Option<u16>;

/// The wire form that `trust_dns_client` gives to a query for one name,
/// given as UTF-8 text, and one type, with transaction id 0, the two header
/// flags, and the extension record with its DNSSEC flag and payload size if
/// there is to be one. It is `None` for a name that is no domain name, and
/// for a query that cannot be encoded.
pub uninterp spec fn encoded_query(
    domain: Seq<u8>,
    query_type: u16,
    recursion_desired: bool,
    checking_disabled: bool,
    edns: Option<(bool, u16)>,
) -> Option<Seq<u8>>;

/// What `trust_dns_client` reads from the wire form of a whole message: the
/// header and the record types of the four sections, if the bytes are a
/// message.
pub uninterp spec fn decoded_message(bytes: Seq<u8>) -> Option<
    (Header, Seq<u16>, Seq<u16>, Seq<u16>, Seq<u16>),
>;

/// What is read of a whole response, if the bytes are one.
pub open spec fn decoded_response(bytes: Seq<u8>) -> Option<MessageView> {
    match decoded_message(bytes) {
        Some(parts) => Some(
            MessageView {
                header: parts.0,
                queries: parts.1,
                answers: parts.2,
                name_servers: parts.3,
                additionals: parts.4,
            },
        ),
        None => None,
    }
}

/// Whether `trust_dns_client` reads the UTF-8 text as a domain name.
pub uninterp spec fn is_domain_name_text(text: Seq<u8>) -> bool;

/// Whether the `validator` crate reads the UTF-8 text as an IP address.
pub uninterp spec fn is_ip_address_text(text: Seq<u8>) -> bool;

/// Whether the text holds a lower-case ASCII letter.
pub open spec fn has_lower_case(text: Seq<u8>) -> bool {
    exists|i: int| 0 <= i < text.len() && 0x61 <= #[trigger] text[i] <= 0x7a
}

/// The record type that a mnemonic names. Mnemonics are written in upper
/// case: text with a lower-case letter names none.
pub open spec fn record_type_of(text: Seq<u8>) -> Option<u16> {
    if has_lower_case(text) {
        None
    } else {
        parsed_record_type(text)
    }
}

/// Whether the header's operation code is one that the decoder knows.
pub open spec fn known_op_code(flags: u8) -> bool {
    let code = (flags & 0x78) >> 3;
    code == 0 || code == 2 || code == 4 || code == 5
}

/// What is read of a DNS header: the bytes must hold the twelve bytes of a
/// header with a known operation code. The transaction id is the first two
/// bytes, most significant first; the response code is the low four bits of
/// the fourth byte.
pub open spec fn decoded_header(bytes: Seq<u8>) -> Option<Header> {
    if bytes.len() >= 12 && known_op_code(bytes[2]) {
        Some(
            Header {
                id: ((bytes[0] as u16) << 8) | (bytes[1] as u16),
                response_code: bytes[3] & 0x0f,
            },
        )
    } else {
        None
    }
}

/// The `Display` text of `trust_dns_client::rr::RecordType::from(code)`:
/// the result is that text and depends on the code alone.
#[verifier::external_body]
pub(crate) fn record_type_name(code: u16) -> (r: String)
    ensures
        r@ == record_type_text(code),
{
    RecordType::from(code).to_string()
}

/// The `Display` text of `trust_dns_client::op::ResponseCode::from(0, low)`:
/// the result is that text and depends on the code alone.
#[verifier::external_body]
pub(crate) fn response_code_name(low: u8) -> (r: String)
    ensures
        r@ == response_code_text(low),
{
    ResponseCode::from(0, low).to_string()
}

/// `RecordType::from_str` of `trust_dns_client` on bytes that are read as
/// UTF-8 text, with the number of the type it returns: the result depends
/// on the bytes alone, and is `None` for bytes that are no text. Text with a
/// lower-case letter is left out, since a debug build of the crate stops on
/// it.
#[verifier::external_body]
pub(crate) fn parse_upper_record_type(text: &[u8]) -> (r: Option<u16>)
    requires
        !has_lower_case(text@),
    ensures
        r == parsed_record_type(text@),
{
    match RecordType::from_str(std::str::from_utf8(text).ok()?) {
        Ok(t) => Some(u16::from(t)),
        Err(_) => None,
    }
}

/// `Message::to_vec` of `trust_dns_client` on a new message with one query:
/// the name by `Name::from_str` on the bytes read as UTF-8 text, the type,
/// the two header flags, and an `Edns` record where one is asked for. The
/// result is `None` where the bytes are no text, the name is refused or the
/// message cannot be encoded, and depends on the arguments alone.
#[verifier::external_body]
pub(crate) fn encode_query(
    domain: &[u8],
    query_type: u16,
    recursion_desired: bool,
    checking_disabled: bool,
    edns: Option<(bool, u16)>,
) -> (r: Option<Vec<u8>>)
    ensures
        match r {
            Some(bytes) => encoded_query(
                domain@,
                query_type,
                recursion_desired,
                checking_disabled,
                edns,
            ) == Some(bytes@),
            None => encoded_query(domain@, query_type, recursion_desired, checking_disabled, edns)
                is None,
        },
{
    let name = Name::from_str(std::str::from_utf8(domain).ok()?).ok()?;
    let mut message = trust_dns_client::op::Message::new();
    message.add_query(Query::query(name, RecordType::from(query_type)));
    message.set_recursion_desired(recursion_desired);
    message.set_checking_disabled(checking_disabled);
    if let Some((dnssec_ok, max_payload)) = edns {
        let mut extension = Edns::new();
        extension.set_dnssec_ok(dnssec_ok);
        extension.set_max_payload(max_payload);
        message.set_edns(extension);
    }
    message.to_vec().ok()
}

/// `Header::from_bytes` of `trust_dns_client`, of which the transaction id
/// and the low bits of the response code are kept. The decoder reads twelve
/// bytes and fails on fewer, and on an operation code other than 0, 2, 4
/// and 5; the contract states this in full.
#[verifier::external_body]
pub(crate) fn decode_header(bytes: &[u8]) -> (r: Option<Header>)
    ensures
        r == decoded_header(bytes@),
{
    match trust_dns_client::op::Header::from_bytes(bytes) {
        Ok(h) => Some(Header { id: h.id(), response_code: h.response_code().low() }),
        Err(_) => None,
    }
}

/// `Message::from_vec` of `trust_dns_client`, of which the header and the
/// record types of the sections are kept. The result depends on the bytes
/// alone.
#[verifier::external_body]
pub(crate) fn decode_message(bytes: &[u8]) -> (r: Option<Message>)
    ensures
        match r {
            Some(m) => decoded_message(bytes@) == Some(
                (m.header, m.queries@, m.answers@, m.name_servers@, m.additionals@),
            ),
            None => decoded_message(bytes@) is None,
        },
{
    let m = trust_dns_client::op::Message::from_vec(bytes).ok()?;
    Some(Message {
        header: Header { id: m.id(), response_code: m.response_code().low() },
        queries: m.queries().iter().map(|q| u16::from(q.query_type())).collect(),
        answers: m.answers().iter().map(|r| u16::from(r.record_type())).collect(),
        name_servers: m.name_servers().iter().map(|r| u16::from(r.record_type())).collect(),
        additionals: m.additionals().iter().map(|r| u16::from(r.record_type())).collect(),
    })
}

/// Whether `Name::from_str` of `trust_dns_client` accepts the bytes, read as
/// UTF-8 text: the result depends on the bytes alone, and is `false` for
/// bytes that are no text.
#[verifier::external_body]
pub(crate) fn is_domain_name(text: &[u8]) -> (r: bool)
    ensures
        r == is_domain_name_text(text@),
{
    match std::str::from_utf8(text) {
        Ok(t) => Name::from_str(t).is_ok(),
        Err(_) => false,
    }
}

/// Whether `validate_ip` of the `validator` crate accepts the bytes, read
/// as UTF-8 text, as an IP address: the result depends on the bytes alone,
/// and is `false` for bytes that are no text.
#[verifier::external_body]
pub(crate) fn is_ip_address(text: &[u8]) -> (r: bool)
    ensures
        r == is_ip_address_text(text@),
{
    match std::str::from_utf8(text) {
        Ok(t) => validator::ValidateIp::validate_ip(&t),
        Err(_) => false,
    }
}

/// The record type that a mnemonic names.
pub fn record_type_from_text(text: &[u8]) -> (r: Option<u16>)
    ensures
        r == record_type_of(text@),
{
    let mut i: usize = 0;
    while i < text.len()
        invariant
            i <= text@.len(),
            forall|j: int| 0 <= j < i ==> !(0x61 <= #[trigger] text@[j] <= 0x7a),
        decreases text@.len() - i,
    {
        if 0x61 <= text[i] && text[i] <= 0x7a {
            return None;
        }
        i = i + 1;
    }
    parse_upper_record_type(text)
}

} // verus!
