//! DNS over HTTPS: the request that carries a query.

use crate::utils::arguments::DoHMethod;
use base64::Engine;
use vstd::prelude::*;
use vstd::string::StringExecFns;

verus! {

/// The text that the `base64` crate gives to bytes in the URL-safe
/// alphabet without padding.
pub uninterp spec fn base64url_text(data: Seq<u8>) -> Seq<char>;

/// The length of the base64 text of `len` bytes without padding: four
/// characters for every three bytes, and two or three for one or two bytes
/// left over.
pub open spec fn encoded_len(len: nat) -> nat {
    (len / 3) * 4 + if len % 3 == 0 {
        0nat
    } else {
        len % 3 + 1
    }
}

/// `Engine::encode` of the `base64` crate with its `URL_SAFE_NO_PAD`
/// engine: the result is the encoding of the bytes and depends on them
/// alone. Data whose encoding is longer than a machine word can say is left
/// out: the outside function stops on it.
#[verifier::external_body]
pub(crate) fn base64url(data: &[u8]) -> (r: String)
    requires
        encoded_len(data@.len()) <= usize::MAX,
    ensures
        r@ == base64url_text(data@),
{
    base64::engine::general_purpose::URL_SAFE_NO_PAD.encode(data)
}

/// An HTTP request for a DNS query: the address to ask, and the body to
/// send, which is empty for a GET.
#[derive(Debug)]
pub struct DohRequest {
    pub method: DoHMethod,
    pub uri: String,
    pub body: Vec<u8>,
}

/// The media type of a DNS message, for the `accept` and `content-type`
/// headers of a request.
pub fn dns_message_media_type() -> (r: &'static str)
    ensures
        r@ == "application/dns-message"@,
{
    "application/dns-message"
}

/// The address of a GET request for a packet: the address of the server,
/// then `?dns=`, then the packet in base64url.
pub open spec fn get_uri(server: Seq<char>, packet: Seq<u8>) -> Seq<char> {
    server + "?dns="@ + base64url_text(packet)
}

/// Whether the machine can hold the base64 text of data of the given
/// length.
pub fn can_encode(len: usize) -> (r: bool)
    ensures
        r == (encoded_len(len as nat) <= usize::MAX),
{
    let chunks = len / 3;
    let rest: usize = if len % 3 == 0 {
        0
    } else {
        len % 3 + 1
    };
    if chunks > usize::MAX / 4 {
        proof {
            assert(chunks * 4 > usize::MAX) by (nonlinear_arith)
                requires
                    chunks > usize::MAX / 4,
            ;
        }
        false
    } else {
        proof {
            assert(chunks * 4 <= usize::MAX) by (nonlinear_arith)
                requires
                    chunks <= usize::MAX / 4,
            ;
        }
        chunks * 4 <= usize::MAX - rest
    }
}

/// The request that carries a packet to a server: by POST the packet is
/// the body; by GET it is part of the address, in base64url.
pub fn doh_request(method: DoHMethod, server: &str, packet: &[u8]) -> (r: DohRequest)
    requires
        method == DoHMethod::Get ==> encoded_len(packet@.len()) <= usize::MAX,
    ensures
        r.method == method,
        match method {
            DoHMethod::Post => r.uri@ == server@ && r.body@ == packet@,
            DoHMethod::Get => r.uri@ == get_uri(server@, packet@) && r.body@.len() == 0,
        },
{
    match method {
        DoHMethod::Post => {
            let mut body: Vec<u8> = Vec::new();
            let mut i: usize = 0;
            while i < packet.len()
                invariant
                    i <= packet@.len(),
                    body@ == packet@.subrange(0, i as int),
                decreases packet@.len() - i,
            {
                body.push(packet[i]);
                proof {
                    assert(packet@.subrange(0, i + 1) =~= packet@.subrange(0, i as int).push(
                        packet@[i as int],
                    ));
                }
                i = i + 1;
            }
            proof {
                assert(packet@.subrange(0, packet@.len() as int) =~= packet@);
            }
            DohRequest { method, uri: String::from_str(server), body }
        },
        DoHMethod::Get => {
            let encoded = base64url(packet);
            let uri = String::from_str(server).concat("?dns=").concat(encoded.as_str());
            DohRequest { method, uri, body: Vec::new() }
        },
    }
}

} // verus!
