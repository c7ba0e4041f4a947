//! Building the response that goes back to the client.
use crate::message::{Edns, Header, Message, MessageType, RequestHead, Response, EDNS_VERSION, MIN_PAYLOAD};
use vstd::prelude::*;

verus! {

/// The EDNS record that answers `request_edns`: none without one; else
/// DNSSEC-OK set, the request's payload size raised to at least the minimum,
/// and this proxy's version.
pub open spec fn negotiated(request_edns: Option<Edns>) -> Option<Edns> {
    match request_edns {
        None => None,
        Some(e) => Some(
            Edns {
                max_payload: if e.max_payload >= MIN_PAYLOAD {
                    e.max_payload
                } else {
                    MIN_PAYLOAD
                },
                dnssec_ok: true,
                version: EDNS_VERSION,
            },
        ),
    }
}

/// The header of a forwarded response: the resolved header under the request's id.
pub open spec fn forward_header(request: Header, resolved: Header) -> Header {
    Header { id: request.id, ..resolved }
}

/// The header of an error response: the request's id, op code and response code.
pub open spec fn error_header(request: Header) -> Header {
    Header {
        id: request.id,
        message_type: MessageType::Response,
        op_code: request.op_code,
        response_code: request.response_code,
        ..Header::blank()
    }
}

pub fn negotiate_edns(request_edns: Option<Edns>) -> (r: Option<Edns>)
    ensures
        r == negotiated(request_edns),
{
    match request_edns {
        None => None,
        Some(e) => {
            let max_payload = if e.max_payload >= MIN_PAYLOAD {
                e.max_payload
            } else {
                MIN_PAYLOAD
            };
            Some(Edns { max_payload, dnssec_ok: true, version: EDNS_VERSION })
        },
    }
}

/// The response to `request` carrying the answers of `resolved`; its
/// authority and additional sections are dropped.
pub fn make_forward_response<R>(request: &RequestHead, resolved: Message<R>) -> (r: Response<R>)
    ensures
        r.header == forward_header(request.header, resolved.header),
        r.answers@ == resolved.answers@,
        r.edns == negotiated(request.edns),
{
    let mut header = resolved.header;
    header.id = request.header.id;
    Response { header, answers: resolved.answers, edns: negotiate_edns(request.edns) }
}

/// The error response to `request`: no records and no EDNS record.
pub fn make_err_msg_response<R>(request: &RequestHead) -> (r: Response<R>)
    ensures
        r.header == error_header(request.header),
        r.answers@.len() == 0,
        r.edns.is_none(),
{
    let mut header = Header::new();
    header.message_type = MessageType::Response;
    header.id = request.header.id;
    header.response_code = request.header.response_code;
    header.op_code = request.header.op_code;
    Response { header, answers: Vec::new(), edns: None }
}

/// Whatever the request asked for, a response to it negotiates EDNS only
/// when the request carried a record, and then with DNSSEC-OK set, a payload
/// of at least the minimum and no less than the request's, and version 0.
pub proof fn lemma_edns_negotiation(request_edns: Option<Edns>)
    ensures
        request_edns.is_none() ==> negotiated(request_edns).is_none(),
        request_edns.is_some() ==> {
            let e = request_edns.unwrap();
            let r = negotiated(request_edns).unwrap();
            &&& negotiated(request_edns).is_some()
            &&& r.dnssec_ok
            &&& r.version == 0
            &&& r.max_payload == (if e.max_payload > 512 { e.max_payload } else { 512 })
        },
{
}

} // verus!
