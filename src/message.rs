//! The parts of a DNS message that the proxy reads or writes.
use vstd::prelude::*;

verus! {

/// The smallest payload size that a response ever advertises.
pub const MIN_PAYLOAD: u16 = 512;

/// The EDNS version that this proxy speaks.
pub const EDNS_VERSION: u8 = 0;

/// The op code of a standard query.
pub const OP_QUERY: u8 = 0;

/// The response code of a successful exchange.
pub const NO_ERROR: u16 = 0;

#[derive(Clone, Copy, Debug, PartialEq, Eq, Structural)]
pub enum MessageType {
    Query,
    Response,
}

/// The fixed header of a DNS message.
#[derive(Clone, Copy, Debug, PartialEq, Eq, Structural)]
pub struct Header {
    pub id: u16,
    pub message_type: MessageType,
    pub op_code: u8,
    pub authoritative: bool,
    pub truncation: bool,
    pub recursion_desired: bool,
    pub recursion_available: bool,
    pub authentic_data: bool,
    pub checking_disabled: bool,
    pub response_code: u16,
}

impl Header {
    /// A header with every field cleared: id 0, a standard query, no flags, no error.
    pub fn new() -> (r: Header)
        ensures
            r == Header::blank(),
    {
        Header {
            id: 0,
            message_type: MessageType::Query,
            op_code: OP_QUERY,
            authoritative: false,
            truncation: false,
            recursion_desired: false,
            recursion_available: false,
            authentic_data: false,
            checking_disabled: false,
            response_code: NO_ERROR,
        }
    }

    pub open spec fn blank() -> Header {
        Header {
            id: 0,
            message_type: MessageType::Query,
            op_code: OP_QUERY,
            authoritative: false,
            truncation: false,
            recursion_desired: false,
            recursion_available: false,
            authentic_data: false,
            checking_disabled: false,
            response_code: NO_ERROR,
        }
    }
}

/// The EDNS options record: the largest payload a party accepts, whether it
/// wants DNSSEC records, and the version of the extension it speaks.
#[derive(Clone, Copy, Debug, PartialEq, Eq, Structural)]
pub struct Edns {
    pub max_payload: u16,
    pub dnssec_ok: bool,
    pub version: u8,
}

/// One entry of the question section.
#[derive(Debug)]
pub struct Query {
    pub name: String,
    pub query_type: u16,
    pub query_class: u16,
}

/// A decoded DNS message; `R` is the record type of its sections.
pub struct Message<R> {
    pub header: Header,
    pub queries: Vec<Query>,
    pub answers: Vec<R>,
    pub name_servers: Vec<R>,
    pub additionals: Vec<R>,
    pub edns: Option<Edns>,
}

/// What is known of an inbound request before it is decoded in full: its
/// header and its EDNS record.
#[derive(Clone, Copy, Debug, PartialEq, Eq, Structural)]
pub struct RequestHead {
    pub header: Header,
    pub edns: Option<Edns>,
}

/// An outgoing response. Its question section is the request's own, which
/// the sink copies from the raw request; authority and additional sections
/// are always empty.
pub struct Response<R> {
    pub header: Header,
    pub answers: Vec<R>,
    pub edns: Option<Edns>,
}

} // verus!
