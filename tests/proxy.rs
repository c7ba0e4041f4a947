use std::cell::Cell;

use dns_proxy::config::{ServerConfig, TraceConfig};
use dns_proxy::handler::{first_query, DnsProxy, Handled, Outcome, ProxyError, SetupError};
use dns_proxy::message::{Edns, Header, Message, MessageType, Query, RequestHead, Response};
use dns_proxy::proxy::Action;
use dns_proxy::response::{make_err_msg_response, make_forward_response, negotiate_edns};

type Rec = [u8; 4];
type HandlerFn<'a> = Box<dyn Fn(&Message<Rec>) -> Outcome<Rec> + 'a>;

fn request_header(id: u16) -> Header {
    let mut h = Header::new();
    h.id = id;
    h.recursion_desired = true;
    h
}

fn head(id: u16, edns: Option<Edns>) -> RequestHead {
    RequestHead { header: request_header(id), edns }
}

fn query_message(id: u16) -> Message<Rec> {
    Message {
        header: request_header(id),
        queries: vec![Query { name: "example.com.".to_string(), query_type: 1, query_class: 1 }],
        answers: vec![],
        name_servers: vec![],
        additionals: vec![],
        edns: None,
    }
}

fn upstream_answer(id: u16) -> Message<Rec> {
    let mut h = request_header(id);
    h.message_type = MessageType::Response;
    h.recursion_available = true;
    Message {
        header: h,
        queries: vec![Query { name: "example.com.".to_string(), query_type: 1, query_class: 1 }],
        answers: vec![[93, 184, 216, 34]],
        name_servers: vec![[1, 1, 1, 1]],
        additionals: vec![[2, 2, 2, 2]],
        edns: None,
    }
}

/// Drives one request through the proxy, as a listener would.
fn serve(proxy: &DnsProxy<HandlerFn>, head: RequestHead, msg: Option<Message<Rec>>) -> Response<Rec> {
    let (mut ex, mut action) = proxy.begin(head, msg.is_some());
    loop {
        match action {
            Action::Send(resp) => return resp,
            Action::Invoke(i) => {
                let outcome = (proxy.handler(i))(msg.as_ref().unwrap());
                let (e, a) = proxy.on_handled(ex, outcome);
                ex = e;
                action = a;
            }
        }
    }
}

#[test]
fn scenario_a_forwarded_answer() {
    let calls = Cell::new(0);
    let proxy = DnsProxy::new(vec![Box::new(|m: &Message<Rec>| {
        calls.set(calls.get() + 1);
        assert_eq!(first_query(m).unwrap().name, "example.com.");
        Ok(Handled::Resolved(upstream_answer(999)))
    }) as HandlerFn])
    .ok()
    .unwrap();
    let resp = serve(&proxy, head(0x1234, None), Some(query_message(0x1234)));
    assert_eq!(resp.header.id, 0x1234);
    assert_eq!(resp.answers, vec![[93, 184, 216, 34]]);
    assert!(resp.header.recursion_available);
    assert_eq!(resp.header.message_type, MessageType::Response);
    assert_eq!(resp.edns, None);
    assert_eq!(calls.get(), 1);
}

#[test]
fn scenario_b_upstream_timeout() {
    let proxy = DnsProxy::new(vec![Box::new(|_: &Message<Rec>| Err(ProxyError::UpstreamTimeout)) as HandlerFn])
        .ok()
        .unwrap();
    let resp = serve(&proxy, head(77, None), Some(query_message(77)));
    assert_eq!(resp.header.id, 77);
    assert_eq!(resp.header.message_type, MessageType::Response);
    assert!(resp.answers.is_empty());
}

#[test]
fn scenario_c_edns_payload_floor() {
    let proxy = DnsProxy::new(vec![Box::new(|_: &Message<Rec>| Ok(Handled::Resolved(upstream_answer(1)))) as HandlerFn])
        .ok()
        .unwrap();
    let edns = Edns { max_payload: 256, dnssec_ok: false, version: 0 };
    let resp = serve(&proxy, head(5, Some(edns)), Some(query_message(5)));
    let e = resp.edns.unwrap();
    assert_eq!(e.max_payload, 512);
    assert!(e.dnssec_ok);
    assert_eq!(e.version, 0);
}

#[test]
fn scenario_d_fallthrough_then_resolved() {
    let h1 = Cell::new(0);
    let h2 = Cell::new(0);
    let proxy = DnsProxy::new(vec![
        Box::new(|_: &Message<Rec>| {
            h1.set(h1.get() + 1);
            Ok(Handled::Fallthrough)
        }) as HandlerFn,
        Box::new(|_: &Message<Rec>| {
            h2.set(h2.get() + 1);
            Ok(Handled::Resolved(upstream_answer(3)))
        }) as HandlerFn,
    ])
    .ok()
    .unwrap();
    let resp = serve(&proxy, head(9, None), Some(query_message(9)));
    assert_eq!(resp.header.id, 9);
    assert_eq!(resp.answers, vec![[93, 184, 216, 34]]);
    assert_eq!(h1.get(), 1);
    assert_eq!(h2.get(), 1);
}

#[test]
fn first_resolver_stops_the_chain() {
    let counts = [Cell::new(0), Cell::new(0), Cell::new(0)];
    let proxy = DnsProxy::new(vec![
        Box::new(|_: &Message<Rec>| {
            counts[0].set(counts[0].get() + 1);
            Ok(Handled::Fallthrough)
        }) as HandlerFn,
        Box::new(|_: &Message<Rec>| {
            counts[1].set(counts[1].get() + 1);
            Ok(Handled::Resolved(upstream_answer(3)))
        }) as HandlerFn,
        Box::new(|_: &Message<Rec>| {
            counts[2].set(counts[2].get() + 1);
            Ok(Handled::Resolved(upstream_answer(4)))
        }) as HandlerFn,
    ])
    .ok()
    .unwrap();
    serve(&proxy, head(1, None), Some(query_message(1)));
    assert_eq!([counts[0].get(), counts[1].get(), counts[2].get()], [1, 1, 0]);
}

#[test]
fn error_stops_the_chain() {
    let later = Cell::new(0);
    let proxy = DnsProxy::new(vec![
        Box::new(|_: &Message<Rec>| Err(ProxyError::UpstreamIo)) as HandlerFn,
        Box::new(|_: &Message<Rec>| {
            later.set(later.get() + 1);
            Ok(Handled::Resolved(upstream_answer(4)))
        }) as HandlerFn,
    ])
    .ok()
    .unwrap();
    let resp = serve(&proxy, head(2, None), Some(query_message(2)));
    assert!(resp.answers.is_empty());
    assert_eq!(later.get(), 0);
}

#[test]
fn all_fall_through_gives_error_response() {
    let proxy = DnsProxy::new(vec![
        Box::new(|_: &Message<Rec>| Ok(Handled::Fallthrough)) as HandlerFn,
        Box::new(|_: &Message<Rec>| Ok(Handled::Fallthrough)) as HandlerFn,
    ])
    .ok()
    .unwrap();
    let edns = Edns { max_payload: 4096, dnssec_ok: true, version: 0 };
    let resp = serve(&proxy, head(4242, Some(edns)), Some(query_message(4242)));
    assert_eq!(resp.header.id, 4242);
    assert!(resp.answers.is_empty());
    assert_eq!(resp.edns, None);
}

#[test]
fn decode_failure_gives_error_response_without_handlers() {
    let calls = Cell::new(0);
    let proxy = DnsProxy::new(vec![Box::new(|_: &Message<Rec>| {
        calls.set(calls.get() + 1);
        Ok(Handled::Fallthrough)
    }) as HandlerFn])
    .ok()
    .unwrap();
    let resp = serve(&proxy, head(31, None), None);
    assert_eq!(resp.header.id, 31);
    assert_eq!(calls.get(), 0);
}

#[test]
fn empty_chain_is_refused() {
    let r: Result<DnsProxy<HandlerFn>, SetupError> = DnsProxy::new(vec![]);
    assert!(matches!(r, Err(SetupError::EmptyChain)));
}

#[test]
fn empty_question_is_an_error() {
    let mut m = query_message(1);
    m.queries.clear();
    assert!(matches!(first_query(&m), Err(ProxyError::EmptyQuestion)));
    let m = query_message(1);
    let q = first_query(&m).ok().unwrap();
    assert_eq!((q.query_type, q.query_class), (1, 1));
}

#[test]
fn error_response_echoes_request_codes() {
    let mut h = request_header(300);
    h.op_code = 2;
    h.response_code = 3;
    let resp: Response<Rec> = make_err_msg_response(&RequestHead { header: h, edns: None });
    assert_eq!(resp.header.id, 300);
    assert_eq!(resp.header.op_code, 2);
    assert_eq!(resp.header.response_code, 3);
    assert_eq!(resp.header.message_type, MessageType::Response);
    assert!(!resp.header.recursion_desired);
    assert!(resp.answers.is_empty());
}

#[test]
fn forward_response_drops_authority_and_additional() {
    let resp = make_forward_response(&head(8, None), upstream_answer(1));
    assert_eq!(resp.header.id, 8);
    assert_eq!(resp.answers.len(), 1);
}

#[test]
fn edns_negotiation_cases() {
    assert_eq!(negotiate_edns(None), None);
    let big = negotiate_edns(Some(Edns { max_payload: 4096, dnssec_ok: false, version: 3 })).unwrap();
    assert_eq!((big.max_payload, big.dnssec_ok, big.version), (4096, true, 0));
    let exact = negotiate_edns(Some(Edns { max_payload: 512, dnssec_ok: false, version: 0 })).unwrap();
    assert_eq!(exact.max_payload, 512);
    let zero = negotiate_edns(Some(Edns { max_payload: 0, dnssec_ok: true, version: 0 })).unwrap();
    assert_eq!(zero.max_payload, 512);
}

#[test]
fn server_config_defaults() {
    let c = ServerConfig::new(None, None);
    assert_eq!(c.bind_addresses, vec!["0.0.0.0:5353".to_string()]);
    assert!(c.trace.is_none());
    let t = TraceConfig { service_name: "proxy".to_string(), agent_endpoint: "127.0.0.1:6831".to_string() };
    let c = ServerConfig::new(Some(vec!["127.0.0.1:53".to_string()]), Some(t));
    assert_eq!(c.bind_addresses, vec!["127.0.0.1:53".to_string()]);
    assert_eq!(c.trace.unwrap().service_name, "proxy");
}

#[test]
fn every_handler_error_gives_error_response() {
    for err in [ProxyError::Decode, ProxyError::EmptyQuestion, ProxyError::UpstreamTimeout, ProxyError::UpstreamIo] {
        let proxy = DnsProxy::new(vec![Box::new(move |_: &Message<Rec>| Err(err)) as HandlerFn]).ok().unwrap();
        let resp = serve(&proxy, head(600, None), Some(query_message(600)));
        assert_eq!(resp.header.id, 600);
        assert_eq!(resp.header.message_type, MessageType::Response);
        assert!(resp.answers.is_empty());
    }
}

#[test]
fn empty_question_fails_a_forwarding_handler() {
    let proxy = DnsProxy::new(vec![Box::new(|m: &Message<Rec>| {
        first_query(m)?;
        Ok(Handled::Resolved(upstream_answer(1)))
    }) as HandlerFn])
    .ok()
    .unwrap();
    let mut m = query_message(12);
    m.queries.clear();
    let resp = serve(&proxy, head(12, None), Some(m));
    assert_eq!(resp.header.id, 12);
    assert!(resp.answers.is_empty());
}
