//! The per-request steps of the proxy: decode, dispatch through the chain,
//! build the response, and send it exactly once.
use crate::handler::{
    lemma_all_fall_through, lemma_first_resolver_stops_chain, next_handler, reached, DnsProxy, Handled,
    Outcome,
};
use crate::message::{Message, RequestHead, Response};
use crate::response::{error_header, forward_header, make_err_msg_response, make_forward_response, negotiated};
use vstd::prelude::*;

verus! {

/// The state of one request while the chain works on it.
pub struct Exchange {
    head: RequestHead,
    current: usize,
}

impl Exchange {
    pub closed spec fn head(&self) -> RequestHead {
        self.head
    }

    /// The handler that the request was last handed to.
    pub closed spec fn current(&self) -> nat {
        self.current as nat
    }
}

/// What the driver of a request does next: hand the decoded query to a
/// handler of the chain, or send the one response the request gets.
pub enum Action<R> {
    Invoke(usize),
    Send(Response<R>),
}

/// `resp` forwards the answers of `resolved` in reply to `head`.
pub open spec fn is_forward_of<R>(resp: Response<R>, head: RequestHead, resolved: Message<R>) -> bool {
    &&& resp.header == forward_header(head.header, resolved.header)
    &&& resp.answers@ == resolved.answers@
    &&& resp.edns == negotiated(head.edns)
}

/// `resp` is the error response to `head`.
pub open spec fn is_error_for<R>(resp: Response<R>, head: RequestHead) -> bool {
    &&& resp.header == error_header(head.header)
    &&& resp.answers@.len() == 0
    &&& resp.edns is None
}

/// `resp` is the reply owed once the last handler tried has returned `outcome`.
pub open spec fn is_reply_to<R>(resp: Response<R>, head: RequestHead, outcome: Outcome<R>) -> bool {
    match outcome {
        Ok(Handled::Resolved(m)) => is_forward_of(resp, head, m),
        _ => is_error_for(resp, head),
    }
}

impl<H> DnsProxy<H> {
    /// Starts on a request whose decoding succeeded when `decoded` holds: the
    /// query goes to the first handler, else the error response is sent at once.
    pub fn begin<R>(&self, head: RequestHead, decoded: bool) -> (r: (Exchange, Action<R>))
        requires
            self.wf(),
        ensures
            r.0.head() == head,
            r.0.current() == 0,
            decoded ==> r.1 is Invoke && r.1->Invoke_0 == 0,
            !decoded ==> r.1 is Send && is_error_for(r.1->Send_0, head),
    {
        let action = if decoded {
            Action::Invoke(0)
        } else {
            Action::Send(make_err_msg_response(&head))
        };
        (Exchange { head, current: 0 }, action)
    }

    /// Takes in what the current handler returned: the next handler is tried
    /// after a fall-through, while there is one; otherwise the one response is
    /// sent, forwarding a resolved answer or reporting the failure.
    pub fn on_handled<R>(&self, ex: Exchange, outcome: Outcome<R>) -> (r: (Exchange, Action<R>))
        requires
            self.wf(),
            ex.current() < self.handlers().len(),
        ensures
            r.0.head() == ex.head(),
            match next_handler(self.handlers().len(), ex.current(), outcome) {
                Some(j) => r.1 is Invoke && r.1->Invoke_0 == j && r.0.current() == j,
                None => r.1 is Send && is_reply_to(r.1->Send_0, ex.head(), outcome),
            },
    {
        let head = ex.head;
        match outcome {
            Ok(Handled::Resolved(m)) => {
                let resp = make_forward_response(&head, m);
                (ex, Action::Send(resp))
            },
            Ok(Handled::Fallthrough) => {
                if ex.current < self.len() - 1 {
                    let next = ex.current + 1;
                    (Exchange { head, current: next }, Action::Invoke(next))
                } else {
                    (ex, Action::Send(make_err_msg_response(&head)))
                }
            },
            Err(_) => (ex, Action::Send(make_err_msg_response(&head))),
        }
    }
}

/// Every response that a request gets, forwarded or reporting an error,
/// carries the request's transaction id.
pub proof fn lemma_id_echoed<R>(resp: Response<R>, head: RequestHead, outcome: Outcome<R>)
    requires
        is_reply_to(resp, head, outcome) || is_error_for(resp, head),
    ensures
        resp.header.id == head.header.id,
{
}

/// When handler `i` of a chain of `len` is the first to resolve, the query
/// reaches handlers `0..=i` only, and the response sent forwards that
/// handler's answer.
pub proof fn lemma_first_resolver_answers<R>(
    len: nat,
    outs: Seq<Outcome<R>>,
    i: nat,
    head: RequestHead,
    resp: Response<R>,
)
    requires
        i < len,
        i < outs.len(),
        forall|j: int| 0 <= j < i ==> #[trigger] outs[j] is Ok && outs[j]->Ok_0 is Fallthrough,
        outs[i as int] is Ok,
        outs[i as int]->Ok_0 is Resolved,
        is_reply_to(resp, head, outs[i as int]),
    ensures
        reached(len, outs, 0) == i + 1,
        next_handler(len, i, outs[i as int]) is None,
        is_forward_of(resp, head, outs[i as int]->Ok_0->Resolved_0),
{
    lemma_first_resolver_stops_chain(len, outs, i);
}

/// When every handler of a chain passes the query on, each is tried once and
/// the request gets the error response.
pub proof fn lemma_exhausted_chain_replies_error<R>(
    len: nat,
    outs: Seq<Outcome<R>>,
    head: RequestHead,
    resp: Response<R>,
)
    requires
        len > 0,
        outs.len() == len,
        forall|j: int| 0 <= j < len ==> #[trigger] outs[j] is Ok && outs[j]->Ok_0 is Fallthrough,
        is_reply_to(resp, head, outs[len - 1]),
    ensures
        reached(len, outs, 0) == len,
        next_handler(len, (len - 1) as nat, outs[len - 1]) is None,
        is_error_for(resp, head),
        resp.header.id == head.header.id,
{
    lemma_all_fall_through(len, outs);
    assert(outs[len - 1] is Ok && outs[len - 1]->Ok_0 is Fallthrough);
}

} // verus!
