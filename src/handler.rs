//! Query handlers and the ordered chain that tries them in turn.
use crate::message::{Message, Query};
use vstd::prelude::*;

verus! {

/// What a handler made of a query: an answer, or a refusal that passes the
/// query on to the next handler.
pub enum Handled<M> {
    Resolved(M),
    Fallthrough,
}

/// Why a request could not be answered.
#[derive(Clone, Copy, Debug, PartialEq, Eq, Structural)]
pub enum ProxyError {
    /// The inbound request could not be decoded.
    Decode,
    /// The query has no question to forward.
    EmptyQuestion,
    /// The upstream server did not answer in time.
    UpstreamTimeout,
    /// Talking to the upstream server failed.
    UpstreamIo,
}

/// Why a proxy could not be set up.
#[derive(Clone, Copy, Debug, PartialEq, Eq, Structural)]
pub enum SetupError {
    /// The handler chain holds no handler.
    EmptyChain,
}

/// The result of one handler on one query.
pub type Outcome<R> = Result<Handled<Message<R>>, ProxyError>;

/// The handler to try after handler `current` of a chain of `len` returned
/// `outcome`: the next one on a fall-through, while there is one; none otherwise.
pub open spec fn next_handler<R>(len: nat, current: nat, outcome: Outcome<R>) -> Option<nat> {
    match outcome {
        Ok(Handled::Fallthrough) => if current + 1 < len {
            Some(current + 1)
        } else {
            None
        },
        _ => None,
    }
}

/// How many handlers, counting from handler `from`, a query reaches when
/// handler `j` returns `outs[j]`.
pub open spec fn reached<R>(len: nat, outs: Seq<Outcome<R>>, from: nat) -> nat
    decreases len - from,
{
    if from >= len || from >= outs.len() {
        0
    } else {
        1 + match next_handler(len, from, outs[from as int]) {
            Some(_) => reached(len, outs, from + 1),
            None => 0,
        }
    }
}

/// The first question of `msg`, which is what a forwarding handler asks upstream.
pub fn first_query<R>(msg: &Message<R>) -> (r: Result<&Query, ProxyError>)
    ensures
        match r {
            Ok(q) => msg.queries@.len() > 0 && *q == msg.queries@[0],
            Err(e) => msg.queries@.len() == 0 && e == ProxyError::EmptyQuestion,
        },
{
    if msg.queries.len() == 0 {
        Err(ProxyError::EmptyQuestion)
    } else {
        Ok(&msg.queries[0])
    }
}

/// An ordered, non-empty chain of handlers, fixed once built.
pub struct DnsProxy<H> {
    handlers: Vec<H>,
}

impl<H> DnsProxy<H> {
    pub closed spec fn handlers(&self) -> Seq<H> {
        self.handlers@
    }

    pub open spec fn wf(&self) -> bool {
        self.handlers().len() > 0
    }

    /// A proxy trying `handlers` in the order given; refused when there is none.
    pub fn new(handlers: Vec<H>) -> (r: Result<Self, SetupError>)
        ensures
            match r {
                Ok(p) => p.wf() && p.handlers() == handlers@,
                Err(e) => handlers@.len() == 0 && e == SetupError::EmptyChain,
            },
    {
        if handlers.len() == 0 {
            Err(SetupError::EmptyChain)
        } else {
            Ok(DnsProxy { handlers })
        }
    }

    /// The number of handlers in the chain.
    pub fn len(&self) -> (r: usize)
        ensures
            r == self.handlers().len(),
    {
        self.handlers.len()
    }

    /// Handler `i` of the chain.
    pub fn handler(&self, i: usize) -> (r: &H)
        requires
            i < self.handlers().len(),
        ensures
            *r == self.handlers()[i as int],
    {
        &self.handlers[i]
    }
}

/// When handler `i` is the first to resolve, a query reaches handlers `0..=i`
/// and none after them.
pub proof fn lemma_first_resolver_stops_chain<R>(len: nat, outs: Seq<Outcome<R>>, i: nat)
    requires
        i < len,
        i < outs.len(),
        forall|j: int| 0 <= j < i ==> #[trigger] outs[j] is Ok && outs[j]->Ok_0 is Fallthrough,
        outs[i as int] is Ok,
        outs[i as int]->Ok_0 is Resolved,
    ensures
        reached(len, outs, 0) == i + 1,
        next_handler(len, i, outs[i as int]) is None,
{
    lemma_reached_from(len, outs, i, 0);
}

proof fn lemma_reached_from<R>(len: nat, outs: Seq<Outcome<R>>, i: nat, from: nat)
    requires
        from <= i,
        i < len,
        i < outs.len(),
        forall|j: int| 0 <= j < i ==> #[trigger] outs[j] is Ok && outs[j]->Ok_0 is Fallthrough,
        outs[i as int] is Ok,
        outs[i as int]->Ok_0 is Resolved,
    ensures
        reached(len, outs, from) == i + 1 - from,
    decreases i - from,
{
    if from < i {
        lemma_reached_from(len, outs, i, from + 1);
    }
}

/// When every handler passes a query on, the query reaches each of them once
/// and the chain then offers no further handler.
pub proof fn lemma_all_fall_through<R>(len: nat, outs: Seq<Outcome<R>>)
    requires
        len > 0,
        outs.len() == len,
        forall|j: int| 0 <= j < len ==> #[trigger] outs[j] is Ok && outs[j]->Ok_0 is Fallthrough,
    ensures
        reached(len, outs, 0) == len,
        next_handler(len, (len - 1) as nat, outs[len - 1]) is None,
{
    lemma_fall_through_from(len, outs, 0);
}

proof fn lemma_fall_through_from<R>(len: nat, outs: Seq<Outcome<R>>, from: nat)
    requires
        from <= len,
        outs.len() == len,
        forall|j: int| 0 <= j < len ==> #[trigger] outs[j] is Ok && outs[j]->Ok_0 is Fallthrough,
    ensures
        reached(len, outs, from) == len - from,
    decreases len - from,
{
    if from < len {
        lemma_fall_through_from(len, outs, from + 1);
    }
}

} // verus!
