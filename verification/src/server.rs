//! The server configuration and its dispatch decision: an ordered,
//! append-only handler list, a worker-pool size, a read deadline, a running
//! flag, and first-match routing. Accepting connections, reading sockets and
//! running a worker pool are the caller's business; the routing decision is
//! made here.

use vstd::prelude::*;
use crate::handler::{Action, Handler, Matcher, RequestHandler};
use crate::request::Request;

verus! {

/// Whether `r` is a correct first-match routing decision for `req` over
/// `handlers`: the earliest matching handler's position, or nothing when no
/// handler matches.
pub open spec fn spec_routed<H: RequestHandler>(
    handlers: Seq<H>,
    req: &Request,
    r: Option<usize>,
) -> bool {
    match r {
        Some(i) => {
            &&& 0 <= i < handlers.len()
            &&& handlers[i as int].spec_matches(req)
            &&& forall|j: int| 0 <= j < i ==> !(#[trigger] handlers[j]).spec_matches(req)
        },
        None => forall|j: int|
            0 <= j < handlers.len() ==> !(#[trigger] handlers[j]).spec_matches(req),
    }
}

/// Evaluates the handlers' matchers in registration order and picks the
/// first match, if any.
pub fn route<H: RequestHandler>(handlers: &Vec<H>, req: &Request) -> (r: Option<usize>)
    ensures
        spec_routed(handlers@, req, r),
{
    let mut i: usize = 0;
    while i < handlers.len()
        invariant
            0 <= i <= handlers@.len(),
            forall|j: int| 0 <= j < i ==> !(#[trigger] handlers@[j]).spec_matches(req),
        decreases handlers@.len() - i,
    {
        if handlers[i].matches(req) {
            return Some(i);
        }
        i = i + 1;
    }
    None
}

/// A request is routed to the first registered handler that matches it; in
/// particular, when the first handler matches a request, no later handler is
/// ever picked for it, whatever the later handlers say.
pub proof fn lemma_first_match_wins<H: RequestHandler>(
    handlers: Seq<H>,
    req: &Request,
    r: Option<usize>,
)
    requires
        handlers.len() >= 1,
        handlers[0].spec_matches(req),
        spec_routed(handlers, req, r),
    ensures
        r == Some(0usize),
{
    match r {
        Some(i) => {
            if i > 0 {
                assert(!handlers[0].spec_matches(req));
            }
        },
        None => {
            assert(!handlers[0].spec_matches(req));
        },
    }
}

/// Reads the number of logical CPUs the process may use.
///
/// Relies on `num_cpus::get`, which always returns at least 1.
#[verifier::external_body]
fn cpu_count() -> (r: usize)
    ensures
        r >= 1,
{
    num_cpus::get()
}

/// A simple HTTP server configuration: dispatches incoming requests to the
/// first registered handler whose matcher accepts them, or to the built-in
/// default handler. The accept loop, the sockets and the worker pool live
/// with the caller; the server owns the decisions.
#[derive(Debug)]
pub struct Server {
    /// The number of worker threads to use for handling requests.
    pub num_threads: usize,
    /// Read deadline for incoming connections, in milliseconds; `None`
    /// disables it.
    pub read_timeout_ms: Option<u64>,
    /// Whether the accept loop should keep accepting connections. Checked
    /// once per accepted connection; cleared by [`Server::stop`].
    pub running: bool,
    /// The ordered, append-only handler list. Registration order is the
    /// match priority.
    pub handlers: Vec<Handler>,
}

impl Server {
    /// Creates a new server: as many workers as the host has CPUs, a 30
    /// second read deadline, no handlers yet. Before any handler is added it
    /// answers every request with the default 404 response.
    pub fn new() -> (r: Server)
        ensures
            r.num_threads >= 1,
            r.read_timeout_ms == Some(30000u64),
            r.running,
            r.handlers@.len() == 0,
    {
        Server {
            num_threads: cpu_count(),
            read_timeout_ms: Some(30000),
            running: true,
            handlers: Vec::new(),
        }
    }

    /// Registers a handler built from a matcher and an action. Matchers are
    /// evaluated in registration order, so a matcher that accepts everything
    /// makes every later handler unreachable.
    pub fn handle(&mut self, matcher: Matcher, action: Action)
        ensures
            final(self).handlers@ == old(self).handlers@.push((Handler { matcher, action })),
            final(self).num_threads == old(self).num_threads,
            final(self).read_timeout_ms == old(self).read_timeout_ms,
            final(self).running == old(self).running,
    {
        self.handler(Handler::new(matcher, action));
    }

    /// Appends a [`Handler`] to the handler list.
    pub fn handler(&mut self, handler: Handler)
        ensures
            final(self).handlers@ == old(self).handlers@.push(handler),
            final(self).num_threads == old(self).num_threads,
            final(self).read_timeout_ms == old(self).read_timeout_ms,
            final(self).running == old(self).running,
    {
        self.handlers.push(handler);
    }

    /// Picks the handler for a request: the first registered one whose
    /// matcher accepts it, if any.
    pub fn route(&self, req: &Request) -> (r: Option<usize>)
        ensures
            spec_routed(self.handlers@, req, r),
    {
        route(&self.handlers, req)
    }

    /// Asks the accept loop to stop after the connection it is on.
    pub fn stop(&mut self)
        ensures
            !final(self).running,
            final(self).num_threads == old(self).num_threads,
            final(self).read_timeout_ms == old(self).read_timeout_ms,
            final(self).handlers == old(self).handlers,
    {
        self.running = false;
    }
}

} // verus!
