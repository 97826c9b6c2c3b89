//! The handler contract and its standard implementation: a predicate
//! (matcher) paired with an action, dispatched first-match by the server,
//! plus the built-in default handler that answers unmatched requests with a
//! 404 page.

use vstd::prelude::*;
use vstd::utf8::encode_utf8;
use crate::request::Request;
use crate::response::{spec_head, spec_status_used, Response};
use crate::util::spec_status_str;
use crate::valuesmap::{spec_key, vm_set};

verus! {

/// Whether `s` begins with `p`.
pub open spec fn spec_starts_with(s: Seq<char>, p: Seq<char>) -> bool {
    s.len() >= p.len() && s.subrange(0, p.len() as int) == p
}

/// Checks whether `s` begins with `p`.
pub fn str_starts_with(s: &str, p: &str) -> (r: bool)
    ensures
        r == spec_starts_with(s@, p@),
{
    let sn = s.unicode_len();
    let pn = p.unicode_len();
    if sn < pn {
        return false;
    }
    let mut j: usize = 0;
    while j < pn
        invariant
            0 <= j <= pn,
            pn <= sn,
            sn == s@.len(),
            pn == p@.len(),
            forall|x: int| 0 <= x < j ==> s@[x] == p@[x],
        decreases pn - j,
    {
        if s.get_char(j) != p.get_char(j) {
            assert(s@.subrange(0, p@.len() as int) != p@) by {
                assert(s@.subrange(0, p@.len() as int)[j as int] != p@[j as int]);
            }
            return false;
        }
        j = j + 1;
    }
    proof {
        assert(s@.subrange(0, p@.len() as int) =~= p@);
    }
    true
}

/// The closed set of request predicates a [`Handler`] can be registered
/// with.
#[derive(Debug)]
pub enum Matcher {
    /// Matches every request.
    Always,
    /// Matches requests whose URI equals the given string.
    UriEquals(String),
    /// Matches requests whose URI starts with the given prefix.
    UriPrefix(String),
    /// Matches requests whose method equals the given string.
    MethodIs(String),
}

impl Matcher {
    /// The predicate this matcher stands for.
    pub open spec fn spec_matches(&self, req: &Request) -> bool {
        match self {
            Matcher::Always => true,
            Matcher::UriEquals(u) => req.uri@ == u@,
            Matcher::UriPrefix(p) => spec_starts_with(req.uri@, p@),
            Matcher::MethodIs(m) => req.method@ == m@,
        }
    }

    /// Evaluates the predicate on a request.
    pub fn matches(&self, req: &Request) -> (r: bool)
        ensures
            r == self.spec_matches(req),
    {
        match self {
            Matcher::Always => true,
            Matcher::UriEquals(u) => req.uri == *u,
            Matcher::UriPrefix(p) => str_starts_with(req.uri.as_str(), p.as_str()),
            Matcher::MethodIs(m) => req.method == *m,
        }
    }
}

/// What a [`Handler`] does once its matcher accepts a request.
#[derive(Debug)]
pub enum Action {
    /// Respond with the given status, `Content-Type` and body, and
    /// finalize the response.
    Respond {
        /// The status code to answer with.
        status: u16,
        /// The `Content-Type` header value to set.
        content_type: String,
        /// The body to send.
        body: Vec<u8>,
    },
    /// Leave the response untouched: the caller that owns the handler list
    /// runs its own code for this request.
    Delegate,
}

/// A combination of matcher and handler action for [`Request`]s. A server
/// dispatches each request to the first registered handler whose matcher
/// accepts it.
pub trait RequestHandler {
    /// The predicate deciding whether this handler takes a request.
    spec fn spec_matches(&self, req: &Request) -> bool;

    /// Returns true if the handling method should be called for the given
    /// request.
    fn matches(&self, req: &Request) -> (r: bool)
        ensures
            r == self.spec_matches(req),
    ;

    /// Is called for the given request if this is the first handler that
    /// matches it. Returns the bytes that must be written to the
    /// connection.
    fn handle(&self, req: &Request, res: &mut Response) -> (out: Vec<u8>)
        requires
            old(res).headers.wf(),
        ensures
            final(res).headers.wf(),
    ;
}

/// The standard [`RequestHandler`]: a matcher paired with an action.
#[derive(Debug)]
pub struct Handler {
    /// Decides whether the handling action runs for a request.
    pub matcher: Matcher,
    /// Runs for the first handler whose matcher accepts the request.
    pub action: Action,
}

impl Handler {
    /// Creates a new handler from a matcher and an action.
    pub fn new(matcher: Matcher, action: Action) -> (r: Handler)
        ensures
            r == (Handler { matcher, action }),
    {
        Handler { matcher, action }
    }
}

impl RequestHandler for Handler {
    open spec fn spec_matches(&self, req: &Request) -> bool {
        self.matcher.spec_matches(req)
    }

    fn matches(&self, req: &Request) -> (r: bool) {
        self.matcher.matches(req)
    }

    /// A `Respond` action sets the status and `Content-Type`, writes its
    /// body and finalizes the response; a `Delegate` action leaves the
    /// response untouched and emits nothing.
    fn handle(&self, req: &Request, res: &mut Response) -> (out: Vec<u8>) {
        match &self.action {
            Action::Respond { status, content_type, body } => {
                res.status_code = *status;
                res.headers.set("Content-Type", content_type.as_str());
                let _ = res.write(body.as_slice());
                match res.end() {
                    Ok(out) => out,
                    Err(_) => Vec::new(),
                }
            },
            Action::Delegate => Vec::new(),
        }
    }
}

/// The body of the built-in 404 answer: `Not found: ` followed by the
/// request URI.
pub open spec fn spec_not_found_body(uri: Seq<char>) -> Seq<u8> {
    encode_utf8("Not found: "@) + encode_utf8(uri)
}

/// Answers a request no registered handler matched: status 404,
/// `Content-Type: text/html`, a body of `Not found: ` followed by the
/// request URI, and finalization. Returns the bytes that must be written to
/// the connection.
pub fn default_handler(req: &Request, res: &mut Response) -> (out: Vec<u8>)
    requires
        old(res).headers.wf(),
        !old(res).closed,
        !old(res).header_sent,
        old(res).body@.len() == 0,
        old(res).status@.len() == 0,
    ensures
        final(res).status_code == 404,
        final(res).closed,
        final(res).header_sent,
        final(res).headers.wf(),
        out@ == spec_head(
            404,
            spec_status_str(404),
            vm_set(
                vm_set(
                    old(res).headers@,
                    spec_key(old(res).headers.spec_case_handling(), "Content-Type"@),
                    "text/html"@,
                ),
                spec_key(old(res).headers.spec_case_handling(), "Content-Length"@),
                crate::text::spec_dec_digits(spec_not_found_body(req.uri@).len()),
            ),
        ) + spec_not_found_body(req.uri@),
{
    res.status_code = 404;
    res.headers.set("Content-Type", "text/html");
    let _ = res.ws("Not found: ");
    let _ = res.ws(req.uri.as_str());
    proof {
        assert(res.body@ =~= spec_not_found_body(req.uri@));
    }
    match res.end() {
        Ok(out) => out,
        Err(_) => Vec::new(),
    }
}

} // verus!
