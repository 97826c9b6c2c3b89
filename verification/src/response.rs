//! The response writer: buffers body bytes, renders the status line and
//! headers exactly once, and finalizes the connection exactly once. The
//! writer itself never touches a socket — each operation returns the bytes
//! that must be sent, and queues the log lines the event calls for.

use vstd::prelude::*;
use vstd::string::{StrSliceExecFns, StringSliceAdditionalSpecFns};
use vstd::utf8::encode_utf8;
use crate::error::Error;
use crate::headers::Headers;
use crate::request::Request;
use crate::text::{spec_dec_digits, u64_to_string};
use crate::util::{lookup_status_str, spec_status_str, CR, LF, SP};
use crate::valuesmap::{spec_key, vm_set};

verus! {

/// The byte of `:`.
pub const COLON: u8 = 58;

/// The reason phrase actually sent: the one that was set, or the registry's
/// phrase for the status code if none was set.
pub open spec fn spec_status_used(code: u16, status: Seq<char>) -> Seq<char> {
    if status.len() == 0 {
        spec_status_str(code)
    } else {
        status
    }
}

/// The status line: `HTTP/1.1 <code> <reason>\r\n`.
pub open spec fn spec_status_line(code: u16, status: Seq<char>) -> Seq<u8> {
    encode_utf8("HTTP/1.1 "@) + encode_utf8(spec_dec_digits(code as nat)) + seq![SP]
        + encode_utf8(status) + seq![CR, LF]
}

/// The rendered `key: value\r\n` lines for the values of one header key,
/// from value position `j` on.
pub open spec fn spec_value_lines(k: Seq<char>, vs: Seq<Seq<char>>, j: int) -> Seq<u8>
    decreases vs.len() - j,
{
    if j < 0 || j >= vs.len() {
        Seq::empty()
    } else {
        encode_utf8(k) + seq![COLON, SP] + encode_utf8(vs[j]) + seq![CR, LF] + spec_value_lines(
            k,
            vs,
            j + 1,
        )
    }
}

/// The rendered header lines of all entries from position `i` on.
pub open spec fn spec_entries_bytes(m: Seq<(Seq<char>, Seq<Seq<char>>)>, i: int) -> Seq<u8>
    decreases m.len() - i,
{
    if i < 0 || i >= m.len() {
        Seq::empty()
    } else {
        spec_value_lines(m[i].0, m[i].1, 0) + spec_entries_bytes(m, i + 1)
    }
}

/// The complete head emission: status line, all header lines, and the blank
/// line separating the head from the body.
pub open spec fn spec_head(code: u16, status: Seq<char>, m: Seq<(Seq<char>, Seq<Seq<char>>)>) -> Seq<
    u8,
> {
    spec_status_line(code, status) + spec_entries_bytes(m, 0) + seq![CR, LF]
}

/// The warning queued when a write hits an already-finalized response.
pub open spec fn spec_closed_write_line(method: Seq<char>, uri: Seq<char>) -> Seq<char> {
    "Write to closed connection ignored for "@ + method + " "@ + uri
}

/// The warning queued when `end` hits an already-finalized response.
pub open spec fn spec_closed_end_line(method: Seq<char>, uri: Seq<char>) -> Seq<char> {
    "Write to closed connection for "@ + method + " "@ + uri
}

/// The error-level access line queued when a head with status >= 400 is
/// emitted.
pub open spec fn spec_error_status_line(
    code: u16,
    status: Seq<char>,
    method: Seq<char>,
    uri: Seq<char>,
) -> Seq<char> {
    "Error "@ + spec_dec_digits(code as nat) + " "@ + status + ", for "@ + method + " "@ + uri
}

/// Outgoing response to an incoming [`Request`].
///
/// The response buffers the body and renders head and body into byte
/// vectors; the caller owns the connection and writes what
/// [`Response::send`], [`Response::end`] and [`Response::finalize`] hand
/// back. Log lines called for by an operation are queued in `pending_log`
/// for the caller's error sink.
#[derive(Debug)]
pub struct Response {
    /// The headers to send to the client. Case handling is disabled by
    /// default for outgoing headers.
    pub headers: Headers,
    /// The status code to send (default 200).
    pub status_code: u16,
    /// The status string to send along the status code; resolved from the
    /// registry at the first head emission if left empty.
    pub status: &'static str,
    /// Body bytes buffered since the last emission.
    pub body: Vec<u8>,
    /// Whether the head was already emitted.
    pub header_sent: bool,
    /// Whether the response was finalized.
    pub closed: bool,
    /// The originating request's method, kept for logging.
    pub request_method: String,
    /// The originating request's URI, kept for logging.
    pub request_uri: String,
    /// Log lines queued for the error sink, oldest first.
    pub pending_log: Vec<String>,
}

impl Response {
    /// Creates a new response for the given request: status 200, no headers,
    /// empty body, not yet emitted and not yet finalized.
    pub fn new_for(req: &Request) -> (r: Response)
        ensures
            r.headers@ == Seq::<(Seq<char>, Seq<Seq<char>>)>::empty(),
            r.headers.wf(),
            !r.headers.spec_case_handling(),
            r.status_code == 200,
            r.status@ == Seq::<char>::empty(),
            r.body@ == Seq::<u8>::empty(),
            !r.header_sent,
            !r.closed,
            r.request_method@ == req.method@,
            r.request_uri@ == req.uri@,
            r.pending_log@.len() == 0,
    {
        let r = Response {
            headers: Headers::new(),
            status_code: 200,
            status: "",
            body: Vec::new(),
            header_sent: false,
            closed: false,
            request_method: req.method.clone(),
            request_uri: req.uri.clone(),
            pending_log: Vec::new(),
        };
        proof {
            assert(r.body@ =~= Seq::<u8>::empty());
            assert(r.status@ =~= Seq::<char>::empty()) by {
                reveal_strlit("");
            }
        }
        r
    }

    /// Write data into the response body. Once the response is finalized,
    /// the write is rejected with an error and a queued warning instead of
    /// being silently dropped, and nothing else changes.
    pub fn write(&mut self, data: &[u8]) -> (r: Result<usize, Error>)
        ensures
            (r is Ok) == !old(self).closed,
            old(self).closed ==> {
                &&& r matches Err(e) && e.code == 500
                &&& final(self).body == old(self).body
                &&& final(self).headers == old(self).headers
                &&& final(self).header_sent == old(self).header_sent
                &&& final(self).closed
                &&& final(self).status_code == old(self).status_code
                &&& final(self).status == old(self).status
                &&& final(self).pending_log.deep_view() == old(self).pending_log.deep_view().push(
                    spec_closed_write_line(old(self).request_method@, old(self).request_uri@),
                )
            },
            !old(self).closed ==> {
                &&& r matches Ok(n) && n == data@.len()
                &&& final(self).body@ == old(self).body@ + data@
                &&& final(self).headers == old(self).headers
                &&& final(self).header_sent == old(self).header_sent
                &&& !final(self).closed
                &&& final(self).status_code == old(self).status_code
                &&& final(self).status == old(self).status
                &&& final(self).pending_log == old(self).pending_log
            },
            final(self).request_method == old(self).request_method,
            final(self).request_uri == old(self).request_uri,
    {
        if self.closed {
            let ghost pl0 = self.pending_log.deep_view();
            let mut line = String::from_str("Write to closed connection ignored for ");
            line.append(self.request_method.as_str());
            line.append(" ");
            line.append(self.request_uri.as_str());
            proof {
                assert(line@ =~= spec_closed_write_line(self.request_method@, self.request_uri@));
            }
            self.pending_log.push(line);
            proof {
                assert(final(self).pending_log.deep_view() =~~= pl0.push(
                    spec_closed_write_line(
                        final(self).request_method@,
                        final(self).request_uri@,
                    ),
                ));
            }
            return Err(Error::new(500, "Connection closed"));
        }
        self.body.extend_from_slice(data);
        Ok(data.len())
    }

    /// Write string-like data into the response body.
    pub fn ws(&mut self, data: &str) -> (r: Result<usize, Error>)
        ensures
            (r is Ok) == !old(self).closed,
            !old(self).closed ==> final(self).body@ == old(self).body@ + data.spec_bytes()
                && final(self).pending_log == old(self).pending_log,
            old(self).closed ==> {
                &&& final(self).body == old(self).body
                &&& final(self).pending_log.deep_view() == old(self).pending_log.deep_view().push(
                    spec_closed_write_line(old(self).request_method@, old(self).request_uri@),
                )
            },
            final(self).headers == old(self).headers,
            final(self).header_sent == old(self).header_sent,
            final(self).closed == old(self).closed,
            final(self).status_code == old(self).status_code,
            final(self).status == old(self).status,
            final(self).request_method == old(self).request_method,
            final(self).request_uri == old(self).request_uri,
    {
        self.write(data.as_bytes())
    }

    /// Clears the body bytes buffered since the last emission.
    pub fn clear(&mut self)
        ensures
            final(self).body@ == Seq::<u8>::empty(),
            final(self).headers == old(self).headers,
            final(self).header_sent == old(self).header_sent,
            final(self).closed == old(self).closed,
            final(self).status_code == old(self).status_code,
            final(self).status == old(self).status,
            final(self).request_method == old(self).request_method,
            final(self).request_uri == old(self).request_uri,
            final(self).pending_log == old(self).pending_log,
    {
        self.body.clear();
        proof {
            assert(final(self).body@ =~= Seq::<u8>::empty());
        }
    }

    /// Resolves the reason phrase from the registry if none was set.
    fn resolve_status(&mut self)
        ensures
            final(self).status@ == spec_status_used(old(self).status_code, old(self).status@),
            final(self).status_code == old(self).status_code,
            final(self).headers == old(self).headers,
            final(self).body == old(self).body,
            final(self).header_sent == old(self).header_sent,
            final(self).closed == old(self).closed,
            final(self).request_method == old(self).request_method,
            final(self).request_uri == old(self).request_uri,
            final(self).pending_log == old(self).pending_log,
    {
        if self.status.unicode_len() == 0 {
            self.status = lookup_status_str(self.status_code);
        }
    }

    /// Renders the status line, the header lines and the blank line.
    fn head_bytes(&self) -> (out: Vec<u8>)
        requires
            self.headers.wf(),
        ensures
            out@ == spec_head(self.status_code, self.status@, self.headers@),
    {
        let mut out: Vec<u8> = Vec::new();
        let prefix = "HTTP/1.1 ";
        out.extend_from_slice(prefix.as_bytes());
        let code_str = u64_to_string(self.status_code as u64);
        out.extend_from_slice(code_str.as_str().as_bytes());
        out.push(SP);
        out.extend_from_slice(self.status.as_bytes());
        out.push(CR);
        out.push(LF);
        proof {
            assert(out@ =~= spec_status_line(self.status_code, self.status@));
        }
        let hs = self.headers.all();
        let ghost m = self.headers@;
        let ghost sl = spec_status_line(self.status_code, self.status@);
        let mut i: usize = 0;
        proof {
            assert(out@ + spec_entries_bytes(m, 0) =~= sl + spec_entries_bytes(m, 0));
        }
        while i < hs.len()
            invariant
                0 <= i <= hs@.len(),
                hs@.len() == m.len(),
                forall|x: int|
                    0 <= x < m.len() ==> (#[trigger] hs@[x]).0@ == m[x].0 && hs@[x].1.deep_view()
                        == m[x].1,
                out@ + spec_entries_bytes(m, i as int) == sl + spec_entries_bytes(m, 0),
            decreases hs@.len() - i,
        {
            let pair = &hs[i];
            let vs = &pair.1;
            let ghost k = m[i as int].0;
            let ghost vals = m[i as int].1;
            let ghost out_i = out@;
            let mut j: usize = 0;
            proof {
                assert(out@ + spec_value_lines(k, vals, 0) =~= out_i + spec_value_lines(
                    k,
                    vals,
                    0,
                ));
            }
            while j < vs.len()
                invariant
                    0 <= j <= vs@.len(),
                    vs@.len() == vals.len(),
                    pair.0@ == k,
                    forall|y: int| 0 <= y < vals.len() ==> (#[trigger] vs@[y])@ == vals[y],
                    out@ + spec_value_lines(k, vals, j as int) == out_i + spec_value_lines(
                        k,
                        vals,
                        0,
                    ),
                decreases vs@.len() - j,
            {
                let ghost out0 = out@;
                out.extend_from_slice(pair.0.as_str().as_bytes());
                out.push(COLON);
                out.push(SP);
                out.extend_from_slice(vs[j].as_str().as_bytes());
                out.push(CR);
                out.push(LF);
                proof {
                    assert(out@ + spec_value_lines(k, vals, j + 1) =~= out0 + spec_value_lines(
                        k,
                        vals,
                        j as int,
                    ));
                }
                j = j + 1;
            }
            proof {
                assert(out@ =~= out_i + spec_value_lines(k, vals, 0));
                assert(out@ + spec_entries_bytes(m, i + 1) =~= out_i + spec_entries_bytes(
                    m,
                    i as int,
                ));
            }
            i = i + 1;
        }
        out.push(CR);
        out.push(LF);
        proof {
            assert(out@ =~= spec_head(self.status_code, self.status@, m));
        }
        out
    }

    /// Queues the error-level access line for a head emission with status
    /// >= 400.
    fn log_error_status(&mut self)
        ensures
            final(self).pending_log.deep_view() == if old(self).status_code >= 400 {
                old(self).pending_log.deep_view().push(
                    spec_error_status_line(
                        old(self).status_code,
                        old(self).status@,
                        old(self).request_method@,
                        old(self).request_uri@,
                    ),
                )
            } else {
                old(self).pending_log.deep_view()
            },
            final(self).headers == old(self).headers,
            final(self).body == old(self).body,
            final(self).header_sent == old(self).header_sent,
            final(self).closed == old(self).closed,
            final(self).status_code == old(self).status_code,
            final(self).status == old(self).status,
            final(self).request_method == old(self).request_method,
            final(self).request_uri == old(self).request_uri,
    {
        if self.status_code >= 400 {
            let ghost pl0 = self.pending_log.deep_view();
            let mut line = String::from_str("Error ");
            let code_str = u64_to_string(self.status_code as u64);
            line.append(code_str.as_str());
            line.append(" ");
            line.append(self.status);
            line.append(", for ");
            line.append(self.request_method.as_str());
            line.append(" ");
            line.append(self.request_uri.as_str());
            proof {
                assert(line@ =~= spec_error_status_line(
                    self.status_code,
                    self.status@,
                    self.request_method@,
                    self.request_uri@,
                ));
            }
            self.pending_log.push(line);
            proof {
                assert(final(self).pending_log.deep_view() =~~= pl0.push(
                    spec_error_status_line(
                        final(self).status_code,
                        final(self).status@,
                        final(self).request_method@,
                        final(self).request_uri@,
                    ),
                ));
            }
        }
    }

    /// Emits the head (once) and the currently buffered body, clearing the
    /// buffer but keeping the connection open. The returned bytes are what
    /// must be written to the connection; safe to call multiple times.
    pub fn send(&mut self) -> (out: Vec<u8>)
        requires
            old(self).headers.wf(),
        ensures
            final(self).header_sent,
            final(self).body@ == Seq::<u8>::empty(),
            final(self).headers == old(self).headers,
            final(self).closed == old(self).closed,
            final(self).status_code == old(self).status_code,
            final(self).request_method == old(self).request_method,
            final(self).request_uri == old(self).request_uri,
            old(self).header_sent ==> {
                &&& out@ == old(self).body@
                &&& final(self).status == old(self).status
                &&& final(self).pending_log == old(self).pending_log
            },
            !old(self).header_sent ==> {
                &&& final(self).status@ == spec_status_used(
                    old(self).status_code,
                    old(self).status@,
                )
                &&& out@ == spec_head(
                    old(self).status_code,
                    spec_status_used(old(self).status_code, old(self).status@),
                    old(self).headers@,
                ) + old(self).body@
                &&& final(self).pending_log.deep_view() == if old(self).status_code >= 400 {
                    old(self).pending_log.deep_view().push(
                        spec_error_status_line(
                            old(self).status_code,
                            spec_status_used(old(self).status_code, old(self).status@),
                            old(self).request_method@,
                            old(self).request_uri@,
                        ),
                    )
                } else {
                    old(self).pending_log.deep_view()
                }
            },
    {
        let mut out: Vec<u8>;
        if !self.header_sent {
            self.resolve_status();
            self.log_error_status();
            out = self.head_bytes();
            self.header_sent = true;
        } else {
            out = Vec::new();
        }
        let ghost head_part = out@;
        out.append(&mut self.body);
        proof {
            assert(out@ =~= head_part + old(self).body@);
            assert(final(self).body@ =~= Seq::<u8>::empty());
            assert(head_part.len() == 0 ==> out@ =~= old(self).body@);
        }
        out
    }

    /// Finalizes the response: emits the head if it was never emitted
    /// (setting `Content-Length` to the exact buffered body size first),
    /// hands back the remaining bytes to write, and marks the response
    /// closed. Calling `end` on an already-finalized response fails with an
    /// error and a queued warning and changes nothing else.
    pub fn end(&mut self) -> (r: Result<Vec<u8>, Error>)
        requires
            old(self).headers.wf(),
        ensures
            (r is Ok) == !old(self).closed,
            old(self).closed ==> {
                &&& r matches Err(e) && e.code == 500
                &&& final(self).body == old(self).body
                &&& final(self).headers == old(self).headers
                &&& final(self).header_sent == old(self).header_sent
                &&& final(self).closed
                &&& final(self).status_code == old(self).status_code
                &&& final(self).status == old(self).status
                &&& final(self).pending_log.deep_view() == old(self).pending_log.deep_view().push(
                    spec_closed_end_line(old(self).request_method@, old(self).request_uri@),
                )
            },
            !old(self).closed ==> {
                &&& final(self).closed
                &&& final(self).headers.wf()
            },
            !old(self).closed && old(self).header_sent ==> {
                &&& r matches Ok(out) && out@ == old(self).body@
                &&& final(self).body == old(self).body
                &&& final(self).headers == old(self).headers
                &&& final(self).header_sent
                &&& final(self).status == old(self).status
                &&& final(self).pending_log == old(self).pending_log
            },
            !old(self).closed && !old(self).header_sent ==> {
                &&& final(self).headers@ == vm_set(
                    old(self).headers@,
                    spec_key(old(self).headers.spec_case_handling(), "Content-Length"@),
                    spec_dec_digits(old(self).body@.len()),
                )
                &&& final(self).status@ == spec_status_used(
                    old(self).status_code,
                    old(self).status@,
                )
                &&& r matches Ok(out) && out@ == spec_head(
                    old(self).status_code,
                    spec_status_used(old(self).status_code, old(self).status@),
                    final(self).headers@,
                ) + old(self).body@
                &&& final(self).body@ == Seq::<u8>::empty()
                &&& final(self).header_sent
                &&& final(self).pending_log.deep_view() == (if old(self).status_code >= 400 {
                    old(self).pending_log.deep_view().push(
                        spec_error_status_line(
                            old(self).status_code,
                            spec_status_used(old(self).status_code, old(self).status@),
                            old(self).request_method@,
                            old(self).request_uri@,
                        ),
                    )
                } else {
                    old(self).pending_log.deep_view()
                })
            },
            final(self).status_code == old(self).status_code,
            final(self).request_method == old(self).request_method,
            final(self).request_uri == old(self).request_uri,
    {
        if self.closed {
            let ghost pl0 = self.pending_log.deep_view();
            let mut line = String::from_str("Write to closed connection for ");
            line.append(self.request_method.as_str());
            line.append(" ");
            line.append(self.request_uri.as_str());
            proof {
                assert(line@ =~= spec_closed_end_line(self.request_method@, self.request_uri@));
            }
            self.pending_log.push(line);
            proof {
                assert(final(self).pending_log.deep_view() =~~= pl0.push(
                    spec_closed_end_line(final(self).request_method@, final(self).request_uri@),
                ));
            }
            return Err(Error::new(500, "Connection closed"));
        }
        self.closed = true;
        if !self.header_sent {
            let len_str = u64_to_string(self.body.len() as u64);
            self.headers.set("Content-Length", len_str.as_str());
            let out = self.send();
            return Ok(out);
        }
        let out = crate::text::subvec(self.body.as_slice(), 0, self.body.len());
        proof {
            assert(out@ =~= old(self).body@);
        }
        Ok(out)
    }

    /// Finalizes the response if — and only if — it was never finalized:
    /// the scope-exit cleanup. On an open response it behaves like
    /// [`Response::end`] and hands back the bytes to write; on a closed one
    /// it does nothing at all, so explicit `end` followed by this cleanup
    /// performs no second emission.
    pub fn finalize(&mut self) -> (r: Option<Vec<u8>>)
        requires
            old(self).headers.wf(),
        ensures
            (r is Some) == !old(self).closed,
            final(self).closed == true || old(self).closed == false,
            old(self).closed ==> *final(self) == *old(self),
            !old(self).closed ==> {
                &&& final(self).closed
                &&& final(self).header_sent
                &&& final(self).headers.wf()
                &&& !old(self).header_sent ==> (r matches Some(out) && out@ == spec_head(
                    old(self).status_code,
                    spec_status_used(old(self).status_code, old(self).status@),
                    vm_set(
                        old(self).headers@,
                        spec_key(old(self).headers.spec_case_handling(), "Content-Length"@),
                        spec_dec_digits(old(self).body@.len()),
                    ),
                ) + old(self).body@)
                &&& old(self).header_sent ==> (r matches Some(out) && out@ == old(self).body@)
            },
    {
        if self.closed {
            return None;
        }
        match self.end() {
            Ok(out) => Some(out),
            Err(_) => None,
        }
    }

    /// Hands out the queued log lines, oldest first, leaving the queue
    /// empty.
    pub fn take_log(&mut self) -> (r: Vec<String>)
        ensures
            r == old(self).pending_log,
            final(self).pending_log@.len() == 0,
            final(self).headers == old(self).headers,
            final(self).body == old(self).body,
            final(self).header_sent == old(self).header_sent,
            final(self).closed == old(self).closed,
            final(self).status_code == old(self).status_code,
            final(self).status == old(self).status,
            final(self).request_method == old(self).request_method,
            final(self).request_uri == old(self).request_uri,
    {
        let mut out: Vec<String> = Vec::new();
        core::mem::swap(&mut out, &mut self.pending_log);
        out
    }
}

} // verus!
