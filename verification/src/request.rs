//! The request parser: framing the header block out of the raw byte stream,
//! parsing the request line and header lines, extracting query parameters,
//! and completing the body against the declared `Content-Length`.

use vstd::prelude::*;
use vstd::string::{StrSliceExecFns, StringSliceAdditionalSpecFns};
use vstd::utf8::{decode_utf8, encode_utf8, valid_utf8};
use crate::error::Error;
use crate::text::{
    bytes_to_string, is_dec_digits, parse_dec, spec_dec_value, spec_trim, subvec, trim_bytes,
};
use crate::util::{
    index_of, spec_index_of, spec_lines, spec_lines_from, spec_strip_cr, to_lines, CR, LF, SP,
};
use crate::valuesmap::{spec_header_case, vm_add, vm_lookup, ValuesMap};

verus! {

/// The byte of `?`.
pub const QMARK: u8 = 63;
/// The byte of `&`.
pub const AMP: u8 = 38;
/// The byte of `=`.
pub const EQUALS: u8 = 61;
/// The byte of `:`.
pub const COLON: u8 = 58;

/// Whether the four-byte delimiter `\r\n\r\n` starts at position `i`.
pub open spec fn is_crlfcrlf_at(d: Seq<u8>, i: int) -> bool {
    &&& 0 <= i
    &&& i + 4 <= d.len()
    &&& d[i] == CR
    &&& d[i + 1] == LF
    &&& d[i + 2] == CR
    &&& d[i + 3] == LF
}

/// Whether the tolerant two-byte delimiter `\n\n` starts at position `i`.
pub open spec fn is_lflf_at(d: Seq<u8>, i: int) -> bool {
    &&& 0 <= i
    &&& i + 2 <= d.len()
    &&& d[i] == LF
    &&& d[i + 1] == LF
}

/// The first header/body delimiter at or after position `i`: the position
/// where the delimiter starts, and the position directly after it (the
/// delimiter-inclusive header length).
pub open spec fn spec_boundary_from(d: Seq<u8>, i: int) -> Option<(int, int)>
    decreases d.len() - i,
{
    if i < 0 || i >= d.len() {
        None
    } else if is_crlfcrlf_at(d, i) {
        Some((i, i + 4))
    } else if is_lflf_at(d, i) {
        Some((i, i + 2))
    } else {
        spec_boundary_from(d, i + 1)
    }
}

/// The first header/body delimiter of `d`, if one has arrived yet.
pub open spec fn spec_boundary(d: Seq<u8>) -> Option<(int, int)> {
    spec_boundary_from(d, 0)
}

/// Looks for the end of the header block in the bytes read so far: the first
/// `\r\n\r\n`, or, tolerating malformed clients that omit carriage returns,
/// the first `\n\n`. Returns the position where the delimiter starts and the
/// delimiter-inclusive header length.
pub fn header_boundary(data: &[u8]) -> (r: Option<(usize, usize)>)
    ensures
        match r {
            Some(p) => spec_boundary(data@) == Some((p.0 as int, p.1 as int)) && p.0 <= p.1
                <= data@.len(),
            None => spec_boundary(data@) is None,
        },
{
    let n = data.len();
    let mut i: usize = 0;
    while i < n
        invariant
            0 <= i <= n,
            n == data@.len(),
            spec_boundary(data@) == spec_boundary_from(data@, i as int),
        decreases n - i,
    {
        if data[i] == CR {
            if n - i >= 4 && data[i + 1] == LF && data[i + 2] == CR && data[i + 3] == LF {
                return Some((i, i + 4));
            }
            assert(!is_crlfcrlf_at(data@, i as int));
            assert(!is_lflf_at(data@, i as int));
        } else if data[i] == LF {
            if n - i >= 2 && data[i + 1] == LF {
                return Some((i, i + 2));
            }
            assert(!is_crlfcrlf_at(data@, i as int));
            assert(!is_lflf_at(data@, i as int));
        } else {
            assert(!is_crlfcrlf_at(data@, i as int));
            assert(!is_lflf_at(data@, i as int));
        }
        i = i + 1;
    }
    None
}

/// The fields of a request line: the line split on every space byte, with
/// the piece after the last space included.
pub open spec fn spec_fields_from(d: Seq<u8>, start: int, i: int) -> Seq<Seq<u8>>
    decreases d.len() - i,
{
    if i < 0 {
        Seq::empty()
    } else if i >= d.len() {
        seq![d.subrange(start, d.len() as int)]
    } else if d[i] == SP {
        seq![d.subrange(start, i)] + spec_fields_from(d, i + 1, i + 1)
    } else {
        spec_fields_from(d, start, i + 1)
    }
}

/// The space-separated fields of a request line.
pub open spec fn spec_fields(d: Seq<u8>) -> Seq<Seq<u8>> {
    spec_fields_from(d, 0, 0)
}

/// Whether a request line is well formed: exactly three space-separated
/// fields, each valid UTF-8.
pub open spec fn spec_request_line_ok(line: Seq<u8>) -> bool {
    &&& spec_fields(line).len() == 3
    &&& valid_utf8(spec_fields(line)[0])
    &&& valid_utf8(spec_fields(line)[1])
    &&& valid_utf8(spec_fields(line)[2])
}

/// Splits a request line into its space-separated fields.
fn split_fields(line: &[u8]) -> (r: Vec<Vec<u8>>)
    ensures
        r.deep_view() == spec_fields(line@),
        r@.len() >= 1,
{
    let n = line.len();
    let mut fields: Vec<Vec<u8>> = Vec::new();
    let mut field: Vec<u8> = Vec::new();
    let ghost mut start: int = 0;
    let mut i: usize = 0;
    proof {
        assert(field@ =~= line@.subrange(0, 0));
        assert(fields.deep_view() + spec_fields_from(line@, 0, 0) =~= spec_fields(line@));
    }
    while i < n
        invariant
            0 <= start <= i <= n,
            n == line@.len(),
            field@ == line@.subrange(start, i as int),
            fields.deep_view() + spec_fields_from(line@, start, i as int) == spec_fields(line@),
            fields@.len() + spec_fields_from(line@, start, i as int).len() == spec_fields(
                line@,
            ).len(),
        decreases n - i,
    {
        let ghost fields0 = fields.deep_view();
        if line[i] == SP {
            fields.push(field);
            field = Vec::new();
            proof {
                assert(fields.deep_view() =~~= fields0.push(line@.subrange(start, i as int)));
                assert(fields.deep_view() + spec_fields_from(line@, i + 1, i + 1) =~~= fields0
                    + spec_fields_from(line@, start, i as int));
                start = i + 1;
                assert(field@ =~= line@.subrange(start, i + 1));
            }
        } else {
            field.push(line[i]);
            proof {
                assert(field@ =~= line@.subrange(start, i + 1));
            }
        }
        i = i + 1;
    }
    let ghost fields0 = fields.deep_view();
    fields.push(field);
    proof {
        assert(fields.deep_view() =~~= fields0.push(line@.subrange(start, n as int)));
        assert(fields.deep_view() =~= spec_fields(line@));
    }
    fields
}

/// Splits a request line on spaces into exactly three fields: method, URI
/// and HTTP version. Any other number of fields, or a field that is not
/// valid UTF-8, is a malformed request.
pub fn split_request_line(line: &[u8]) -> (r: Result<(String, String, String), Error>)
    ensures
        (r is Ok) == spec_request_line_ok(line@),
        r matches Ok(t) ==> {
            &&& encode_utf8(t.0@) == spec_fields(line@)[0]
            &&& encode_utf8(t.1@) == spec_fields(line@)[1]
            &&& encode_utf8(t.2@) == spec_fields(line@)[2]
        },
        r matches Err(e) ==> e.code == 400,
{
    let fields = split_fields(line);
    if fields.len() != 3 {
        return Err(Error::new(400, "Invalid request line"));
    }
    proof {
        assert(fields.deep_view()[0] == fields@[0]@);
        assert(fields.deep_view()[1] == fields@[1]@);
        assert(fields.deep_view()[2] == fields@[2]@);
    }
    let method = match bytes_to_string(&fields[0]) {
        Some(s) => s,
        None => {
            return Err(Error::new(400, "Invalid request line"));
        },
    };
    let uri = match bytes_to_string(&fields[1]) {
        Some(s) => s,
        None => {
            return Err(Error::new(400, "Invalid request line"));
        },
    };
    let http_version = match bytes_to_string(&fields[2]) {
        Some(s) => s,
        None => {
            return Err(Error::new(400, "Invalid request line"));
        },
    };
    Ok((method, uri, http_version))
}

/// A header line split at its first colon, both sides trimmed.
pub open spec fn spec_header_split(line: Seq<u8>) -> Option<(Seq<u8>, Seq<u8>)> {
    match spec_index_of(line, COLON, 0) {
        None => None,
        Some(ci) => Some(
            (spec_trim(line.subrange(0, ci)), spec_trim(line.subrange(ci + 1, line.len() as int))),
        ),
    }
}

/// Whether a header line is acceptable: blank (the terminator line), or
/// containing a colon with both sides valid UTF-8 after trimming.
pub open spec fn spec_header_line_ok(line: Seq<u8>) -> bool {
    ||| line.len() == 0
    ||| (spec_header_split(line) matches Some(kv) && valid_utf8(kv.0) && valid_utf8(kv.1))
}

/// The header map after taking one header line: blank lines and lines whose
/// parts do not decode are left out, any other line is `add`ed under its
/// "Header-Case" key.
pub open spec fn spec_add_header_line(
    m: Seq<(Seq<char>, Seq<Seq<char>>)>,
    line: Seq<u8>,
) -> Seq<(Seq<char>, Seq<Seq<char>>)> {
    if line.len() == 0 {
        m
    } else {
        match spec_header_split(line) {
            None => m,
            Some(kv) => if valid_utf8(kv.0) && valid_utf8(kv.1) {
                vm_add(m, spec_header_case(decode_utf8(kv.0)), decode_utf8(kv.1))
            } else {
                m
            },
        }
    }
}

/// The header map built from `lines[1..i]`, in order.
pub open spec fn spec_headers_upto(lines: Seq<Seq<u8>>, i: int) -> Seq<(Seq<char>, Seq<Seq<char>>)>
    decreases i,
{
    if i <= 1 {
        Seq::empty()
    } else {
        spec_add_header_line(spec_headers_upto(lines, i - 1), lines[i - 1])
    }
}

/// The header map built from all lines after the request line.
pub open spec fn spec_headers_map(lines: Seq<Seq<u8>>) -> Seq<(Seq<char>, Seq<Seq<char>>)> {
    spec_headers_upto(lines, lines.len() as int)
}

/// The body length declared by the last `Content-Length` header value: its
/// decimal value when it is a non-empty digit string that fits the machine,
/// and `0` otherwise or when the header is absent.
pub open spec fn spec_declared_length(m: Seq<(Seq<char>, Seq<Seq<char>>)>) -> int {
    match vm_lookup(m, spec_header_case("Content-Length"@)) {
        None => 0,
        Some(vs) => if vs.len() == 0 {
            0
        } else {
            let s = vs.last();
            if s.len() > 0 && is_dec_digits(s) && spec_dec_value(s) <= usize::MAX {
                spec_dec_value(s) as int
            } else {
                0
            }
        },
    }
}

/// A query pair split at its first `=`; the value defaults to empty when `=`
/// is absent.
pub open spec fn spec_pair_split(pair: Seq<u8>) -> (Seq<u8>, Seq<u8>) {
    match spec_index_of(pair, EQUALS, 0) {
        None => (pair, Seq::empty()),
        Some(e) => (pair.subrange(0, e), pair.subrange(e + 1, pair.len() as int)),
    }
}

/// The query map after taking one `key=value` pair; a pair whose parts do
/// not decode is skipped.
pub open spec fn spec_add_pair(
    m: Seq<(Seq<char>, Seq<Seq<char>>)>,
    pair: Seq<u8>,
) -> Seq<(Seq<char>, Seq<Seq<char>>)> {
    let kv = spec_pair_split(pair);
    if valid_utf8(kv.0) && valid_utf8(kv.1) {
        vm_add(m, decode_utf8(kv.0), decode_utf8(kv.1))
    } else {
        m
    }
}

/// The query map built by splitting `q` on `&` from scan position `i`, where
/// the current pair began at `start`, starting from map `m`.
pub open spec fn spec_query_pairs(
    q: Seq<u8>,
    start: int,
    i: int,
    m: Seq<(Seq<char>, Seq<Seq<char>>)>,
) -> Seq<(Seq<char>, Seq<Seq<char>>)>
    decreases q.len() - i,
{
    if i < 0 {
        m
    } else if i >= q.len() {
        spec_add_pair(m, q.subrange(start, q.len() as int))
    } else if q[i] == AMP {
        spec_query_pairs(q, i + 1, i + 1, spec_add_pair(m, q.subrange(start, i)))
    } else {
        spec_query_pairs(q, start, i + 1, m)
    }
}

/// The query-parameter map of a URI given as UTF-8 bytes: empty when the URI
/// has no `?`, and otherwise the pairs of the part after the first `?`,
/// split on `&` and on the first `=` of each pair.
pub open spec fn spec_query_map(u: Seq<u8>) -> Seq<(Seq<char>, Seq<Seq<char>>)> {
    match spec_index_of(u, QMARK, 0) {
        None => Seq::empty(),
        Some(p) => spec_query_pairs(u.subrange(p + 1, u.len() as int), 0, 0, Seq::empty()),
    }
}

/// Adds one raw query pair to the (case-sensitive) map.
fn add_query_pair(m: &mut ValuesMap, pair: &Vec<u8>)
    requires
        old(m).wf(),
        !old(m).spec_case_handling(),
    ensures
        final(m)@ == spec_add_pair(old(m)@, pair@),
        final(m).wf(),
        !final(m).spec_case_handling(),
{
    let pn = pair.len();
    proof {
        crate::util::lemma_index_of_in_range(pair@, EQUALS, 0);
    }
    let (kb, vb) = match index_of(pair, EQUALS) {
        None => (pair.clone(), Vec::new()),
        Some(e) => (subvec(pair.as_slice(), 0, e), subvec(pair.as_slice(), e + 1, pn)),
    };
    proof {
        assert((kb@, vb@) == spec_pair_split(pair@));
    }
    let k = match bytes_to_string(&kb) {
        Some(s) => s,
        None => {
            return ;
        },
    };
    let v = match bytes_to_string(&vb) {
        Some(s) => s,
        None => {
            return ;
        },
    };
    proof {
        vstd::utf8::encode_utf8_decode_utf8(k@);
        vstd::utf8::encode_utf8_decode_utf8(v@);
    }
    m.add(k.as_str(), v.as_str());
}

/// Extracts the query parameters of a URI into a case-sensitive map: the
/// part after the first `?` is split on `&`, and each pair on its first `=`
/// (the value defaults to empty).
pub fn uri_parameters(uri: &str) -> (r: ValuesMap)
    ensures
        r@ == spec_query_map(uri.spec_bytes()),
        r.wf(),
        !r.spec_case_handling(),
{
    let bytes = uri.as_bytes_vec();
    let bn = bytes.len();
    let mut parameters = ValuesMap::new();
    let p = match index_of(&bytes, QMARK) {
        None => {
            return parameters;
        },
        Some(p) => p,
    };
    proof {
        crate::util::lemma_index_of_in_range(bytes@, QMARK, 0);
    }
    let q = subvec(bytes.as_slice(), p + 1, bn);
    let n = q.len();
    let mut pair: Vec<u8> = Vec::new();
    let ghost mut start: int = 0;
    let mut i: usize = 0;
    proof {
        assert(pair@ =~= q@.subrange(0, 0));
    }
    while i < n
        invariant
            0 <= start <= i <= n,
            n == q@.len(),
            pair@ == q@.subrange(start, i as int),
            parameters.wf(),
            !parameters.spec_case_handling(),
            spec_query_pairs(q@, start, i as int, parameters@) == spec_query_pairs(
                q@,
                0,
                0,
                Seq::empty(),
            ),
        decreases n - i,
    {
        if q[i] == AMP {
            add_query_pair(&mut parameters, &pair);
            pair = Vec::new();
            proof {
                start = i + 1;
                assert(pair@ =~= q@.subrange(start, i + 1));
            }
        } else {
            pair.push(q[i]);
            proof {
                assert(pair@ =~= q@.subrange(start, i + 1));
            }
        }
        i = i + 1;
    }
    proof {
        assert(pair@ == q@.subrange(start, n as int));
    }
    add_query_pair(&mut parameters, &pair);
    parameters
}

/// Whether the bytes read so far parse into a request: the header/body
/// delimiter has arrived, the request line has exactly three fields, and
/// every header line is blank or carries a colon, all in valid UTF-8.
pub open spec fn spec_parse_ok(d: Seq<u8>) -> bool {
    &&& spec_boundary(d) is Some
    &&& {
        let hl = spec_boundary(d).unwrap().1;
        let lines = spec_lines(d.subrange(0, hl));
        &&& lines.len() >= 1
        &&& spec_request_line_ok(lines[0])
        &&& forall|i: int| 1 <= i < lines.len() ==> spec_header_line_ok(#[trigger] lines[i])
    }
}

/// Incoming request, parsed off the raw bytes of one connection.
#[derive(Debug)]
pub struct Request {
    /// Headers sent by the client, with case handling enabled.
    pub headers: ValuesMap,
    /// HTTP method sent by the client.
    pub method: String,
    /// Requested URI.
    pub uri: String,
    /// HTTP version string sent by the client.
    pub http_version: String,
    /// Delimiter-inclusive byte length of the header block.
    pub header_length: usize,
    /// Body length declared by `Content-Length` (default 0).
    pub body_length: usize,
    /// Bytes of the connection consumed so far.
    pub read_bytes: usize,
    /// Body bytes buffered so far.
    pub body: Vec<u8>,
    /// Query parameters parsed from the URI, case-sensitive.
    pub query_parameters: ValuesMap,
}

impl Request {
    /// The delimiter-inclusive byte length of the header block.
    pub open spec fn spec_header_length(&self) -> int {
        self.header_length as int
    }

    /// The body length declared by `Content-Length` (default 0).
    pub open spec fn spec_body_length(&self) -> int {
        self.body_length as int
    }

    /// How many bytes of the connection have been consumed so far.
    pub open spec fn spec_read_bytes(&self) -> int {
        self.read_bytes as int
    }

    /// The body bytes buffered so far.
    pub open spec fn spec_body(&self) -> Seq<u8> {
        self.body@
    }

    /// The query-parameter map.
    pub open spec fn spec_query(&self) -> Seq<(Seq<char>, Seq<Seq<char>>)> {
        self.query_parameters@
    }

    /// Basic consistency: the byte counters agree with the buffered body,
    /// and the query map is well formed and case-sensitive. Established by
    /// [`Request::parse_data`] and preserved by the body operations.
    pub open spec fn wf(&self) -> bool {
        &&& self.read_bytes >= self.header_length
        &&& self.body@.len() == self.read_bytes - self.header_length
        &&& self.query_parameters.wf()
        &&& !self.query_parameters.spec_case_handling()
    }

    /// How many more body bytes are owed by the connection, judging from the
    /// declared length and what was read past the header so far.
    pub open spec fn spec_body_remaining(&self) -> int {
        if self.spec_body_length() > self.spec_read_bytes() - self.spec_header_length() {
            self.spec_body_length() - (self.spec_read_bytes() - self.spec_header_length())
        } else {
            0
        }
    }

    /// Parses the bytes read so far into a [`Request`]. The buffer must hold
    /// the complete header block (see [`header_boundary`]); everything past
    /// the delimiter is kept as the start of the body. A missing delimiter,
    /// a malformed request line or a malformed header line yields a status
    /// 400 error.
    pub fn parse_data(data: &Vec<u8>) -> (r: Result<Request, Error>)
        ensures
            (r is Ok) == spec_parse_ok(data@),
            r matches Err(e) ==> e.code == 400,
            r matches Ok(req) ==> {
                let hl = spec_boundary(data@).unwrap().1;
                let lines = spec_lines(data@.subrange(0, hl));
                let f = spec_fields(lines[0]);
                &&& encode_utf8(req.method@) == f[0]
                &&& encode_utf8(req.uri@) == f[1]
                &&& encode_utf8(req.http_version@) == f[2]
                &&& req.headers@ == spec_headers_map(lines)
                &&& req.headers.spec_case_handling()
                &&& req.headers.wf()
                &&& req.spec_query() == spec_query_map(f[1])
                &&& req.spec_header_length() == hl
                &&& req.spec_read_bytes() == data@.len()
                &&& req.spec_body() == data@.skip(hl)
                &&& req.spec_body_length() == spec_declared_length(spec_headers_map(lines))
                &&& req.wf()
            },
    {
        let (hend, hlen) = match header_boundary(data.as_slice()) {
            Some(p) => p,
            None => {
                return Err(Error::new(400, "Invalid request"));
            },
        };
        let head = subvec(data.as_slice(), 0, hlen);
        let lines = to_lines(head.as_slice());
        let ghost lv = lines.deep_view();
        proof {
            assert(lv == spec_lines(data@.subrange(0, hlen as int)));
        }
        if lines.len() == 0 {
            return Err(Error::new(400, "Invalid request"));
        }
        proof {
            assert(lv[0] == lines@[0]@);
        }
        let (method, uri, http_version) = match split_request_line(lines[0].as_slice()) {
            Ok(t) => t,
            Err(e) => {
                return Err(e);
            },
        };
        let mut headers = ValuesMap::new();
        headers.set_case_handling(true);
        let mut i: usize = 1;
        while i < lines.len()
            invariant
                1 <= i <= lines@.len(),
                lv == lines.deep_view(),
                spec_boundary(data@) == Some((hend as int, hlen as int)),
                hlen <= data@.len(),
                lv == spec_lines(data@.subrange(0, hlen as int)),
                headers@ == spec_headers_upto(lv, i as int),
                headers.wf(),
                headers.spec_case_handling(),
                forall|j: int| 1 <= j < i ==> spec_header_line_ok(#[trigger] lv[j]),
            decreases lines@.len() - i,
        {
            let line = &lines[i];
            proof {
                assert(lv[i as int] == line@);
            }
            if line.len() > 0 {
                let ci = match index_of(line, COLON) {
                    Some(ci) => ci,
                    None => {
                        proof {
                            assert(!spec_header_line_ok(lv[i as int]));
                            assert(spec_lines(data@.subrange(0, spec_boundary(data@).unwrap().1))
                                == lv);
                            assert(!spec_header_line_ok(
                                spec_lines(
                                    data@.subrange(0, spec_boundary(data@).unwrap().1),
                                )[i as int],
                            ));
                            assert(!spec_parse_ok(data@));
                        }
                        return Err(Error::new(400, "Invalid request"));
                    },
                };
                proof {
                    crate::util::lemma_index_of_in_range(line@, COLON, 0);
                }
                let key_part = subvec(line.as_slice(), 0, ci);
                let kb = trim_bytes(key_part.as_slice());
                let val_part = subvec(line.as_slice(), ci + 1, line.len());
                let vb = trim_bytes(val_part.as_slice());
                proof {
                    assert(spec_header_split(line@) == Some((kb@, vb@)));
                }
                let k = match bytes_to_string(&kb) {
                    Some(s) => s,
                    None => {
                        proof {
                            assert(!spec_header_line_ok(lv[i as int]));
                            assert(spec_lines(data@.subrange(0, spec_boundary(data@).unwrap().1))
                                == lv);
                            assert(!spec_header_line_ok(
                                spec_lines(
                                    data@.subrange(0, spec_boundary(data@).unwrap().1),
                                )[i as int],
                            ));
                            assert(!spec_parse_ok(data@));
                        }
                        return Err(Error::new(400, "Invalid request"));
                    },
                };
                let v = match bytes_to_string(&vb) {
                    Some(s) => s,
                    None => {
                        proof {
                            assert(!spec_header_line_ok(lv[i as int]));
                            assert(spec_lines(data@.subrange(0, spec_boundary(data@).unwrap().1))
                                == lv);
                            assert(!spec_header_line_ok(
                                spec_lines(
                                    data@.subrange(0, spec_boundary(data@).unwrap().1),
                                )[i as int],
                            ));
                            assert(!spec_parse_ok(data@));
                        }
                        return Err(Error::new(400, "Invalid request"));
                    },
                };
                proof {
                    vstd::utf8::encode_utf8_decode_utf8(k@);
                    vstd::utf8::encode_utf8_decode_utf8(v@);
                }
                headers.add(k.as_str(), v.as_str());
            }
            i = i + 1;
        }
        proof {
            assert(headers@ == spec_headers_map(lv));
        }
        let query_parameters = uri_parameters(uri.as_str());
        let body_length: usize = match headers.get("Content-Length") {
            Some(s) => match parse_dec(s) {
                Some(v) => if v <= usize::MAX as u64 {
                    v as usize
                } else {
                    0
                },
                None => 0,
            },
            None => 0,
        };
        proof {
            assert(body_length as int == spec_declared_length(headers@));
        }
        let body = subvec(data.as_slice(), hlen, data.len());
        let req = Request {
            headers,
            method,
            uri,
            http_version,
            header_length: hlen,
            body_length,
            read_bytes: data.len(),
            body,
            query_parameters,
        };
        proof {
            assert(req.spec_body() =~= data@.skip(hlen as int));
        }
        Ok(req)
    }

    /// How many more body bytes must still be read from the connection.
    pub fn body_remaining(&self) -> (r: usize)
        requires
            self.wf(),
        ensures
            r == self.spec_body_remaining(),
    {
        let got = self.read_bytes - self.header_length;
        if self.body_length > got {
            self.body_length - got
        } else {
            0
        }
    }

    /// Appends bytes read from the connection to the body buffer.
    pub fn feed_body(&mut self, chunk: &[u8])
        requires
            old(self).wf(),
            old(self).spec_read_bytes() + chunk@.len() <= usize::MAX,
        ensures
            final(self).wf(),
            final(self).spec_body() == old(self).spec_body() + chunk@,
            final(self).spec_read_bytes() == old(self).spec_read_bytes() + chunk@.len(),
            final(self).spec_header_length() == old(self).spec_header_length(),
            final(self).spec_body_length() == old(self).spec_body_length(),
            final(self).spec_query() == old(self).spec_query(),
            final(self).headers == old(self).headers,
            final(self).method == old(self).method,
            final(self).uri == old(self).uri,
            final(self).http_version == old(self).http_version,
    {
        self.body.extend_from_slice(chunk);
        self.read_bytes = self.read_bytes + chunk.len();
    }

    /// The request body, available once every declared byte has arrived:
    /// when the declared length is zero (absent or unparsable
    /// `Content-Length`), immediately; otherwise only after the missing
    /// bytes were handed in through [`Request::feed_body`].
    pub fn get_body(&self) -> (r: Option<&Vec<u8>>)
        requires
            self.wf(),
        ensures
            (r is Some) == (self.spec_body_remaining() == 0),
            r matches Some(b) ==> b@ == self.spec_body(),
    {
        if self.body_remaining() == 0 {
            Some(&self.body)
        } else {
            None
        }
    }

    /// Returns the query parameters parsed from the request URI.
    pub fn get_query_parameters(&self) -> (r: &ValuesMap)
        requires
            self.wf(),
        ensures
            r@ == self.spec_query(),
            r.wf(),
            !r.spec_case_handling(),
    {
        &self.query_parameters
    }
}

/// A request whose declared body length is zero — the `Content-Length`
/// header was absent or unparsable — owes no further body bytes, so
/// [`Request::get_body`] succeeds immediately, without additional reads.
pub proof fn lemma_no_declared_body_is_complete(req: Request)
    requires
        req.spec_body_length() == 0,
        req.spec_read_bytes() >= req.spec_header_length(),
    ensures
        req.spec_body_remaining() == 0,
{
}

/// The wire form of a head whose lines each end in `\r\n`.
pub open spec fn join_crlf(ls: Seq<Seq<u8>>) -> Seq<u8>
    decreases ls.len(),
{
    if ls.len() == 0 {
        Seq::empty()
    } else {
        ls[0] + seq![CR, LF] + join_crlf(ls.drop_first())
    }
}

/// The wire form of a head whose lines each end in a bare `\n`.
pub open spec fn join_lf(ls: Seq<Seq<u8>>) -> Seq<u8>
    decreases ls.len(),
{
    if ls.len() == 0 {
        Seq::empty()
    } else {
        ls[0] + seq![LF] + join_lf(ls.drop_first())
    }
}

/// A non-empty line without carriage returns or line feeds.
pub open spec fn line_clean(l: Seq<u8>) -> bool {
    l.len() > 0 && forall|j: int| 0 <= j < l.len() ==> l[j] != CR && l[j] != LF
}

/// Every line of the list is clean.
pub open spec fn lines_clean(ls: Seq<Seq<u8>>) -> bool {
    forall|i: int| 0 <= i < ls.len() ==> line_clean(#[trigger] ls[i])
}

/// A delimiter read entirely past a prefix only sees the suffix.
proof fn lemma_delim_shift(x: Seq<u8>, y: Seq<u8>, k: int)
    requires
        k >= 0,
    ensures
        is_crlfcrlf_at(x + y, x.len() + k) == is_crlfcrlf_at(y, k),
        is_lflf_at(x + y, x.len() + k) == is_lflf_at(y, k),
{
}

/// Scanning a stretch without delimiters does not change the boundary.
proof fn lemma_boundary_from_skip(d: Seq<u8>, i: int, p: int)
    requires
        0 <= i <= p <= d.len(),
        forall|j: int| i <= j < p ==> !is_crlfcrlf_at(d, j) && !is_lflf_at(d, j),
    ensures
        spec_boundary_from(d, i) == spec_boundary_from(d, p),
    decreases p - i,
{
    if i < p {
        lemma_boundary_from_skip(d, i + 1, p);
    }
}

/// No delimiter starts strictly inside the `\r\n`-joined head region: the
/// first one starts on the head's final `\r\n`.
proof fn lemma_join_crlf_no_delim(ls: Seq<Seq<u8>>, b: Seq<u8>, j: int)
    requires
        lines_clean(ls),
        0 <= j < join_crlf(ls).len(),
    ensures
        !is_crlfcrlf_at(join_crlf(ls) + seq![CR, LF] + b, j) || j == join_crlf(ls).len() - 2
            && ls.len() >= 1,
        !is_lflf_at(join_crlf(ls) + seq![CR, LF] + b, j),
    decreases ls.len(),
{
    let d = join_crlf(ls) + seq![CR, LF] + b;
    let l = ls[0];
    let rest = join_crlf(ls.drop_first()) + seq![CR, LF] + b;
    assert(d =~= l + seq![CR, LF] + rest);
    if j < l.len() {
        assert(d[j] == l[j]);
    } else if j == l.len() {
        assert(d[j] == CR);
        assert(d[j + 1] == LF);
        if ls.drop_first().len() == 0 {
            assert(join_crlf(ls.drop_first()) =~= Seq::<u8>::empty());
            assert(j == join_crlf(ls).len() - 2);
        } else {
            let l2 = ls.drop_first()[0];
            assert(line_clean(l2));
            assert(rest =~= l2 + seq![CR, LF] + (join_crlf(ls.drop_first().drop_first()) + seq![
                CR,
                LF,
            ] + b));
            assert(d[j + 2] == l2[0]);
            assert(l2[0] != CR);
            assert(!is_crlfcrlf_at(d, j));
        }
        assert(!is_lflf_at(d, j));
    } else if j == l.len() + 1 {
        assert(d[j] == LF);
        if ls.drop_first().len() == 0 {
            assert(rest =~= seq![CR, LF] + b);
            assert(d[j + 1] == CR);
        } else {
            let l2 = ls.drop_first()[0];
            assert(line_clean(l2));
            assert(rest =~= l2 + seq![CR, LF] + (join_crlf(ls.drop_first().drop_first()) + seq![
                CR,
                LF,
            ] + b));
            assert(d[j + 1] == l2[0]);
            assert(l2[0] != LF);
        }
        assert(!is_lflf_at(d, j));
        assert(!is_crlfcrlf_at(d, j));
    } else {
        let k = j - (l.len() + 2);
        let x = l + seq![CR, LF];
        assert(d =~= x + rest);
        lemma_join_crlf_no_delim(ls.drop_first(), b, k);
        lemma_delim_shift(x, rest, k);
        assert(join_crlf(ls) =~= x + join_crlf(ls.drop_first()));
    }
}

/// No delimiter starts strictly inside the `\n`-joined head region: the
/// first one starts on the head's final `\n`.
proof fn lemma_join_lf_no_delim(ls: Seq<Seq<u8>>, b: Seq<u8>, j: int)
    requires
        lines_clean(ls),
        0 <= j < join_lf(ls).len(),
    ensures
        !is_lflf_at(join_lf(ls) + seq![LF] + b, j) || j == join_lf(ls).len() - 1 && ls.len() >= 1,
        !is_crlfcrlf_at(join_lf(ls) + seq![LF] + b, j),
    decreases ls.len(),
{
    let d = join_lf(ls) + seq![LF] + b;
    let l = ls[0];
    let rest = join_lf(ls.drop_first()) + seq![LF] + b;
    assert(d =~= l + seq![LF] + rest);
    if j < l.len() {
        assert(d[j] == l[j]);
    } else if j == l.len() {
        assert(d[j] == LF);
        assert(!is_crlfcrlf_at(d, j));
        if ls.drop_first().len() == 0 {
            assert(join_lf(ls.drop_first()) =~= Seq::<u8>::empty());
            assert(j == join_lf(ls).len() - 1);
        } else {
            let l2 = ls.drop_first()[0];
            assert(line_clean(l2));
            assert(rest =~= l2 + seq![LF] + (join_lf(ls.drop_first().drop_first()) + seq![LF]
                + b));
            assert(d[j + 1] == l2[0]);
            assert(l2[0] != LF);
            assert(!is_lflf_at(d, j));
        }
    } else {
        let k = j - (l.len() + 1);
        let x = l + seq![LF];
        assert(d =~= x + rest);
        lemma_join_lf_no_delim(ls.drop_first(), b, k);
        lemma_delim_shift(x, rest, k);
        assert(join_lf(ls) =~= x + join_lf(ls.drop_first()));
    }
}

/// The `\r\n`-joined head of a non-empty line list ends in `\r\n`.
proof fn lemma_join_crlf_tail(ls: Seq<Seq<u8>>)
    requires
        ls.len() >= 1,
    ensures
        join_crlf(ls).len() >= 2,
        join_crlf(ls)[join_crlf(ls).len() - 2] == CR,
        join_crlf(ls)[join_crlf(ls).len() - 1] == LF,
    decreases ls.len(),
{
    if ls.drop_first().len() == 0 {
        assert(join_crlf(ls.drop_first()) =~= Seq::<u8>::empty());
        assert(join_crlf(ls) =~= ls[0] + seq![CR, LF]);
    } else {
        lemma_join_crlf_tail(ls.drop_first());
    }
}

/// The `\n`-joined head of a non-empty line list ends in `\n`.
proof fn lemma_join_lf_tail(ls: Seq<Seq<u8>>)
    requires
        ls.len() >= 1,
    ensures
        join_lf(ls).len() >= 1,
        join_lf(ls)[join_lf(ls).len() - 1] == LF,
    decreases ls.len(),
{
    if ls.drop_first().len() == 0 {
        assert(join_lf(ls.drop_first()) =~= Seq::<u8>::empty());
        assert(join_lf(ls) =~= ls[0] + seq![LF]);
    } else {
        lemma_join_lf_tail(ls.drop_first());
    }
}

/// Line splitting shifted past a consumed prefix.
proof fn lemma_lines_from_shift(x: Seq<u8>, y: Seq<u8>, start: int, i: int)
    requires
        0 <= start <= i,
    ensures
        spec_lines_from(x + y, x.len() + start, x.len() + i) == spec_lines_from(y, start, i),
    decreases y.len() - i,
{
    let d = x + y;
    if i >= y.len() {
        assert(spec_lines_from(d, x.len() + start, x.len() + i) =~= Seq::<Seq<u8>>::empty());
    } else {
        assert(d[x.len() + i] == y[i]);
        if y[i] == LF {
            assert(d.subrange(x.len() + start, x.len() + i) =~= y.subrange(start, i));
            lemma_lines_from_shift(x, y, i + 1, i + 1);
        } else {
            lemma_lines_from_shift(x, y, start, i + 1);
        }
    }
}

/// Scanning a stretch without line feeds does not produce lines.
proof fn lemma_lines_from_skip(d: Seq<u8>, start: int, i: int, p: int)
    requires
        0 <= start,
        0 <= i <= p <= d.len(),
        forall|k: int| i <= k < p ==> d[k] != LF,
    ensures
        spec_lines_from(d, start, i) == spec_lines_from(d, start, p),
    decreases p - i,
{
    if i < p {
        lemma_lines_from_skip(d, start, i + 1, p);
    }
}

/// Taking one `\r\n`-terminated line off the front of a block.
proof fn lemma_lines_prepend_crlf(l: Seq<u8>, rest: Seq<u8>)
    requires
        forall|j: int| 0 <= j < l.len() ==> l[j] != LF,
    ensures
        spec_lines(l + seq![CR, LF] + rest) == seq![spec_strip_cr(l + seq![CR])] + spec_lines(
            rest,
        ),
{
    let d = l + seq![CR, LF] + rest;
    assert(forall|k: int| 0 <= k < l.len() + 1 ==> d[k] != LF) by {
        assert(forall|k: int| 0 <= k < l.len() ==> d[k] == l[k]);
        assert(d[l.len() as int] == CR);
    }
    lemma_lines_from_skip(d, 0, 0, l.len() as int + 1);
    assert(d[l.len() as int + 1] == LF);
    assert(d.subrange(0, l.len() as int + 1) =~= l + seq![CR]);
    let x = l + seq![CR, LF];
    assert(d =~= x + rest);
    lemma_lines_from_shift(x, rest, 0, 0);
    assert(spec_lines(d) =~= seq![spec_strip_cr(l + seq![CR])] + spec_lines(rest));
}

/// Taking one `\n`-terminated line off the front of a block.
proof fn lemma_lines_prepend_lf(l: Seq<u8>, rest: Seq<u8>)
    requires
        forall|j: int| 0 <= j < l.len() ==> l[j] != LF,
    ensures
        spec_lines(l + seq![LF] + rest) == seq![spec_strip_cr(l)] + spec_lines(rest),
{
    let d = l + seq![LF] + rest;
    assert(forall|k: int| 0 <= k < l.len() ==> d[k] != LF) by {
        assert(forall|k: int| 0 <= k < l.len() ==> d[k] == l[k]);
    }
    lemma_lines_from_skip(d, 0, 0, l.len() as int);
    assert(d[l.len() as int] == LF);
    assert(d.subrange(0, l.len() as int) =~= l);
    let x = l + seq![LF];
    assert(d =~= x + rest);
    lemma_lines_from_shift(x, rest, 0, 0);
    assert(spec_lines(d) =~= seq![spec_strip_cr(l)] + spec_lines(rest));
}

/// The `\r\n`-joined block, delimiter included, splits back into the lines
/// plus the blank terminator line.
proof fn lemma_lines_of_join_crlf(ls: Seq<Seq<u8>>)
    requires
        lines_clean(ls),
    ensures
        spec_lines(join_crlf(ls) + seq![CR, LF]) == ls + seq![Seq::<u8>::empty()],
    decreases ls.len(),
{
    if ls.len() == 0 {
        let d = join_crlf(ls) + seq![CR, LF];
        assert(d =~= seq![CR, LF]);
        assert(d[0] != LF);
        assert(d[1] == LF);
        assert(spec_lines_from(d, 0, 0) == spec_lines_from(d, 0, 1));
        assert(spec_lines_from(d, 0, 1) == seq![spec_strip_cr(d.subrange(0, 1))]
            + spec_lines_from(d, 2, 2));
        assert(d.subrange(0, 1) =~= seq![CR]);
        assert(spec_strip_cr(seq![CR]) =~= Seq::<u8>::empty());
        assert(spec_lines_from(d, 2, 2) =~= Seq::<Seq<u8>>::empty());
        assert(spec_lines(d) =~= ls + seq![Seq::<u8>::empty()]);
    } else {
        let l = ls[0];
        let rest = join_crlf(ls.drop_first()) + seq![CR, LF];
        assert(join_crlf(ls) + seq![CR, LF] =~= l + seq![CR, LF] + rest);
        lemma_lines_prepend_crlf(l, rest);
        lemma_lines_of_join_crlf(ls.drop_first());
        assert(spec_strip_cr(l + seq![CR]) =~= l) by {
            assert((l + seq![CR]).last() == CR);
            assert((l + seq![CR]).drop_last() =~= l);
        }
        assert(seq![l] + (ls.drop_first() + seq![Seq::<u8>::empty()]) =~= ls + seq![
            Seq::<u8>::empty(),
        ]);
    }
}

/// The `\n`-joined block, delimiter included, splits back into the lines
/// plus the blank terminator line.
proof fn lemma_lines_of_join_lf(ls: Seq<Seq<u8>>)
    requires
        lines_clean(ls),
    ensures
        spec_lines(join_lf(ls) + seq![LF]) == ls + seq![Seq::<u8>::empty()],
    decreases ls.len(),
{
    if ls.len() == 0 {
        let d = join_lf(ls) + seq![LF];
        assert(d =~= seq![LF]);
        assert(d[0] == LF);
        assert(spec_lines_from(d, 0, 0) == seq![spec_strip_cr(d.subrange(0, 0))]
            + spec_lines_from(d, 1, 1));
        assert(d.subrange(0, 0) =~= Seq::<u8>::empty());
        assert(spec_lines_from(d, 1, 1) =~= Seq::<Seq<u8>>::empty());
        assert(spec_lines(d) =~= ls + seq![Seq::<u8>::empty()]);
    } else {
        let l = ls[0];
        let rest = join_lf(ls.drop_first()) + seq![LF];
        assert(join_lf(ls) + seq![LF] =~= l + seq![LF] + rest);
        lemma_lines_prepend_lf(l, rest);
        lemma_lines_of_join_lf(ls.drop_first());
        assert(spec_strip_cr(l) =~= l);
        assert(seq![l] + (ls.drop_first() + seq![Seq::<u8>::empty()]) =~= ls + seq![
            Seq::<u8>::empty(),
        ]);
    }
}

/// A header block terminated only by `\n\n` parses identically to the same
/// block terminated by `\r\n\r\n`: for any list of non-empty header-block
/// lines free of `\r` and `\n`, and any trailing body bytes, both wire
/// forms frame at their respective delimiter, split into the same lines,
/// leave the same body, and one parses successfully exactly when the other
/// does.
pub proof fn lemma_lf_head_parses_like_crlf_head(ls: Seq<Seq<u8>>, b: Seq<u8>)
    requires
        ls.len() >= 1,
        lines_clean(ls),
    ensures
        ({
            let d1 = join_crlf(ls) + seq![CR, LF] + b;
            let d2 = join_lf(ls) + seq![LF] + b;
            let h1 = join_crlf(ls).len() + 2;
            let h2 = join_lf(ls).len() + 1;
            &&& spec_boundary(d1) == Some(((h1 - 4) as int, h1 as int))
            &&& spec_boundary(d2) == Some(((h2 - 2) as int, h2 as int))
            &&& spec_lines(d1.subrange(0, h1 as int)) == ls + seq![Seq::<u8>::empty()]
            &&& spec_lines(d2.subrange(0, h2 as int)) == ls + seq![Seq::<u8>::empty()]
            &&& d1.skip(h1 as int) == b
            &&& d2.skip(h2 as int) == b
            &&& spec_parse_ok(d1) == spec_parse_ok(d2)
            &&& spec_fields(spec_lines(d1.subrange(0, h1 as int))[0]) == spec_fields(
                spec_lines(d2.subrange(0, h2 as int))[0],
            )
            &&& spec_headers_map(spec_lines(d1.subrange(0, h1 as int))) == spec_headers_map(
                spec_lines(d2.subrange(0, h2 as int)),
            )
        }),
{
    let d1 = join_crlf(ls) + seq![CR, LF] + b;
    let d2 = join_lf(ls) + seq![LF] + b;
    let j1 = join_crlf(ls).len() as int;
    let j2 = join_lf(ls).len() as int;
    lemma_join_crlf_tail(ls);
    lemma_join_lf_tail(ls);
    assert(is_crlfcrlf_at(d1, j1 - 2)) by {
        assert(d1[j1 - 2] == CR);
        assert(d1[j1 - 1] == LF);
        assert(d1[j1] == CR);
        assert(d1[j1 + 1] == LF);
    }
    assert(is_lflf_at(d2, j2 - 1)) by {
        assert(d2[j2 - 1] == LF);
        assert(d2[j2] == LF);
    }
    assert(forall|j: int| 0 <= j < j1 - 2 ==> !is_crlfcrlf_at(d1, j) && !is_lflf_at(d1, j)) by {
        assert forall|j: int| 0 <= j < j1 - 2 implies !is_crlfcrlf_at(d1, j) && !is_lflf_at(
            d1,
            j,
        ) by {
            lemma_join_crlf_no_delim(ls, b, j);
        }
    }
    lemma_boundary_from_skip(d1, 0, j1 - 2);
    assert(spec_boundary(d1) == Some((j1 - 2, j1 + 2)));
    assert(forall|j: int| 0 <= j < j2 - 1 ==> !is_crlfcrlf_at(d2, j) && !is_lflf_at(d2, j)) by {
        assert forall|j: int| 0 <= j < j2 - 1 implies !is_crlfcrlf_at(d2, j) && !is_lflf_at(
            d2,
            j,
        ) by {
            lemma_join_lf_no_delim(ls, b, j);
        }
    }
    lemma_boundary_from_skip(d2, 0, j2 - 1);
    assert(!is_crlfcrlf_at(d2, j2 - 1)) by {
        lemma_join_lf_no_delim(ls, b, j2 - 1);
    }
    assert(spec_boundary(d2) == Some((j2 - 1, j2 + 1)));
    assert(d1.subrange(0, j1 + 2) =~= join_crlf(ls) + seq![CR, LF]);
    assert(d2.subrange(0, j2 + 1) =~= join_lf(ls) + seq![LF]);
    lemma_lines_of_join_crlf(ls);
    lemma_lines_of_join_lf(ls);
    assert(d1.skip(j1 + 2) =~= b);
    assert(d2.skip(j2 + 1) =~= b);
}

} // verus!
