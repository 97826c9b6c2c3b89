//! Small protocol utilities: byte constants, the status-code registry, and
//! byte-level line splitting used by the request parser.

use vstd::prelude::*;
use crate::text::{spec_dec_digits, u64_to_string};

verus! {

/// Carriage-return byte (`\r`).
pub const CR: u8 = 13;
/// Line-feed byte (`\n`).
pub const LF: u8 = 10;
/// Space byte.
pub const SP: u8 = 32;

/// The canonical reason phrase for an HTTP status code; unknown codes map to
/// `"Unknown"`.
pub open spec fn spec_status_str(code: u16) -> Seq<char> {
    match code {
        100u16 => "Continue"@,
        101u16 => "Switching Protocols"@,
        102u16 => "Processing"@,
        200u16 => "OK"@,
        201u16 => "Created"@,
        202u16 => "Accepted"@,
        203u16 => "Non-authoritative Information"@,
        204u16 => "No Content"@,
        205u16 => "Reset Content"@,
        206u16 => "Partial Content"@,
        207u16 => "Multi-Status"@,
        208u16 => "Already Reported"@,
        226u16 => "IM Used"@,
        300u16 => "Multiple Choices"@,
        301u16 => "Moved Permanently"@,
        302u16 => "Found"@,
        303u16 => "See Other"@,
        304u16 => "Not Modified"@,
        305u16 => "Use Proxy"@,
        307u16 => "Temporary Redirect"@,
        308u16 => "Permanent Redirect"@,
        400u16 => "Bad Request"@,
        401u16 => "Unauthorized"@,
        402u16 => "Payment Required"@,
        403u16 => "Forbidden"@,
        404u16 => "Not Found"@,
        405u16 => "Method Not Allowed"@,
        406u16 => "Not Acceptable"@,
        407u16 => "Proxy Authentication Required"@,
        408u16 => "Request Timeout"@,
        409u16 => "Conflict"@,
        410u16 => "Gone"@,
        411u16 => "Length Required"@,
        412u16 => "Precondition Failed"@,
        413u16 => "Payload Too Large"@,
        414u16 => "Request-URI Too Long"@,
        415u16 => "Unsupported Media Type"@,
        416u16 => "Requested Range Not Satisfiable"@,
        417u16 => "Expectation Failed"@,
        418u16 => "I'm a teapot"@,
        421u16 => "Misdirected Request"@,
        422u16 => "Unprocessable Entity"@,
        423u16 => "Locked"@,
        424u16 => "Failed Dependency"@,
        426u16 => "Upgrade Required"@,
        428u16 => "Precondition Required"@,
        429u16 => "Too Many Requests"@,
        431u16 => "Request Header Fields Too Large"@,
        444u16 => "Connection Closed Without Response"@,
        451u16 => "Unavailable For Legal Reasons"@,
        499u16 => "Client Closed Request"@,
        500u16 => "Internal Server Error"@,
        501u16 => "Not Implemented"@,
        502u16 => "Bad Gateway"@,
        503u16 => "Service Unavailable"@,
        504u16 => "Gateway Timeout"@,
        505u16 => "HTTP Version Not Supported"@,
        506u16 => "Variant Also Negotiates"@,
        507u16 => "Insufficient Storage"@,
        508u16 => "Loop Detected"@,
        510u16 => "Not Extended"@,
        511u16 => "Network Authentication Required"@,
        599u16 => "Network Connect Timeout Error"@,
        _ => "Unknown"@,
    }
}

/// Returns the status string for the given HTTP status code. If given an
/// unknown code, `"Unknown"` is returned.
pub fn lookup_status_str(code: u16) -> (r: &'static str)
    ensures
        r@ == spec_status_str(code),
{
    match code {
        100u16 => "Continue",
        101u16 => "Switching Protocols",
        102u16 => "Processing",
        200u16 => "OK",
        201u16 => "Created",
        202u16 => "Accepted",
        203u16 => "Non-authoritative Information",
        204u16 => "No Content",
        205u16 => "Reset Content",
        206u16 => "Partial Content",
        207u16 => "Multi-Status",
        208u16 => "Already Reported",
        226u16 => "IM Used",
        300u16 => "Multiple Choices",
        301u16 => "Moved Permanently",
        302u16 => "Found",
        303u16 => "See Other",
        304u16 => "Not Modified",
        305u16 => "Use Proxy",
        307u16 => "Temporary Redirect",
        308u16 => "Permanent Redirect",
        400u16 => "Bad Request",
        401u16 => "Unauthorized",
        402u16 => "Payment Required",
        403u16 => "Forbidden",
        404u16 => "Not Found",
        405u16 => "Method Not Allowed",
        406u16 => "Not Acceptable",
        407u16 => "Proxy Authentication Required",
        408u16 => "Request Timeout",
        409u16 => "Conflict",
        410u16 => "Gone",
        411u16 => "Length Required",
        412u16 => "Precondition Failed",
        413u16 => "Payload Too Large",
        414u16 => "Request-URI Too Long",
        415u16 => "Unsupported Media Type",
        416u16 => "Requested Range Not Satisfiable",
        417u16 => "Expectation Failed",
        418u16 => "I'm a teapot",
        421u16 => "Misdirected Request",
        422u16 => "Unprocessable Entity",
        423u16 => "Locked",
        424u16 => "Failed Dependency",
        426u16 => "Upgrade Required",
        428u16 => "Precondition Required",
        429u16 => "Too Many Requests",
        431u16 => "Request Header Fields Too Large",
        444u16 => "Connection Closed Without Response",
        451u16 => "Unavailable For Legal Reasons",
        499u16 => "Client Closed Request",
        500u16 => "Internal Server Error",
        501u16 => "Not Implemented",
        502u16 => "Bad Gateway",
        503u16 => "Service Unavailable",
        504u16 => "Gateway Timeout",
        505u16 => "HTTP Version Not Supported",
        506u16 => "Variant Also Negotiates",
        507u16 => "Insufficient Storage",
        508u16 => "Loop Detected",
        510u16 => "Not Extended",
        511u16 => "Network Authentication Required",
        599u16 => "Network Connect Timeout Error",
        _ => "Unknown",
    }
}

/// The first position of `entry` in `data` at or after index `from`, if any.
pub open spec fn spec_index_of(data: Seq<u8>, entry: u8, from: int) -> Option<int>
    decreases data.len() - from,
{
    if from < 0 || from >= data.len() {
        None
    } else if data[from] == entry {
        Some(from)
    } else {
        spec_index_of(data, entry, from + 1)
    }
}

/// Returns the index of the first occurrence of `entry` in `data`, if any.
pub fn index_of(data: &Vec<u8>, entry: u8) -> (r: Option<usize>)
    ensures
        match r {
            Some(i) => spec_index_of(data@, entry, 0) == Some(i as int),
            None => spec_index_of(data@, entry, 0) is None,
        },
{
    let mut i: usize = 0;
    while i < data.len()
        invariant
            0 <= i <= data@.len(),
            spec_index_of(data@, entry, 0) == spec_index_of(data@, entry, i as int),
        decreases data@.len() - i,
    {
        if data[i] == entry {
            return Some(i);
        }
        i = i + 1;
    }
    None
}

/// A found occurrence lies within the searched range and is the first one.
pub proof fn lemma_index_of_in_range(data: Seq<u8>, entry: u8, from: int)
    ensures
        spec_index_of(data, entry, from) matches Some(i) ==> from <= i < data.len() && data[i]
            == entry,
    decreases data.len() - from,
{
    if 0 <= from < data.len() && data[from] != entry {
        lemma_index_of_in_range(data, entry, from + 1);
    }
}

/// A line with one trailing carriage return removed.
pub open spec fn spec_strip_cr(line: Seq<u8>) -> Seq<u8> {
    if line.len() > 0 && line.last() == CR {
        line.drop_last()
    } else {
        line
    }
}

/// The lines of `d` from scan position `i` on, where the current line began
/// at position `start`. Each line ends at a line feed and loses one carriage
/// return before it; an unterminated tail is dropped.
pub open spec fn spec_lines_from(d: Seq<u8>, start: int, i: int) -> Seq<Seq<u8>>
    decreases d.len() - i,
{
    if i < 0 || i >= d.len() {
        Seq::empty()
    } else if d[i] == LF {
        seq![spec_strip_cr(d.subrange(start, i))] + spec_lines_from(d, i + 1, i + 1)
    } else {
        spec_lines_from(d, start, i + 1)
    }
}

/// The line-feed-terminated lines of `d`, each without its line ending.
pub open spec fn spec_lines(d: Seq<u8>) -> Seq<Seq<u8>> {
    spec_lines_from(d, 0, 0)
}

/// Splits `data` into lines on each line feed, removing a carriage return
/// directly before the line feed. Bytes after the last line feed are
/// dropped.
pub fn to_lines(data: &[u8]) -> (r: Vec<Vec<u8>>)
    ensures
        r.deep_view() == spec_lines(data@),
{
    let mut lines: Vec<Vec<u8>> = Vec::new();
    let mut current_line: Vec<u8> = Vec::new();
    let ghost mut start: int = 0;
    let mut i: usize = 0;
    proof {
        assert(current_line@ =~= data@.subrange(0, 0));
        assert(lines.deep_view() + spec_lines_from(data@, 0, 0) =~= spec_lines(data@));
    }
    while i < data.len()
        invariant
            0 <= start <= i <= data@.len(),
            current_line@ == data@.subrange(start, i as int),
            lines.deep_view() + spec_lines_from(data@, start, i as int) == spec_lines(data@),
        decreases data@.len() - i,
    {
        let ghost lines0 = lines.deep_view();
        if data[i] == LF {
            if current_line.len() > 0 && current_line[current_line.len() - 1] == CR {
                current_line.pop();
                proof {
                    assert(current_line@ =~= spec_strip_cr(data@.subrange(start, i as int)));
                }
            }
            proof {
                assert(current_line@ =~= spec_strip_cr(data@.subrange(start, i as int)));
            }
            lines.push(current_line);
            current_line = Vec::new();
            proof {
                assert(lines.deep_view() =~~= lines0.push(spec_strip_cr(
                    data@.subrange(start, i as int),
                )));
                assert(lines.deep_view() + spec_lines_from(data@, i + 1, i + 1) =~~= lines0
                    + spec_lines_from(data@, start, i as int));
                start = i + 1;
                assert(current_line@ =~= data@.subrange(start, i + 1));
            }
        } else {
            current_line.push(data[i]);
            proof {
                assert(current_line@ =~= data@.subrange(start, i + 1));
            }
        }
        i = i + 1;
    }
    proof {
        assert(lines.deep_view() + spec_lines_from(data@, start, data@.len() as int)
            =~= lines.deep_view());
    }
    lines
}

/// Reads the wall clock as whole seconds since the UNIX epoch.
///
/// Relies on `std::time::SystemTime::now` and `duration_since`; a clock
/// before the epoch reads as zero.
#[verifier::external_body]
pub fn unix_time() -> u64 {
    match std::time::SystemTime::now().duration_since(std::time::UNIX_EPOCH) {
        Ok(d) => d.as_secs(),
        Err(_) => 0,
    }
}

/// The line written to a log sink for an event: the UNIX timestamp, a space,
/// the message, and a newline.
pub fn log(timestamp: u64, message: &str) -> (line: String)
    ensures
        line@ == spec_dec_digits(timestamp as nat) + " "@ + message@ + "\n"@,
{
    let mut line = u64_to_string(timestamp);
    line.append(" ");
    line.append(message);
    line.append("\n");
    proof {
        assert(line@ =~= spec_dec_digits(timestamp as nat) + " "@ + message@ + "\n"@);
    }
    line
}

} // verus!
